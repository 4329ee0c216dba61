use ircjournal::broadcast::{announce, is_for};
use ircjournal::model::{Datetime, Message, ServerChannel};

fn stored(channel: Option<&str>) -> Message {
    Message {
        id: 7,
        channel: channel.map(|text| text.to_string()),
        nick: Some("zopieux".to_string()),
        line: Some("test".to_string()),
        opcode: None,
        oper_nick: None,
        payload: None,
        timestamp: Datetime::new(0, 0),
    }
}

#[test]
fn stored_record_is_announced_with_its_channel() {
    assert_eq!(
        announce(&stored(Some("serv/#chan")), "<p>test</p>".to_string()),
        Some((ServerChannel::new("serv", "#chan"), "<p>test</p>".to_string()))
    );
    assert_eq!(announce(&stored(Some("serv")), "<p>test</p>".to_string()), None);
    assert_eq!(announce(&stored(None), "<p>test</p>".to_string()), None);
}

#[test]
fn viewer_takes_the_announcements_of_its_channel() {
    let event = (ServerChannel::new("serv", "#chan"), "<p>test</p>".to_string());
    assert!(is_for(&event, &ServerChannel::new("serv", "#chan")));
    assert!(!is_for(&event, &ServerChannel::new("serv", "#other")));
    assert!(!is_for(&event, &ServerChannel::new("other", "#chan")));
}

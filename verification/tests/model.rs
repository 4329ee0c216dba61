use ircjournal::model::{Datetime, InvalidChannel, Message, Opcode, ServerChannel};
use std::str::FromStr;

#[test]
fn channel_text_is_server_slash_channel() {
    let sc = ServerChannel::new("serv.foo", "#bar");
    assert_eq!(sc.db_encode(), "serv.foo/#bar");
    assert_eq!(sc.to_string(), "serv.foo/#bar");
    assert_eq!(ServerChannel::new("", "").db_encode(), "/");
}

#[test]
fn channel_text_splits_at_the_first_slash() {
    assert_eq!(
        ServerChannel::db_decode("serv.foo/#bar"),
        Some(ServerChannel::new("serv.foo", "#bar"))
    );
    assert_eq!(
        ServerChannel::db_decode("serv/#chan/extra"),
        Some(ServerChannel::new("serv", "#chan/extra"))
    );
    assert_eq!(ServerChannel::db_decode("/"), Some(ServerChannel::new("", "")));
    assert_eq!(ServerChannel::db_decode("nochannel"), None);
    assert_eq!(ServerChannel::db_decode(""), None);
}

#[test]
fn channel_survives_encoding() {
    for (server, channel) in [("serv", "#chan"), ("a.b", "##c/d"), ("", "x")] {
        let sc = ServerChannel::new(server, channel);
        assert_eq!(ServerChannel::db_decode(&sc.db_encode()), Some(sc));
    }
}

#[test]
fn channels_are_equal_by_value() {
    assert!(ServerChannel::new("a", "b") == ServerChannel::new("a", "b"));
    assert!(ServerChannel::new("a", "b") != ServerChannel::new("a", "c"));
    assert!(ServerChannel::new("a", "b") != ServerChannel::new("c", "b"));
    assert!(ServerChannel::new("a/b", "") != ServerChannel::new("a", "b"));
    let sc = ServerChannel::new("a", "b");
    assert_eq!(sc.clone(), sc);
}

#[test]
fn instants_are_ordered_by_seconds_then_nanoseconds() {
    let a = Datetime::new(10, 5);
    let b = Datetime::new(10, 6);
    let c = Datetime::new(11, 0);
    assert!(a.is_before(&b) && b.is_before(&c) && a.is_before(&c));
    assert!(c.is_after(&a) && b.is_after(&a));
    assert!(!a.is_before(&a) && !a.is_after(&a));
    assert!(!b.is_before(&a) && !a.is_after(&b));
    assert!(Datetime::new(-1, 999).is_before(&Datetime::new(0, 0)));
    assert!(a < b && b < c);
    assert_eq!(Datetime::new(3, 4), Datetime { secs: 3, nanos: 4 });
}

#[test]
fn opcodes_have_their_stored_words() {
    let all = [
        (Opcode::Me, "me"),
        (Opcode::Joined, "joined"),
        (Opcode::Left, "left"),
        (Opcode::Quit, "quit"),
        (Opcode::Kicked, "kicked"),
        (Opcode::Topic, "topic"),
        (Opcode::Nick, "nick"),
    ];
    for (opcode, word) in all {
        assert_eq!(opcode.as_str(), word);
        assert_eq!(Opcode::from_name(word), Some(opcode));
    }
    assert_eq!(Opcode::from_name(""), None);
    assert_eq!(Opcode::from_name("Me"), None);
    assert_eq!(Opcode::from_name("message"), None);
}

fn stored(opcode: Option<Opcode>, nick: Option<&str>, channel: Option<&str>) -> Message {
    Message {
        id: 7,
        channel: channel.map(|text| text.to_string()),
        nick: nick.map(|text| text.to_string()),
        line: None,
        opcode,
        oper_nick: None,
        payload: None,
        timestamp: Datetime::new(0, 0),
    }
}

#[test]
fn talk_has_no_opcode_and_a_nick() {
    assert!(stored(None, Some("zopieux"), None).is_talk());
    assert!(!stored(None, Some(""), None).is_talk());
    assert!(!stored(None, None, None).is_talk());
    assert!(!stored(Some(Opcode::Me), Some("zopieux"), None).is_talk());
    assert!(!stored(Some(Opcode::Joined), Some("zopieux"), None).is_talk());
}

#[test]
fn action_has_the_opcode_me() {
    assert!(stored(Some(Opcode::Me), Some("zopieux"), None).is_me_tell());
    assert!(!stored(None, Some("zopieux"), None).is_me_tell());
    assert!(!stored(Some(Opcode::Nick), Some("zopieux"), None).is_me_tell());
}

#[test]
fn stored_record_knows_its_channel() {
    assert_eq!(
        stored(None, None, Some("serv/#chan")).sc(),
        Some(ServerChannel::new("serv", "#chan"))
    );
    assert_eq!(stored(None, None, Some("serv")).sc(), None);
    assert_eq!(stored(None, None, None).sc(), None);
}

#[test]
fn channel_is_parsed_from_its_text() {
    assert_eq!(
        ServerChannel::from_str("serv/#chan"),
        Ok(ServerChannel::new("serv", "#chan"))
    );
    assert_eq!("a/b/c".parse(), Ok(ServerChannel::new("a", "b/c")));
    assert_eq!(ServerChannel::from_str("serv"), Err(InvalidChannel));
    assert_eq!(ServerChannel::from_str(""), Err(InvalidChannel));
}

use ircjournal::line::{line_to_new_message, IrcLine};
use ircjournal::model::{Datetime, NewMessage, Opcode, ServerChannel};

fn blank(at: Datetime) -> NewMessage {
    NewMessage {
        channel: Some("serv/#chan".to_string()),
        nick: None,
        line: None,
        opcode: None,
        oper_nick: None,
        payload: None,
        timestamp: at,
    }
}

fn text(value: &str) -> Option<String> {
    Some(value.to_string())
}

#[test]
fn every_event_has_its_record() {
    let sc = ServerChannel::new("serv", "#chan");
    let at = Datetime::new(1576365077, 0);
    let record = |line: IrcLine| line_to_new_message(line, &sc, at);
    assert_eq!(
        record(IrcLine::NickChanged {
            old: "a".to_string(),
            new: "b".to_string()
        }),
        Some(NewMessage {
            nick: text("a"),
            payload: text("b"),
            opcode: Some(Opcode::Nick),
            ..blank(at)
        })
    );
    assert_eq!(
        record(IrcLine::TopicChanged {
            nick: "a".to_string(),
            old: "before".to_string(),
            new: "after".to_string()
        }),
        Some(NewMessage {
            nick: text("a"),
            payload: text("after"),
            opcode: Some(Opcode::Topic),
            ..blank(at)
        })
    );
    assert_eq!(
        record(IrcLine::Joined {
            nick: "a".to_string()
        }),
        Some(NewMessage {
            nick: text("a"),
            opcode: Some(Opcode::Joined),
            ..blank(at)
        })
    );
    assert_eq!(
        record(IrcLine::Left {
            nick: "a".to_string(),
            reason: "".to_string()
        }),
        Some(NewMessage {
            nick: text("a"),
            payload: text(""),
            opcode: Some(Opcode::Left),
            ..blank(at)
        })
    );
    assert_eq!(
        record(IrcLine::Quit {
            nick: "a".to_string(),
            reason: "bye".to_string()
        }),
        Some(NewMessage {
            nick: text("a"),
            payload: text("bye"),
            opcode: Some(Opcode::Quit),
            ..blank(at)
        })
    );
    assert_eq!(
        record(IrcLine::Kicked {
            oper_nick: "op".to_string(),
            nick: "a".to_string(),
            reason: "no u".to_string()
        }),
        Some(NewMessage {
            nick: text("a"),
            oper_nick: text("op"),
            payload: text("no u"),
            opcode: Some(Opcode::Kicked),
            ..blank(at)
        })
    );
    assert_eq!(
        record(IrcLine::Me {
            nick: "a".to_string(),
            line: "waves".to_string()
        }),
        Some(NewMessage {
            nick: text("a"),
            line: text("waves"),
            opcode: Some(Opcode::Me),
            ..blank(at)
        })
    );
    assert_eq!(
        record(IrcLine::Message {
            nick: "a".to_string(),
            line: "hello".to_string()
        }),
        Some(NewMessage {
            nick: text("a"),
            line: text("hello"),
            ..blank(at)
        })
    );
}

#[test]
fn garbage_has_no_record() {
    let sc = ServerChannel::new("serv", "#chan");
    assert_eq!(
        line_to_new_message(IrcLine::Garbage, &sc, Datetime::new(0, 0)),
        None
    );
}

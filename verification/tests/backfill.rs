use ircjournal::backfill::{backfill, read_record, read_records, BackfillError, Backfilled};
use ircjournal::model::{Datetime, NewMessage, Opcode, ServerChannel};
use ircjournal::read::LogReader;
use ircjournal::weechat::Weechat;

fn weechat() -> Weechat {
    Weechat::new().unwrap()
}

fn at(x: &'static str) -> Datetime {
    let at = chrono::DateTime::parse_from_rfc3339(&format!("{}+00:00", x.replace(" ", "T")))
        .unwrap()
        .with_timezone(&chrono::Utc);
    Datetime::new(at.timestamp(), at.timestamp_subsec_nanos())
}

fn said(stamp: &'static str, nick: &str, line: &str) -> NewMessage {
    NewMessage {
        channel: Some("serv/#chan".to_string()),
        nick: Some(nick.to_string()),
        line: Some(line.to_string()),
        opcode: None,
        oper_nick: None,
        payload: None,
        timestamp: at(stamp),
    }
}

const NAME: &str = "irc.serv.#chan.weechatlog";

const LOG: &str = "2020-01-25 09:31:14\thaileda\til pleut
2020-01-25 09:31:18\thaileda\til mouille
2020-01-25 09:31:34\thaileda\ty'a une houle de 5m
2020-01-25 09:39:17\tDettorer\tça rime pas
2020-01-25 09:39:20\t--\tirc: some notice from the server
2020-01-25 09:39:26\thaileda\tc'est un haiku
not a line at all
2020-01-25 09:40:31\tDettorer\tça rime pas un haiku ?
2020-01-25 10:02:42\tspider-mario\tDettorer: non
2020-01-25 10:04:13\t<--\thaileda (~lda@hawaii) has quit (Quit: Lost terminal)\n";

fn all_records() -> Vec<NewMessage> {
    vec![
        said("2020-01-25 09:31:14", "haileda", "il pleut"),
        said("2020-01-25 09:31:18", "haileda", "il mouille"),
        said("2020-01-25 09:31:34", "haileda", "y'a une houle de 5m"),
        said("2020-01-25 09:39:17", "Dettorer", "ça rime pas"),
        said("2020-01-25 09:39:26", "haileda", "c'est un haiku"),
        said("2020-01-25 09:40:31", "Dettorer", "ça rime pas un haiku ?"),
        said("2020-01-25 10:02:42", "spider-mario", "Dettorer: non"),
        NewMessage {
            channel: Some("serv/#chan".to_string()),
            nick: Some("haileda".to_string()),
            line: None,
            opcode: Some(Opcode::Quit),
            oper_nick: None,
            payload: Some("Quit: Lost terminal".to_string()),
            timestamp: at("2020-01-25 10:04:13"),
        },
    ]
}

fn run(name: &str, enabled: bool, last: Option<Datetime>) -> (Result<Backfilled, BackfillError>, usize) {
    let mut reader = LogReader::new(LOG.as_bytes().to_vec());
    let done = backfill(&weechat(), name, &mut reader, enabled, last);
    (done, reader.position())
}

#[test]
fn file_with_another_name_is_refused() {
    let (done, position) = run("server.#chan.weechatlogs", true, None);
    assert_eq!(done, Err(BackfillError::InvalidFilename));
    assert_eq!(position, 0);
    assert_eq!(BackfillError::InvalidFilename.message(), "not a valid filename");
}

#[test]
fn empty_store_takes_the_whole_file() {
    let (done, position) = run(NAME, true, None);
    assert_eq!(
        done,
        Ok(Backfilled {
            sc: ServerChannel::new("serv", "#chan"),
            resumed_after: None,
            messages: all_records(),
        })
    );
    assert_eq!(position, LOG.len());
}

#[test]
fn backfill_goes_on_after_the_last_stored_line() {
    let (done, position) = run(NAME, true, Some(at("2020-01-25 09:39:26")));
    assert_eq!(
        done,
        Ok(Backfilled {
            sc: ServerChannel::new("serv", "#chan"),
            resumed_after: Some(at("2020-01-25 09:39:26")),
            messages: all_records().split_off(5),
        })
    );
    assert_eq!(position, LOG.len());
}

#[test]
fn backfill_after_the_last_line_gives_nothing() {
    let (done, position) = run(NAME, true, Some(at("2020-01-25 10:04:13")));
    assert_eq!(
        done,
        Ok(Backfilled {
            sc: ServerChannel::new("serv", "#chan"),
            resumed_after: Some(at("2020-01-25 10:04:13")),
            messages: vec![],
        })
    );
    assert_eq!(position, LOG.len());
}

#[test]
fn unknown_last_instant_takes_the_whole_file() {
    for stamp in ["2020-01-25 01:01:01", "2020-01-25 09:39:00", "2020-01-25 23:59:59"] {
        let (done, position) = run(NAME, true, Some(at(stamp)));
        assert_eq!(
            done,
            Ok(Backfilled {
                sc: ServerChannel::new("serv", "#chan"),
                resumed_after: None,
                messages: all_records(),
            })
        );
        assert_eq!(position, LOG.len());
    }
}

#[test]
fn backfill_switched_off_reads_nothing() {
    let (done, position) = run(NAME, false, Some(at("2020-01-25 09:39:26")));
    assert_eq!(
        done,
        Ok(Backfilled {
            sc: ServerChannel::new("serv", "#chan"),
            resumed_after: None,
            messages: vec![],
        })
    );
    assert_eq!(position, LOG.len());
}

#[test]
fn lines_are_read_to_the_end_of_the_file() {
    let sc = ServerChannel::new("serv", "#chan");
    let data = "2020-01-25 09:31:14\ta\tone\r\n\u{e9}\n2020-01-25 09:31:15\tb\ttwo\n\n2020-01-25 09:31:16\tc\tthree";
    assert_eq!(
        read_records(&weechat(), data.as_bytes(), 0, &sc),
        vec![
            said("2020-01-25 09:31:14", "a", "one"),
            said("2020-01-25 09:31:15", "b", "two"),
            said("2020-01-25 09:31:16", "c", "three"),
        ]
    );
    assert_eq!(
        read_records(&weechat(), data.as_bytes(), 27, &sc),
        vec![
            said("2020-01-25 09:31:15", "b", "two"),
            said("2020-01-25 09:31:16", "c", "three"),
        ]
    );
    assert_eq!(read_records(&weechat(), data.as_bytes(), 1, &sc).len(), 2);
    assert_eq!(read_records(&weechat(), data.as_bytes(), data.len(), &sc), vec![]);
    assert_eq!(read_records(&weechat(), b"", 0, &sc), vec![]);
}

#[test]
fn line_that_is_no_text_gives_no_record() {
    let sc = ServerChannel::new("serv", "#chan");
    let mut data = b"2020-01-25 09:31:14\ta\tone".to_vec();
    data.push(0xff);
    data.push(b'\n');
    assert_eq!(read_record(&weechat(), &data, 0, data.len(), &sc), None);
    assert_eq!(
        read_record(&weechat(), &data, 0, 25, &sc),
        Some(said("2020-01-25 09:31:14", "a", "one"))
    );
    assert_eq!(read_records(&weechat(), &data, 0, &sc), vec![]);
}

fn stored_again(log: &str, last: &'static str) -> Vec<NewMessage> {
    let mut reader = LogReader::new(log.as_bytes().to_vec());
    let done = backfill(&weechat(), NAME, &mut reader, true, Some(at(last))).unwrap();
    assert_eq!(reader.position(), log.len());
    assert_eq!(done.resumed_after, Some(at(last)));
    done.messages
}

#[test]
fn second_backfill_of_a_stored_log_gives_nothing() {
    let one = "2020-01-25 09:31:14\thaileda\til pleut\n";
    assert_eq!(stored_again(one, "2020-01-25 09:31:14"), vec![]);
    let two = "2020-01-25 09:31:14\ta\tb\n2020-01-25 09:31:14\tc\tthe second line\n";
    assert_eq!(stored_again(two, "2020-01-25 09:31:14"), vec![]);
    let grown = format!(
        "2020-01-25 09:31:14\ta\tb\n2020-01-25 09:31:15\tc\t{}\n",
        "x".repeat(170)
    );
    assert_eq!(stored_again(&grown, "2020-01-25 09:31:15"), vec![]);
    assert_eq!(stored_again(LOG, "2020-01-25 10:04:13"), vec![]);
    let stamp_in_text = "2020-01-01 00:00:01\ta\tx\n2020-01-01 00:00:02\tb\t1999-01-01 00:00:00\tc\tyyyyyyyyyyyyyyyyyyyyyyy\n";
    assert_eq!(stored_again(stamp_in_text, "2020-01-01 00:00:02"), vec![]);
}

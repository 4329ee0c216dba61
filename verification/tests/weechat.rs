use ircjournal::line::{IrcLine, Logger, ParseResult};
use ircjournal::model::{Datetime, ServerChannel};
use ircjournal::weechat::{
    channel_from, conclude, group_text, group_text_or_empty, joined, kicked, left, me, message,
    nick_changed, parse_stamp, quit, topic_changed, Weechat,
};

fn weechat() -> Weechat {
    Weechat::new().unwrap()
}

fn ts(x: &'static str) -> Datetime {
    let at = chrono::DateTime::parse_from_rfc3339(&format!("{}+00:00", x.replace(" ", "T")))
        .unwrap()
        .with_timezone(&chrono::Utc);
    Datetime::new(at.timestamp(), at.timestamp_subsec_nanos())
}

#[test]
fn weechat_test_parse_name() {
    assert_eq!(weechat().parse_path("garbage"), None);
    assert_eq!(
        weechat().parse_path("irc.serv.foo.#bar.weechatlog"),
        Some(ServerChannel {
            server: "serv.foo".to_string(),
            channel: "#bar".to_string(),
        })
    );
    assert_eq!(
        weechat().parse_path("irc.serv.##dieses.weechatlog"),
        Some(ServerChannel {
            server: "serv".to_string(),
            channel: "##dieses".to_string(),
        })
    );
    assert_eq!(
        weechat().parse_line(
            "2019-12-14 23:11:17\t-->\tzopieux (~zopieux@unaffiliated/zopieux) has joined ##dieses"
        ),
        ParseResult::Parsed((
            ts("2019-12-14 23:11:17"),
            IrcLine::Joined {
                nick: "zopieux".to_string()
            }
        ))
    );
    assert_eq!(weechat().parse_line("2019-12-14 23:11:38\t<--\tzopiuex (zopieux@unaffiliated/zopieux) has quit (Quit: WeeChat 2.2)"),
               ParseResult::Parsed((ts("2019-12-14 23:11:38"),
                     IrcLine::Quit { nick: "zopiuex".to_string(), reason: "Quit: WeeChat 2.2".to_string() })));
    assert_eq!(weechat().parse_line("2019-12-16 15:51:46\t<--\tTuxkowo (~Tuxkowo@2001:bc8:4400:2800::5d1b) has left ##dieses"),
               ParseResult::Parsed((ts("2019-12-16 15:51:46"),
                     IrcLine::Left { nick: "Tuxkowo".to_string(), reason: "".to_string() })));
    assert_eq!(
        weechat().parse_line(
            "2019-12-31 14:14:18\t<--\tTycale (~Tycale@tycale.be) has left ##dieses (\"Cya\")"
        ),
        ParseResult::Parsed((
            ts("2019-12-31 14:14:18"),
            IrcLine::Left {
                nick: "Tycale".to_string(),
                reason: "Cya".to_string(),
            }
        ))
    );
    assert_eq!(
        weechat().parse_line("2021-04-29 18:46:41\t *\thaileda uploaded an image: (68KiB)"),
        ParseResult::Parsed((
            ts("2021-04-29 18:46:41"),
            IrcLine::Me {
                nick: "haileda".to_string(),
                line: "uploaded an image: (68KiB)".to_string(),
            }
        ))
    );
    assert_eq!(
        weechat().parse_line("2019-12-14 23:12:14\t@zopieux\ttest"),
        ParseResult::Parsed((
            ts("2019-12-14 23:12:14"),
            IrcLine::Message {
                nick: "zopieux".to_string(),
                line: "test".to_string(),
            }
        ))
    );
    assert_eq!(
        weechat().parse_line("2019-12-14 23:12:14\tzopieux\ttest"),
        ParseResult::Parsed((
            ts("2019-12-14 23:12:14"),
            IrcLine::Message {
                nick: "zopieux".to_string(),
                line: "test".to_string(),
            }
        ))
    );
    assert_eq!(weechat().parse_line("2021-04-26 20:09:33\t--\tChanServ has changed topic for ##dieses from \"Bienvenue \"sur ##dieses\" to \"Joyeux \"anniversaire\" zopieux\""),
               ParseResult::Parsed((ts("2021-04-26 20:09:33"),
                     IrcLine::TopicChanged { nick: "ChanServ".to_string(), old: "Bienvenue \"sur ##dieses".to_string(), new: "Joyeux \"anniversaire\" zopieux".to_string() })));
    assert_eq!(
        weechat().parse_line("2021-01-19 00:39:46\t<--\tthizanne has kicked rom1504"),
        ParseResult::Parsed((
            ts("2021-01-19 00:39:46"),
            IrcLine::Kicked {
                oper_nick: "thizanne".to_string(),
                nick: "rom1504".to_string(),
                reason: "".to_string(),
            }
        ))
    );
    assert_eq!(
        weechat().parse_line("2021-01-19 00:39:46\t<--\tthizanne has kicked rom1504 (no u)"),
        ParseResult::Parsed((
            ts("2021-01-19 00:39:46"),
            IrcLine::Kicked {
                oper_nick: "thizanne".to_string(),
                nick: "rom1504".to_string(),
                reason: "no u".to_string(),
            }
        ))
    );
    assert_eq!(
        weechat().parse_line("2021-01-19 12:59:06\t--\tJuanTitor is now known as ordiclic"),
        ParseResult::Parsed((
            ts("2021-01-19 12:59:06"),
            IrcLine::NickChanged {
                old: "JuanTitor".to_string(),
                new: "ordiclic".to_string(),
            }
        ))
    );
}

fn groups(parts: &[Option<&str>]) -> Vec<Option<String>> {
    parts.iter().map(|part| part.map(|text| text.to_string())).collect()
}

#[test]
fn timestamp_is_read_as_utc_seconds() {
    assert_eq!(
        weechat().parse_line("2019-12-14 23:11:17\tzopieux\ttest"),
        ParseResult::Parsed((
            Datetime::new(1576365077, 0),
            IrcLine::Message {
                nick: "zopieux".to_string(),
                line: "test".to_string(),
            }
        ))
    );
}

#[test]
fn leap_second_keeps_its_place_after_second_59() {
    let leap = match weechat().parse_line("2016-12-31 23:59:60\tzopieux\ttest") {
        ParseResult::Parsed((at, _)) => at,
        other => panic!("{:?}", other),
    };
    assert_eq!(leap, Datetime::new(1483228799, 1_000_000_000));
    assert!(Datetime::new(1483228799, 0).is_before(&leap));
    assert!(leap.is_before(&Datetime::new(1483228800, 0)));
}

#[test]
fn line_without_timestamp_is_invalid() {
    assert_eq!(weechat().parse_line("garbage"), ParseResult::Invalid);
    assert_eq!(weechat().parse_line(""), ParseResult::Invalid);
    assert_eq!(
        weechat().parse_line("2019-12-14 23:11\tzopieux\ttest"),
        ParseResult::Invalid
    );
    assert_eq!(
        weechat().parse_line("2019-12-14 23:11:17 zopieux test"),
        ParseResult::Invalid
    );
    assert_eq!(
        weechat().parse_line(" 2019-12-14 23:11:17\tzopieux\ttest"),
        ParseResult::Invalid
    );
}

#[test]
fn timestamp_that_names_no_instant_is_invalid() {
    assert_eq!(
        weechat().parse_line("2019-13-14 23:11:17\tzopieux\ttest"),
        ParseResult::Invalid
    );
    assert_eq!(
        weechat().parse_line("2019-02-30 23:11:17\tzopieux\ttest"),
        ParseResult::Invalid
    );
    assert_eq!(
        weechat().parse_line("2019-12-14 24:00:00\tzopieux\ttest"),
        ParseResult::Invalid
    );
}

#[test]
fn body_that_is_no_event_is_noise() {
    assert_eq!(
        weechat().parse_line("2019-12-14 23:11:17\t--\tirc: disconnected from server"),
        ParseResult::Noise
    );
    assert_eq!(weechat().parse_line("2019-12-14 23:11:17\t"), ParseResult::Noise);
    assert_eq!(
        weechat().parse_line("2019-12-14 23:11:17\t<--\tsomething else"),
        ParseResult::Noise
    );
}

#[test]
fn action_without_words_has_the_empty_line() {
    assert_eq!(
        weechat().parse_line("2021-04-29 18:46:41\t *\thaileda"),
        ParseResult::Parsed((
            ts("2021-04-29 18:46:41"),
            IrcLine::Me {
                nick: "haileda".to_string(),
                line: "".to_string(),
            }
        ))
    );
    assert_eq!(
        weechat().parse_line("2021-04-29 18:46:41\t *\t@haileda "),
        ParseResult::Parsed((
            ts("2021-04-29 18:46:41"),
            IrcLine::Me {
                nick: "haileda".to_string(),
                line: "".to_string(),
            }
        ))
    );
}

#[test]
fn first_rule_that_matches_decides() {
    assert_eq!(
        weechat().parse_line("2019-12-16 15:51:46\t<--\tnick (a) has left #c (b) has quit"),
        ParseResult::Parsed((
            ts("2019-12-16 15:51:46"),
            IrcLine::Left {
                nick: "nick".to_string(),
                reason: "".to_string(),
            }
        ))
    );
}

#[test]
fn membership_marks_are_not_part_of_a_nick() {
    assert_eq!(
        weechat().parse_line("2021-01-19 00:39:46\t<--\t@thizanne has kicked +rom1504 (no u)"),
        ParseResult::Parsed((
            ts("2021-01-19 00:39:46"),
            IrcLine::Kicked {
                oper_nick: "thizanne".to_string(),
                nick: "rom1504".to_string(),
                reason: "no u".to_string(),
            }
        ))
    );
    assert_eq!(
        weechat().parse_line("2021-01-19 12:59:06\t--\t~&JuanTitor is now known as %ordiclic"),
        ParseResult::Parsed((
            ts("2021-01-19 12:59:06"),
            IrcLine::NickChanged {
                old: "JuanTitor".to_string(),
                new: "ordiclic".to_string(),
            }
        ))
    );
}

#[test]
fn file_names_outside_the_convention_name_no_channel() {
    assert_eq!(weechat().parse_path(""), None);
    assert_eq!(weechat().parse_path("irc.serv.weechatlog"), None);
    assert_eq!(weechat().parse_path("irc.serv.#chan.weechatlogs"), None);
    assert_eq!(weechat().parse_path("/var/log/irc.serv.#chan.weechatlog"), None);
    assert_eq!(
        weechat().parse_path("irc.serv.chan.weechatlog"),
        Some(ServerChannel::new("serv", "chan"))
    );
    assert_eq!(
        weechat().parse_path("irc.a.b.c.#d.e.weechatlog"),
        Some(ServerChannel::new("a.b.c.#d", "e"))
    );
}

#[test]
fn groups_become_fields() {
    let three = groups(&[Some("whole"), Some("one"), Some("two"), Some("three")]);
    assert_eq!(group_text(&three, 0), Some("whole".to_string()));
    assert_eq!(group_text(&three, 3), Some("three".to_string()));
    assert_eq!(group_text(&three, 4), None);
    assert_eq!(group_text_or_empty(&three, 2), "two".to_string());
    assert_eq!(group_text_or_empty(&three, 7), "".to_string());
    assert_eq!(channel_from(&three), Some(ServerChannel::new("one", "two")));
    assert_eq!(
        joined(&three),
        Some(IrcLine::Joined {
            nick: "one".to_string()
        })
    );
    assert_eq!(
        left(&three),
        Some(IrcLine::Left {
            nick: "one".to_string(),
            reason: "three".to_string()
        })
    );
    assert_eq!(
        quit(&three),
        Some(IrcLine::Quit {
            nick: "one".to_string(),
            reason: "two".to_string()
        })
    );
    assert_eq!(
        nick_changed(&three),
        Some(IrcLine::NickChanged {
            old: "one".to_string(),
            new: "two".to_string()
        })
    );
    assert_eq!(
        topic_changed(&three),
        Some(IrcLine::TopicChanged {
            nick: "one".to_string(),
            old: "two".to_string(),
            new: "three".to_string()
        })
    );
    assert_eq!(
        kicked(&three),
        Some(IrcLine::Kicked {
            oper_nick: "one".to_string(),
            nick: "two".to_string(),
            reason: "three".to_string()
        })
    );
    assert_eq!(
        me(&three),
        Some(IrcLine::Me {
            nick: "one".to_string(),
            line: "two".to_string()
        })
    );
    assert_eq!(
        message(&three),
        Some(IrcLine::Message {
            nick: "one".to_string(),
            line: "two".to_string()
        })
    );
}

#[test]
fn absent_groups_become_empty_or_nothing() {
    let bare = groups(&[Some("whole"), Some("one"), None, None]);
    assert_eq!(
        left(&bare),
        Some(IrcLine::Left {
            nick: "one".to_string(),
            reason: "".to_string()
        })
    );
    assert_eq!(
        quit(&bare),
        Some(IrcLine::Quit {
            nick: "one".to_string(),
            reason: "".to_string()
        })
    );
    assert_eq!(kicked(&bare), None);
    assert_eq!(
        kicked(&groups(&[Some("whole"), Some("one"), Some("two")])),
        Some(IrcLine::Kicked {
            oper_nick: "one".to_string(),
            nick: "two".to_string(),
            reason: "".to_string()
        })
    );
    assert_eq!(
        me(&bare),
        Some(IrcLine::Me {
            nick: "one".to_string(),
            line: "".to_string()
        })
    );
    assert_eq!(message(&bare), None);
    assert_eq!(nick_changed(&bare), None);
    assert_eq!(topic_changed(&bare), None);
    assert_eq!(channel_from(&bare), None);
    let none = groups(&[Some("whole"), None, Some("two"), Some("three")]);
    assert_eq!(joined(&none), None);
    assert_eq!(left(&none), None);
    assert_eq!(quit(&none), None);
    assert_eq!(me(&none), None);
    assert_eq!(joined(&groups(&[Some("whole")])), None);
    assert_eq!(joined(&groups(&[])), None);
}

#[test]
fn instant_and_event_decide_the_outcome() {
    let at = Datetime::new(5, 0);
    let event = || IrcLine::Joined {
        nick: "one".to_string(),
    };
    assert_eq!(conclude(None, Some(event())), ParseResult::Invalid);
    assert_eq!(conclude(None, None), ParseResult::Invalid);
    assert_eq!(conclude(Some(at), None), ParseResult::Noise);
    assert_eq!(
        conclude(Some(at), Some(event())),
        ParseResult::Parsed((at, event()))
    );
}

#[test]
fn stamp_and_body_are_read_apart() {
    assert_eq!(
        parse_stamp("2019-12-14 23:11:17"),
        Some(Datetime::new(1576365077, 0))
    );
    assert_eq!(parse_stamp("2019-12-14"), None);
    assert_eq!(parse_stamp("2019-12-14 23:11:17 "), None);
    assert_eq!(
        weechat().parse_body(" *\thaileda waves"),
        Some(IrcLine::Me {
            nick: "haileda".to_string(),
            line: "waves".to_string()
        })
    );
    assert_eq!(weechat().parse_body("nothing to see"), None);
}

#[test]
fn patterns_of_the_format_compile() {
    assert!(Weechat::new().is_some());
}

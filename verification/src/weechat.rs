//! The log format that WeeChat writes: one file per channel, named
//! `irc.<server>.<channel>.weechatlog`, one event per line, a timestamp and a
//! tab in front of each.
//!
//! The grammar is written down as regular expressions, compiled once and
//! matched by the regex crate; timestamps are read by chrono. What is proved here is
//! everything around those two calls: which rule is asked first, which group
//! becomes which field, and what an absent group turns into.

use vstd::prelude::*;
use crate::line::{IrcLine, LineView, Logger, Meaning, ParseResult};
use crate::model::{ChannelName, Datetime, ServerChannel};
use crate::trusted::{
    captures, compile, parse_datetime, parsed_datetime, regex_captures, Pattern,
};

verus! {

/// A log file's name: a server, which may hold dots, and a channel.
pub const FNAME: &'static str = r"^irc\.(.+)\.(#.+|.+)\.weechatlog$";

/// A line: a timestamp to the second, a tab, and the body.
pub const LINE: &'static str =
    r"^([0-9]{4}\-[0-9]{2}\-[0-9]{2} [0-9]{2}:[0-9]{2}:[0-9]{2})\t(.*)$";

/// The layout of the timestamp in front of each line.
pub const TIMESTAMP: &'static str = "%Y-%m-%d %H:%M:%S";

pub const LOG_NICK_CHANGED: &'static str =
    r#"^--\t[~&@%\+]*(\S+) is now known as [~&@%\+]*(\S+)$"#;

pub const LOG_TOPIC_CHANGED: &'static str =
    r#"^--\t[~&@%\+]*(\S+) has changed topic for \S+ from "(.*?)" to "(.*?)"$"#;

pub const LOG_JOINED: &'static str = r#"^-->\t[~&@%\+]*(\S+) \(.*?\) has joined (#.+)$"#;

pub const LOG_LEFT: &'static str =
    r#"^<--\t[~&@%\+]*(\S+) \(.*?\) has left (#.+?)(?: \("(.*?)"\))?$"#;

pub const LOG_QUIT: &'static str = r#"^<--\t[~&@%\+]*(\S+) \(.*?\) has quit(?: \((.*?)\))?$"#;

pub const LOG_KICKED: &'static str =
    r#"^<--\t[~&@%\+]*(\S+) has kicked [~&@%\+]*(\S+)(?: \((.*?)\))?$"#;

pub const LOG_ME: &'static str = r#"^ \*\t[~&@%\+]*(\S+)(?: (.*))?$"#;

pub const LOG_MESSAGE: &'static str = r#"^[~&@%\+]*([^\s<-]\S*)\t(.*)$"#;

/// The capture groups of one match: entry 0 the whole match, then one entry
/// per group, `None` where a group took no part.
pub type Groups = Seq<Option<Seq<char>>>;

/// Group `i` of a match; a group that the match does not have counts as one
/// that took no part.
pub open spec fn group(groups: Groups, i: int) -> Option<Seq<char>> {
    if 0 <= i < groups.len() {
        groups[i]
    } else {
        None
    }
}

/// Group `i` of a match, or the empty text where it took no part.
pub open spec fn group_or_empty(groups: Groups, i: int) -> Seq<char> {
    match group(groups, i) {
        Some(text) => text,
        None => Seq::empty(),
    }
}

pub open spec fn channel_from_groups(groups: Groups) -> Option<ChannelName> {
    match (group(groups, 1), group(groups, 2)) {
        (Some(server), Some(channel)) => Some(ChannelName { server, channel }),
        _ => None,
    }
}

pub open spec fn joined_event(groups: Groups) -> Option<LineView> {
    match group(groups, 1) {
        Some(nick) => Some(LineView::Joined { nick }),
        None => None,
    }
}

pub open spec fn left_event(groups: Groups) -> Option<LineView> {
    match group(groups, 1) {
        Some(nick) => Some(LineView::Left { nick, reason: group_or_empty(groups, 3) }),
        None => None,
    }
}

pub open spec fn quit_event(groups: Groups) -> Option<LineView> {
    match group(groups, 1) {
        Some(nick) => Some(LineView::Quit { nick, reason: group_or_empty(groups, 2) }),
        None => None,
    }
}

pub open spec fn nick_changed_event(groups: Groups) -> Option<LineView> {
    match (group(groups, 1), group(groups, 2)) {
        (Some(old), Some(new)) => Some(LineView::NickChanged { old, new }),
        _ => None,
    }
}

pub open spec fn topic_changed_event(groups: Groups) -> Option<LineView> {
    match (group(groups, 1), group(groups, 2), group(groups, 3)) {
        (Some(nick), Some(old), Some(new)) => Some(LineView::TopicChanged { nick, old, new }),
        _ => None,
    }
}

pub open spec fn kicked_event(groups: Groups) -> Option<LineView> {
    match (group(groups, 1), group(groups, 2)) {
        (Some(oper_nick), Some(nick)) => Some(
            LineView::Kicked { oper_nick, nick, reason: group_or_empty(groups, 3) },
        ),
        _ => None,
    }
}

pub open spec fn me_event(groups: Groups) -> Option<LineView> {
    match group(groups, 1) {
        Some(nick) => Some(LineView::Me { nick, line: group_or_empty(groups, 2) }),
        None => None,
    }
}

pub open spec fn message_event(groups: Groups) -> Option<LineView> {
    match (group(groups, 1), group(groups, 2)) {
        (Some(nick), Some(line)) => Some(LineView::Message { nick, line }),
        _ => None,
    }
}

/// The event that a line's body stands for. The rules are asked in a fixed
/// order and the first one that matches decides. The rule for ordinary talk
/// accepts the most and comes last.
pub open spec fn body_event(body: Seq<char>) -> Option<LineView> {
    if let Some(groups) = regex_captures(LOG_JOINED@, body) {
        joined_event(groups)
    } else if let Some(groups) = regex_captures(LOG_LEFT@, body) {
        left_event(groups)
    } else if let Some(groups) = regex_captures(LOG_QUIT@, body) {
        quit_event(groups)
    } else if let Some(groups) = regex_captures(LOG_NICK_CHANGED@, body) {
        nick_changed_event(groups)
    } else if let Some(groups) = regex_captures(LOG_TOPIC_CHANGED@, body) {
        topic_changed_event(groups)
    } else if let Some(groups) = regex_captures(LOG_KICKED@, body) {
        kicked_event(groups)
    } else if let Some(groups) = regex_captures(LOG_ME@, body) {
        me_event(groups)
    } else if let Some(groups) = regex_captures(LOG_MESSAGE@, body) {
        message_event(groups)
    } else {
        None
    }
}

/// The instant that a timestamp text names, if chrono accepts it.
pub open spec fn stamp_instant(stamp: Seq<char>) -> Option<Datetime> {
    match parsed_datetime(stamp, TIMESTAMP@) {
        Some((secs, nanos)) => Some(Datetime { secs, nanos }),
        None => None,
    }
}

/// What becomes of a line once its instant and its body's event are known.
pub open spec fn verdict(instant: Option<Datetime>, event: Option<LineView>) -> Meaning {
    match instant {
        None => Meaning::Invalid,
        Some(instant) => match event {
            Some(event) => Meaning::Event(instant, event),
            None => Meaning::Noise,
        },
    }
}

/// The meaning of one line: invalid unless it splits into a timestamp that
/// reads and a body; then the body's event, or noise.
pub open spec fn line_meaning(line: Seq<char>) -> Meaning {
    match regex_captures(LINE@, line) {
        None => Meaning::Invalid,
        Some(groups) => match (group(groups, 1), group(groups, 2)) {
            (Some(stamp), Some(body)) => match stamp_instant(stamp) {
                None => Meaning::Invalid,
                Some(instant) => verdict(Some(instant), body_event(body)),
            },
            _ => Meaning::Invalid,
        },
    }
}

/// The channel that a file name stands for.
pub open spec fn name_channel(name: Seq<char>) -> Option<ChannelName> {
    match regex_captures(FNAME@, name) {
        Some(groups) => channel_from_groups(groups),
        None => None,
    }
}

/// Copies group `i` out of a match.
pub fn group_text(groups: &Vec<Option<String>>, i: usize) -> (r: Option<String>)
    ensures
        r.deep_view() == group(groups.deep_view(), i as int),
{
    if i < groups.len() {
        match &groups[i] {
            Some(text) => Some(text.clone()),
            None => None,
        }
    } else {
        None
    }
}

/// Copies group `i` out of a match, empty where it took no part.
pub fn group_text_or_empty(groups: &Vec<Option<String>>, i: usize) -> (r: String)
    ensures
        r@ == group_or_empty(groups.deep_view(), i as int),
{
    match group_text(groups, i) {
        Some(text) => text,
        None => String::new(),
    }
}

/// The channel named by a match of `FNAME`.
pub fn channel_from(groups: &Vec<Option<String>>) -> (r: Option<ServerChannel>)
    ensures
        r.deep_view() == channel_from_groups(groups.deep_view()),
{
    match (group_text(groups, 1), group_text(groups, 2)) {
        (Some(server), Some(channel)) => Some(ServerChannel { server, channel }),
        _ => None,
    }
}

/// The event in a match of `LOG_JOINED`.
pub fn joined(groups: &Vec<Option<String>>) -> (r: Option<IrcLine>)
    ensures
        r.deep_view() == joined_event(groups.deep_view()),
{
    match group_text(groups, 1) {
        Some(nick) => Some(IrcLine::Joined { nick }),
        None => None,
    }
}

/// The event in a match of `LOG_LEFT`; a leave without a reason has the
/// empty reason.
pub fn left(groups: &Vec<Option<String>>) -> (r: Option<IrcLine>)
    ensures
        r.deep_view() == left_event(groups.deep_view()),
{
    match group_text(groups, 1) {
        Some(nick) => Some(IrcLine::Left { nick, reason: group_text_or_empty(groups, 3) }),
        None => None,
    }
}

/// The event in a match of `LOG_QUIT`; a quit without a reason has the empty
/// reason.
pub fn quit(groups: &Vec<Option<String>>) -> (r: Option<IrcLine>)
    ensures
        r.deep_view() == quit_event(groups.deep_view()),
{
    match group_text(groups, 1) {
        Some(nick) => Some(IrcLine::Quit { nick, reason: group_text_or_empty(groups, 2) }),
        None => None,
    }
}

/// The event in a match of `LOG_NICK_CHANGED`.
pub fn nick_changed(groups: &Vec<Option<String>>) -> (r: Option<IrcLine>)
    ensures
        r.deep_view() == nick_changed_event(groups.deep_view()),
{
    match (group_text(groups, 1), group_text(groups, 2)) {
        (Some(old), Some(new)) => Some(IrcLine::NickChanged { old, new }),
        _ => None,
    }
}

/// The event in a match of `LOG_TOPIC_CHANGED`.
pub fn topic_changed(groups: &Vec<Option<String>>) -> (r: Option<IrcLine>)
    ensures
        r.deep_view() == topic_changed_event(groups.deep_view()),
{
    match (group_text(groups, 1), group_text(groups, 2), group_text(groups, 3)) {
        (Some(nick), Some(old), Some(new)) => Some(IrcLine::TopicChanged { nick, old, new }),
        _ => None,
    }
}

/// The event in a match of `LOG_KICKED`; a kick without a reason has the
/// empty reason.
pub fn kicked(groups: &Vec<Option<String>>) -> (r: Option<IrcLine>)
    ensures
        r.deep_view() == kicked_event(groups.deep_view()),
{
    match (group_text(groups, 1), group_text(groups, 2)) {
        (Some(oper_nick), Some(nick)) => Some(
            IrcLine::Kicked { oper_nick, nick, reason: group_text_or_empty(groups, 3) },
        ),
        _ => None,
    }
}

/// The event in a match of `LOG_ME`; an action without words has the empty
/// line.
pub fn me(groups: &Vec<Option<String>>) -> (r: Option<IrcLine>)
    ensures
        r.deep_view() == me_event(groups.deep_view()),
{
    match group_text(groups, 1) {
        Some(nick) => Some(IrcLine::Me { nick, line: group_text_or_empty(groups, 2) }),
        None => None,
    }
}

/// The event in a match of `LOG_MESSAGE`.
pub fn message(groups: &Vec<Option<String>>) -> (r: Option<IrcLine>)
    ensures
        r.deep_view() == message_event(groups.deep_view()),
{
    match (group_text(groups, 1), group_text(groups, 2)) {
        (Some(nick), Some(line)) => Some(IrcLine::Message { nick, line }),
        _ => None,
    }
}

/// Puts a line's instant and its body's event together.
pub fn conclude(instant: Option<Datetime>, event: Option<IrcLine>) -> (r: ParseResult)
    ensures
        r@ == verdict(instant, event.deep_view()),
{
    match instant {
        None => ParseResult::Invalid,
        Some(instant) => match event {
            Some(event) => ParseResult::Parsed((instant, event)),
            None => ParseResult::Noise,
        },
    }
}

/// Reads the timestamp in front of a line.
pub fn parse_stamp(stamp: &str) -> (r: Option<Datetime>)
    ensures
        r == stamp_instant(stamp@),
{
    match parse_datetime(stamp, TIMESTAMP) {
        Some((secs, nanos)) => Some(Datetime { secs, nanos }),
        None => None,
    }
}

/// The WeeChat log format, with its patterns compiled.
pub struct Weechat {
    fname: Pattern,
    line: Pattern,
    joined: Pattern,
    left: Pattern,
    quit: Pattern,
    nick_changed: Pattern,
    topic_changed: Pattern,
    kicked: Pattern,
    me: Pattern,
    message: Pattern,
}

impl Weechat {
    #[verifier::type_invariant]
    spec fn compiled(self) -> bool {
        &&& self.fname@ == FNAME@
        &&& self.line@ == LINE@
        &&& self.joined@ == LOG_JOINED@
        &&& self.left@ == LOG_LEFT@
        &&& self.quit@ == LOG_QUIT@
        &&& self.nick_changed@ == LOG_NICK_CHANGED@
        &&& self.topic_changed@ == LOG_TOPIC_CHANGED@
        &&& self.kicked@ == LOG_KICKED@
        &&& self.me@ == LOG_ME@
        &&& self.message@ == LOG_MESSAGE@
    }

    /// Compiles the patterns of the format, once for all lines to come.
    /// `None` where the regex crate rejects one of them.
    pub fn new() -> (r: Option<Weechat>) {
        let fname = match compile(FNAME) {
            Some(pattern) => pattern,
            None => return None,
        };
        let line = match compile(LINE) {
            Some(pattern) => pattern,
            None => return None,
        };
        let joined = match compile(LOG_JOINED) {
            Some(pattern) => pattern,
            None => return None,
        };
        let left = match compile(LOG_LEFT) {
            Some(pattern) => pattern,
            None => return None,
        };
        let quit = match compile(LOG_QUIT) {
            Some(pattern) => pattern,
            None => return None,
        };
        let nick_changed = match compile(LOG_NICK_CHANGED) {
            Some(pattern) => pattern,
            None => return None,
        };
        let topic_changed = match compile(LOG_TOPIC_CHANGED) {
            Some(pattern) => pattern,
            None => return None,
        };
        let kicked = match compile(LOG_KICKED) {
            Some(pattern) => pattern,
            None => return None,
        };
        let me = match compile(LOG_ME) {
            Some(pattern) => pattern,
            None => return None,
        };
        let message = match compile(LOG_MESSAGE) {
            Some(pattern) => pattern,
            None => return None,
        };
        Some(
            Weechat {
                fname,
                line,
                joined,
                left,
                quit,
                nick_changed,
                topic_changed,
                kicked,
                me,
                message,
            },
        )
    }

    /// Reads the body of a line, asking the rules in their order.
    pub fn parse_body(&self, body: &str) -> (r: Option<IrcLine>)
        ensures
            r.deep_view() == body_event(body@),
    {
        proof {
            use_type_invariant(self);
        }
        if let Some(groups) = captures(&self.joined, body) {
            joined(&groups)
        } else if let Some(groups) = captures(&self.left, body) {
            left(&groups)
        } else if let Some(groups) = captures(&self.quit, body) {
            quit(&groups)
        } else if let Some(groups) = captures(&self.nick_changed, body) {
            nick_changed(&groups)
        } else if let Some(groups) = captures(&self.topic_changed, body) {
            topic_changed(&groups)
        } else if let Some(groups) = captures(&self.kicked, body) {
            kicked(&groups)
        } else if let Some(groups) = captures(&self.me, body) {
            me(&groups)
        } else if let Some(groups) = captures(&self.message, body) {
            message(&groups)
        } else {
            None
        }
    }
}

impl Logger for Weechat {
    open spec fn channel_of(name: Seq<char>) -> Option<ChannelName> {
        name_channel(name)
    }

    open spec fn meaning(line: Seq<char>) -> Meaning {
        line_meaning(line)
    }

    fn parse_path(&self, name: &str) -> (r: Option<ServerChannel>) {
        proof {
            use_type_invariant(self);
        }
        match captures(&self.fname, name) {
            Some(groups) => channel_from(&groups),
            None => None,
        }
    }

    fn parse_line(&self, line: &str) -> (r: ParseResult) {
        proof {
            use_type_invariant(self);
        }
        let groups = match captures(&self.line, line) {
            Some(groups) => groups,
            None => return ParseResult::Invalid,
        };
        match (group_text(&groups, 1), group_text(&groups, 2)) {
            (Some(stamp), Some(body)) => match parse_stamp(stamp.as_str()) {
                None => ParseResult::Invalid,
                Some(instant) => conclude(Some(instant), self.parse_body(body.as_str())),
            },
            _ => ParseResult::Invalid,
        }
    }
}

} // verus!

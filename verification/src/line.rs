//! What a log line can mean, what a log format has to provide, and how an
//! event becomes a record for the store.

use vstd::prelude::*;
use crate::model::{Datetime, NewMessage, NewMessageView, Opcode, ServerChannel, ChannelName, encoded};

verus! {

/// One event read from a log line.
#[derive(PartialEq, Debug)]
pub enum IrcLine {
    Garbage,
    NickChanged { old: String, new: String },
    TopicChanged { nick: String, old: String, new: String },
    Joined { nick: String },
    Left { nick: String, reason: String },
    Quit { nick: String, reason: String },
    Kicked { oper_nick: String, nick: String, reason: String },
    Me { nick: String, line: String },
    Message { nick: String, line: String },
}

/// What an `IrcLine` is in contracts.
pub enum LineView {
    Garbage,
    NickChanged { old: Seq<char>, new: Seq<char> },
    TopicChanged { nick: Seq<char>, old: Seq<char>, new: Seq<char> },
    Joined { nick: Seq<char> },
    Left { nick: Seq<char>, reason: Seq<char> },
    Quit { nick: Seq<char>, reason: Seq<char> },
    Kicked { oper_nick: Seq<char>, nick: Seq<char>, reason: Seq<char> },
    Me { nick: Seq<char>, line: Seq<char> },
    Message { nick: Seq<char>, line: Seq<char> },
}

impl View for IrcLine {
    type V = LineView;

    open spec fn view(&self) -> LineView {
        match self {
            IrcLine::Garbage => LineView::Garbage,
            IrcLine::NickChanged { old, new } => LineView::NickChanged { old: old@, new: new@ },
            IrcLine::TopicChanged { nick, old, new } => LineView::TopicChanged {
                nick: nick@,
                old: old@,
                new: new@,
            },
            IrcLine::Joined { nick } => LineView::Joined { nick: nick@ },
            IrcLine::Left { nick, reason } => LineView::Left { nick: nick@, reason: reason@ },
            IrcLine::Quit { nick, reason } => LineView::Quit { nick: nick@, reason: reason@ },
            IrcLine::Kicked { oper_nick, nick, reason } => LineView::Kicked {
                oper_nick: oper_nick@,
                nick: nick@,
                reason: reason@,
            },
            IrcLine::Me { nick, line } => LineView::Me { nick: nick@, line: line@ },
            IrcLine::Message { nick, line } => LineView::Message { nick: nick@, line: line@ },
        }
    }
}

impl DeepView for IrcLine {
    type V = LineView;

    open spec fn deep_view(&self) -> LineView {
        self@
    }
}

/// An event and the instant its line was written.
pub type DatedIrcLine = (Datetime, IrcLine);

/// The three outcomes of reading one line.
#[derive(Debug, PartialEq)]
pub enum ParseResult {
    /// The line does not start with a timestamp: the file may be damaged or
    /// in another format.
    Invalid,
    /// The timestamp reads, the rest is no event that is kept.
    Noise,
    /// The timestamp reads and the rest is an event.
    Parsed(DatedIrcLine),
}

/// What a `ParseResult` is in contracts.
pub enum Meaning {
    Invalid,
    Noise,
    Event(Datetime, LineView),
}

impl View for ParseResult {
    type V = Meaning;

    open spec fn view(&self) -> Meaning {
        match self {
            ParseResult::Invalid => Meaning::Invalid,
            ParseResult::Noise => Meaning::Noise,
            ParseResult::Parsed(dated) => Meaning::Event(dated.0, dated.1@),
        }
    }
}

/// A log format: how a file's name gives its channel, and what each of its
/// lines means. Both are functions of the text alone; a value of the format
/// holds only what it needs to read fast.
pub trait Logger {
    /// The channel that a log file of this name belongs to.
    spec fn channel_of(name: Seq<char>) -> Option<ChannelName>;

    /// The meaning of one line, without its line terminator.
    spec fn meaning(line: Seq<char>) -> Meaning;

    /// Reads the channel out of a log file's name, the last component of its
    /// path. `None` for a name that this format does not use.
    fn parse_path(&self, name: &str) -> (r: Option<ServerChannel>)
        ensures
            r.deep_view() == Self::channel_of(name@),
    ;

    /// Reads one line, given without its line terminator.
    fn parse_line(&self, line: &str) -> (r: ParseResult)
        ensures
            r@ == Self::meaning(line@),
    ;
}

/// The record that stands for `line`, said at `timestamp` on `channel`; no
/// record for `Garbage`.
pub open spec fn record_of(line: LineView, channel: ChannelName, timestamp: Datetime) -> Option<
    NewMessageView,
> {
    let blank = NewMessageView {
        channel: Some(encoded(channel)),
        nick: None,
        line: None,
        opcode: None,
        oper_nick: None,
        payload: None,
        timestamp,
    };
    match line {
        LineView::Garbage => None,
        LineView::NickChanged { old, new } => Some(
            NewMessageView {
                nick: Some(old),
                payload: Some(new),
                opcode: Some(Opcode::Nick),
                ..blank
            },
        ),
        LineView::TopicChanged { nick, old, new } => Some(
            NewMessageView {
                nick: Some(nick),
                payload: Some(new),
                opcode: Some(Opcode::Topic),
                ..blank
            },
        ),
        LineView::Joined { nick } => Some(
            NewMessageView { nick: Some(nick), opcode: Some(Opcode::Joined), ..blank },
        ),
        LineView::Left { nick, reason } => Some(
            NewMessageView {
                nick: Some(nick),
                payload: Some(reason),
                opcode: Some(Opcode::Left),
                ..blank
            },
        ),
        LineView::Quit { nick, reason } => Some(
            NewMessageView {
                nick: Some(nick),
                payload: Some(reason),
                opcode: Some(Opcode::Quit),
                ..blank
            },
        ),
        LineView::Kicked { oper_nick, nick, reason } => Some(
            NewMessageView {
                nick: Some(nick),
                oper_nick: Some(oper_nick),
                payload: Some(reason),
                opcode: Some(Opcode::Kicked),
                ..blank
            },
        ),
        LineView::Me { nick, line } => Some(
            NewMessageView { nick: Some(nick), line: Some(line), opcode: Some(Opcode::Me), ..blank },
        ),
        LineView::Message { nick, line } => Some(
            NewMessageView { nick: Some(nick), line: Some(line), ..blank },
        ),
    }
}

/// Turns an event into the record to store. The old topic of a topic change
/// is not kept.
pub fn line_to_new_message(line: IrcLine, sc: &ServerChannel, timestamp: Datetime) -> (r: Option<
    NewMessage,
>)
    ensures
        r.deep_view() == record_of(line@, sc@, timestamp),
{
    let channel = Some(sc.to_string());
    match line {
        IrcLine::NickChanged { old, new } => Some(
            NewMessage {
                channel,
                nick: Some(old),
                line: None,
                opcode: Some(Opcode::Nick),
                oper_nick: None,
                payload: Some(new),
                timestamp,
            },
        ),
        IrcLine::TopicChanged { nick, old: _, new } => Some(
            NewMessage {
                channel,
                nick: Some(nick),
                line: None,
                opcode: Some(Opcode::Topic),
                oper_nick: None,
                payload: Some(new),
                timestamp,
            },
        ),
        IrcLine::Joined { nick } => Some(
            NewMessage {
                channel,
                nick: Some(nick),
                line: None,
                opcode: Some(Opcode::Joined),
                oper_nick: None,
                payload: None,
                timestamp,
            },
        ),
        IrcLine::Left { nick, reason } => Some(
            NewMessage {
                channel,
                nick: Some(nick),
                line: None,
                opcode: Some(Opcode::Left),
                oper_nick: None,
                payload: Some(reason),
                timestamp,
            },
        ),
        IrcLine::Quit { nick, reason } => Some(
            NewMessage {
                channel,
                nick: Some(nick),
                line: None,
                opcode: Some(Opcode::Quit),
                oper_nick: None,
                payload: Some(reason),
                timestamp,
            },
        ),
        IrcLine::Kicked { oper_nick, nick, reason } => Some(
            NewMessage {
                channel,
                nick: Some(nick),
                line: None,
                opcode: Some(Opcode::Kicked),
                oper_nick: Some(oper_nick),
                payload: Some(reason),
                timestamp,
            },
        ),
        IrcLine::Me { nick, line } => Some(
            NewMessage {
                channel,
                nick: Some(nick),
                line: Some(line),
                opcode: Some(Opcode::Me),
                oper_nick: None,
                payload: None,
                timestamp,
            },
        ),
        IrcLine::Message { nick, line } => Some(
            NewMessage {
                channel,
                nick: Some(nick),
                line: Some(line),
                opcode: None,
                oper_nick: None,
                payload: None,
                timestamp,
            },
        ),
        IrcLine::Garbage => None,
    }
}

/// Every record made from an event fills exactly the fields that its opcode
/// calls for.
pub proof fn lemma_record_well_formed(line: LineView, channel: ChannelName, timestamp: Datetime)
    ensures
        record_of(line, channel, timestamp) matches Some(record) ==> record.well_formed(),
        record_of(line, channel, timestamp) is None <==> line is Garbage,
{
}

} // verus!

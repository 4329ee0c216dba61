//! The values that travel between the grammar, the resume search and the store.

use vstd::prelude::*;
use vstd::string::*;
use crate::trusted::split_once;

verus! {

/// An instant in UTC: whole seconds since 1970-01-01 00:00:00 and the
/// nanoseconds past that second. A leap second is written as second 59 with
/// `nanos` of 1_000_000_000 or more.
#[derive(Clone, Copy, Debug, PartialEq, Eq, PartialOrd, Ord, Hash, Structural)]
pub struct Datetime {
    pub secs: i64,
    pub nanos: u32,
}

impl Datetime {
    /// Chronological order: by seconds, then by nanoseconds.
    pub open spec fn earlier_than(self, other: Datetime) -> bool {
        self.secs < other.secs || (self.secs == other.secs && self.nanos < other.nanos)
    }

    pub fn new(secs: i64, nanos: u32) -> (r: Datetime)
        ensures
            r == (Datetime { secs, nanos }),
    {
        Datetime { secs, nanos }
    }

    /// Whether `self` comes strictly before `other`.
    pub fn is_before(&self, other: &Datetime) -> (r: bool)
        ensures
            r == self.earlier_than(*other),
    {
        self.secs < other.secs || (self.secs == other.secs && self.nanos < other.nanos)
    }

    /// Whether `self` comes strictly after `other`.
    pub fn is_after(&self, other: &Datetime) -> (r: bool)
        ensures
            r == other.earlier_than(*self),
    {
        other.is_before(self)
    }
}

/// What a `ServerChannel` is in contracts: its two names as character
/// sequences.
pub struct ChannelName {
    pub server: Seq<char>,
    pub channel: Seq<char>,
}

/// The identity of one conversation: a server and a channel on it.
#[derive(Debug, Hash)]
pub struct ServerChannel {
    pub server: String,
    pub channel: String,
}

impl View for ServerChannel {
    type V = ChannelName;

    open spec fn view(&self) -> ChannelName {
        ChannelName { server: self.server@, channel: self.channel@ }
    }
}

impl DeepView for ServerChannel {
    type V = ChannelName;

    open spec fn deep_view(&self) -> ChannelName {
        self@
    }
}

impl Clone for ServerChannel {
    fn clone(&self) -> (r: ServerChannel)
        ensures
            r@ == self@,
    {
        ServerChannel { server: self.server.clone(), channel: self.channel.clone() }
    }
}

impl PartialEq for ServerChannel {
    fn eq(&self, other: &Self) -> (r: bool) {
        self.server == other.server && self.channel == other.channel
    }
}

impl Eq for ServerChannel {

}

impl vstd::std_specs::cmp::PartialEqSpecImpl for ServerChannel {
    open spec fn obeys_eq_spec() -> bool {
        true
    }

    open spec fn eq_spec(&self, other: &Self) -> bool {
        self.server@ == other.server@ && self.channel@ == other.channel@
    }
}

/// The canonical text of a channel identity: server, a slash, channel.
pub open spec fn encoded(name: ChannelName) -> Seq<char> {
    name.server + seq!['/'] + name.channel
}

impl ServerChannel {
    pub fn new(server: &str, channel: &str) -> (r: ServerChannel)
        ensures
            r@ == (ChannelName { server: server@, channel: channel@ }),
    {
        ServerChannel { server: String::from_str(server), channel: String::from_str(channel) }
    }

    /// The canonical text `<server>/<channel>`.
    pub fn db_encode(&self) -> (r: String)
        ensures
            r@ == encoded(self@),
    {
        let mut out = self.server.clone();
        out.append("/");
        out.append(self.channel.as_str());
        proof {
            reveal_strlit("/");
            assert("/"@ =~= seq!['/']);
        }
        out
    }

    /// The same text as `db_encode`, under the name that callers of a
    /// formatter expect.
    pub fn to_string(&self) -> (r: String)
        ensures
            r@ == encoded(self@),
    {
        self.db_encode()
    }

    /// Reads a canonical text back: everything before the first slash is the
    /// server, everything after it the channel. A text without a slash names
    /// no channel.
    pub fn db_decode(text: &str) -> (r: Option<ServerChannel>)
        ensures
            r.deep_view() == decoded(text@),
    {
        match split_once(text, '/') {
            None => {
                proof {
                    text@.index_of_first_ensures('/');
                }
                None
            },
            Some((server, channel)) => {
                let sc = ServerChannel::new(server, channel);
                proof {
                    lemma_decoded_at(server@, channel@);
                }
                Some(sc)
            },
        }
    }
}

/// A text that names no channel: it holds no slash.
#[derive(Clone, Copy, Debug, PartialEq, Eq, Structural)]
pub struct InvalidChannel;

impl core::str::FromStr for ServerChannel {
    type Err = InvalidChannel;

    /// Reads a canonical text, as `db_decode` does.
    fn from_str(text: &str) -> (r: Result<ServerChannel, InvalidChannel>)
        ensures
            match decoded(text@) {
                Some(name) => r matches Ok(sc) && sc@ == name,
                None => r is Err,
            },
    {
        match ServerChannel::db_decode(text) {
            Some(sc) => Ok(sc),
            None => Err(InvalidChannel),
        }
    }
}

/// What `text` names when read as `<server>/<channel>`, split at its first
/// slash.
pub open spec fn decoded(text: Seq<char>) -> Option<ChannelName> {
    match text.index_of_first('/') {
        Some(at) => Some(ChannelName { server: text.take(at), channel: text.skip(at + 1) }),
        None => None,
    }
}

/// A text put together from a slash-free head, a slash and a tail decodes to
/// that head and that tail.
pub proof fn lemma_decoded_at(head: Seq<char>, tail: Seq<char>)
    requires
        !head.contains('/'),
    ensures
        decoded(head + seq!['/'] + tail) == Some(ChannelName { server: head, channel: tail }),
{
    let text = head + seq!['/'] + tail;
    assert(text[head.len() as int] == '/');
    text.index_of_first_ensures('/');
    let at = text.index_of_first('/').unwrap();
    if at < head.len() {
        assert(head[at] == text[at]);
        assert(head.contains('/'));
    }
    assert(text.take(at) =~= head);
    assert(text.skip(at + 1) =~= tail);
}

/// Encoding a channel identity and decoding the text gives the identity
/// back, as long as the server name holds no slash.
pub proof fn lemma_decode_encode(name: ChannelName)
    requires
        !name.server.contains('/'),
    ensures
        decoded(encoded(name)) == Some(name),
{
    lemma_decoded_at(name.server, name.channel);
}

/// Which kind of event a stored record stands for. A record without an
/// opcode is ordinary talk.
#[derive(Clone, Copy, Debug, PartialEq, Eq, Hash, Structural)]
pub enum Opcode {
    Me,
    Joined,
    Left,
    Quit,
    Kicked,
    Topic,
    Nick,
}

impl Opcode {
    /// The word under which the store keeps this opcode.
    pub open spec fn name(self) -> Seq<char> {
        match self {
            Opcode::Me => "me"@,
            Opcode::Joined => "joined"@,
            Opcode::Left => "left"@,
            Opcode::Quit => "quit"@,
            Opcode::Kicked => "kicked"@,
            Opcode::Topic => "topic"@,
            Opcode::Nick => "nick"@,
        }
    }

    /// The opcode that a stored word stands for, if any.
    pub open spec fn named(word: Seq<char>) -> Option<Opcode> {
        if word == "me"@ {
            Some(Opcode::Me)
        } else if word == "joined"@ {
            Some(Opcode::Joined)
        } else if word == "left"@ {
            Some(Opcode::Left)
        } else if word == "quit"@ {
            Some(Opcode::Quit)
        } else if word == "kicked"@ {
            Some(Opcode::Kicked)
        } else if word == "topic"@ {
            Some(Opcode::Topic)
        } else if word == "nick"@ {
            Some(Opcode::Nick)
        } else {
            None
        }
    }

    pub fn as_str(&self) -> (r: &'static str)
        ensures
            r@ == self.name(),
    {
        match self {
            Opcode::Me => "me",
            Opcode::Joined => "joined",
            Opcode::Left => "left",
            Opcode::Quit => "quit",
            Opcode::Kicked => "kicked",
            Opcode::Topic => "topic",
            Opcode::Nick => "nick",
        }
    }

    /// Reads a stored word back into an opcode.
    pub fn from_name(word: &str) -> (r: Option<Opcode>)
        ensures
            r == Opcode::named(word@),
    {
        let word = String::from_str(word);
        if word == String::from_str("me") {
            Some(Opcode::Me)
        } else if word == String::from_str("joined") {
            Some(Opcode::Joined)
        } else if word == String::from_str("left") {
            Some(Opcode::Left)
        } else if word == String::from_str("quit") {
            Some(Opcode::Quit)
        } else if word == String::from_str("kicked") {
            Some(Opcode::Kicked)
        } else if word == String::from_str("topic") {
            Some(Opcode::Topic)
        } else if word == String::from_str("nick") {
            Some(Opcode::Nick)
        } else {
            None
        }
    }
}

/// Every opcode is found again under its own word.
pub proof fn lemma_opcode_named(op: Opcode)
    ensures
        Opcode::named(op.name()) == Some(op),
{
    reveal_strlit("me");
    reveal_strlit("joined");
    reveal_strlit("left");
    reveal_strlit("quit");
    reveal_strlit("kicked");
    reveal_strlit("topic");
    reveal_strlit("nick");
    assert("me"@.len() == 2 && "joined"@.len() == 6 && "left"@.len() == 4 && "quit"@.len() == 4
        && "kicked"@.len() == 6 && "topic"@.len() == 5 && "nick"@.len() == 4);
    assert("joined"@[0] == 'j' && "kicked"@[0] == 'k');
    assert("left"@[0] == 'l' && "quit"@[0] == 'q' && "nick"@[0] == 'n');
}

/// What a `NewMessage` is in contracts.
pub struct NewMessageView {
    pub channel: Option<Seq<char>>,
    pub nick: Option<Seq<char>>,
    pub line: Option<Seq<char>>,
    pub opcode: Option<Opcode>,
    pub oper_nick: Option<Seq<char>>,
    pub payload: Option<Seq<char>>,
    pub timestamp: Datetime,
}

impl NewMessageView {
    /// The fields that a record fills are fixed by its opcode: every record
    /// names its channel and a nick; talk and actions carry a line; a leave, a
    /// quit, a kick, a topic and a nick change carry a payload; only a kick
    /// names an operator.
    pub open spec fn well_formed(self) -> bool {
        &&& self.channel is Some
        &&& self.nick is Some
        &&& self.line is Some <==> (self.opcode is None || self.opcode == Some(Opcode::Me))
        &&& self.payload is Some <==> (self.opcode == Some(Opcode::Left) || self.opcode == Some(
            Opcode::Quit,
        ) || self.opcode == Some(Opcode::Kicked) || self.opcode == Some(Opcode::Topic)
            || self.opcode == Some(Opcode::Nick))
        &&& self.oper_nick is Some <==> self.opcode == Some(Opcode::Kicked)
    }
}

/// A record on its way to the store, which will give it an id.
#[derive(Debug, PartialEq)]
pub struct NewMessage {
    pub channel: Option<String>,
    pub nick: Option<String>,
    pub line: Option<String>,
    pub opcode: Option<Opcode>,
    pub oper_nick: Option<String>,
    pub payload: Option<String>,
    pub timestamp: Datetime,
}

impl View for NewMessage {
    type V = NewMessageView;

    open spec fn view(&self) -> NewMessageView {
        NewMessageView {
            channel: self.channel.deep_view(),
            nick: self.nick.deep_view(),
            line: self.line.deep_view(),
            opcode: self.opcode,
            oper_nick: self.oper_nick.deep_view(),
            payload: self.payload.deep_view(),
            timestamp: self.timestamp,
        }
    }
}

impl DeepView for NewMessage {
    type V = NewMessageView;

    open spec fn deep_view(&self) -> NewMessageView {
        self@
    }
}

/// A record as the store hands it back.
#[derive(Debug, PartialEq)]
pub struct Message {
    pub id: i32,
    pub channel: Option<String>,
    pub nick: Option<String>,
    pub line: Option<String>,
    pub opcode: Option<Opcode>,
    pub oper_nick: Option<String>,
    pub payload: Option<String>,
    pub timestamp: Datetime,
}

impl Message {
    /// Ordinary talk: no opcode, and a nick that is not empty.
    pub open spec fn talk(&self) -> bool {
        self.opcode is None && self.nick is Some && self.nick->0@.len() > 0
    }

    pub fn is_talk(&self) -> (r: bool)
        ensures
            r == self.talk(),
    {
        match (&self.opcode, &self.nick) {
            (None, Some(nick)) => !nick.as_str().is_empty(),
            _ => false,
        }
    }

    /// An action, told in the third person.
    pub fn is_me_tell(&self) -> (r: bool)
        ensures
            r == (self.opcode == Some(Opcode::Me)),
    {
        match self.opcode {
            Some(Opcode::Me) => true,
            _ => false,
        }
    }

    /// The channel this record belongs to, read back from its stored text.
    pub fn sc(&self) -> (r: Option<ServerChannel>)
        ensures
            r.deep_view() == match self.channel {
                Some(text) => decoded(text@),
                None => None,
            },
    {
        match &self.channel {
            Some(text) => ServerChannel::db_decode(text.as_str()),
            None => None,
        }
    }
}

} // verus!

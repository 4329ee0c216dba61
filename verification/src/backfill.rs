//! Backfill: everything a log file holds past the resume point, as records
//! for the store, and the bookkeeping of the batches in which they go there.

use vstd::prelude::*;
use crate::line::{
    lemma_record_well_formed, line_to_new_message, record_of, Logger, Meaning, ParseResult,
};
use crate::model::{ChannelName, Datetime, NewMessage, NewMessageView, ServerChannel};
use crate::read::{
    find_line_end, lemma_line_end, lemma_line_end_in_head, lemma_line_end_in_tail, line_end,
    line_start, line_text, trim, LogReader, LINE_FEED,
};
use crate::seek::{locate, resume_point, Hit};
use crate::steps::{
    coming, faithful, left, less_left, of_size, outcome, pending, within, Ask, Pending, Search,
    SearchView,
};
use crate::seek_lemmas::{ends_run, lemma_search_finds_end_of_run, orderly};

verus! {

/// The record that one line of a log gives: none where the line is no valid
/// UTF-8, no event, or an event that is not kept.
pub open spec fn line_record<L: Logger>(line: Seq<u8>, channel: ChannelName) -> Option<
    NewMessageView,
> {
    match line_text(line) {
        Some(text) => match L::meaning(text) {
            Meaning::Event(instant, event) => record_of(event, channel, instant),
            _ => None,
        },
        None => None,
    }
}

/// The records of the lines of `data` from position `from` to its end, in
/// the order of the lines. A last line without a line feed counts as a line.
pub open spec fn records_from<L: Logger>(data: Seq<u8>, from: int, channel: ChannelName) -> Seq<
    NewMessageView,
>
    decreases data.len() - from,
{
    if from < 0 || from >= data.len() {
        Seq::empty()
    } else {
        let stop = line_end(data, from);
        proof {
            lemma_line_end(data, from);
        }
        let rest = records_from::<L>(data, stop, channel);
        match line_record::<L>(data.subrange(from, stop), channel) {
            Some(record) => seq![record] + rest,
            None => rest,
        }
    }
}

/// The records of the second of two stretches do not depend on the first.
pub proof fn lemma_records_of_tail<L: Logger>(
    head: Seq<u8>,
    tail: Seq<u8>,
    from: int,
    channel: ChannelName,
)
    requires
        0 <= from <= tail.len(),
    ensures
        records_from::<L>(head + tail, head.len() + from, channel) == records_from::<L>(
            tail,
            from,
            channel,
        ),
    decreases tail.len() - from,
{
    if from < tail.len() {
        lemma_line_end(tail, from);
        lemma_line_end_in_tail(head, tail, from);
        lemma_records_of_tail::<L>(head, tail, line_end(tail, from), channel);
    }
}

/// The records of two stretches put together, where the first is empty or
/// ends in a line feed, are the records of the first and then those of the
/// second.
pub proof fn lemma_records_of_two<L: Logger>(
    head: Seq<u8>,
    tail: Seq<u8>,
    from: int,
    channel: ChannelName,
)
    requires
        0 <= from <= head.len(),
        head.len() > 0 ==> head.last() == LINE_FEED,
    ensures
        records_from::<L>(head + tail, from, channel) == records_from::<L>(head, from, channel)
            + records_from::<L>(tail, 0, channel),
    decreases head.len() - from,
{
    if from < head.len() {
        lemma_line_end(head, from);
        lemma_line_end_in_head(head, tail, from);
        let stop = line_end(head, from);
        lemma_records_of_two::<L>(head, tail, stop, channel);
        let rest = records_from::<L>(head, stop, channel);
        let more = records_from::<L>(tail, 0, channel);
        match line_record::<L>(head.subrange(from, stop), channel) {
            Some(record) => {
                assert(seq![record] + (rest + more) =~= (seq![record] + rest) + more);
            },
            None => {},
        }
    } else {
        lemma_records_of_tail::<L>(head, tail, 0, channel);
        assert(records_from::<L>(head, from, channel) + records_from::<L>(tail, 0, channel)
            =~= records_from::<L>(tail, 0, channel));
    }
}

/// Every record read from a file fills exactly the fields that its opcode
/// calls for.
pub proof fn lemma_records_well_formed<L: Logger>(data: Seq<u8>, from: int, channel: ChannelName)
    ensures
        forall|i: int|
            0 <= i < records_from::<L>(data, from, channel).len() ==> (#[trigger] records_from::<L>(
                data,
                from,
                channel,
            )[i]).well_formed(),
    decreases data.len() - from,
{
    if 0 <= from < data.len() {
        let stop = line_end(data, from);
        lemma_line_end(data, from);
        lemma_records_well_formed::<L>(data, stop, channel);
        let rest = records_from::<L>(data, stop, channel);
        let line = data.subrange(from, stop);
        if let Some(text) = line_text(line) {
            if let Meaning::Event(instant, event) = L::meaning(text) {
                lemma_record_well_formed(event, channel, instant);
            }
        }
        let all = records_from::<L>(data, from, channel);
        assert forall|i: int| 0 <= i < all.len() implies (#[trigger] all[i]).well_formed() by {
            if line_record::<L>(line, channel) is Some {
                if i > 0 {
                    assert(all[i] == rest[i - 1]);
                }
            } else {
                assert(all[i] == rest[i]);
            }
        }
    }
}

/// Reads the line of `data` from `from` to `stop` and makes its record.
pub fn read_record<L: Logger>(
    logger: &L,
    data: &[u8],
    from: usize,
    stop: usize,
    sc: &ServerChannel,
) -> (r: Option<NewMessage>)
    requires
        from <= stop <= data.len(),
    ensures
        r.deep_view() == line_record::<L>(data@.subrange(from as int, stop as int), sc@),
{
    match trim(data, from, stop) {
        Some(text) => match logger.parse_line(text) {
            ParseResult::Parsed(dated) => line_to_new_message(dated.1, sc, dated.0),
            _ => None,
        },
        None => None,
    }
}

/// Reads every line of `data` from `from` on and collects the records.
pub fn read_records<L: Logger>(logger: &L, data: &[u8], from: usize, sc: &ServerChannel) -> (r:
    Vec<NewMessage>)
    requires
        from <= data.len(),
    ensures
        r.deep_view() == records_from::<L>(data@, from as int, sc@),
{
    let mut out: Vec<NewMessage> = Vec::new();
    let mut at: usize = from;
    while at < data.len()
        invariant
            from <= at <= data.len(),
            out.deep_view() + records_from::<L>(data@, at as int, sc@) == records_from::<L>(
                data@,
                from as int,
                sc@,
            ),
        decreases data.len() - at,
    {
        let stop = find_line_end(data, at);
        let ghost before = out.deep_view();
        match read_record(logger, data, at, stop, sc) {
            Some(record) => {
                out.push(record);
                proof {
                    assert(out.deep_view() =~= before + seq![record@]);
                    assert((before + seq![record@]) + records_from::<L>(data@, stop as int, sc@)
                        =~= before + (seq![record@] + records_from::<L>(
                        data@,
                        stop as int,
                        sc@,
                    )));
                }
            },
            None => {},
        }
        at = stop;
    }
    proof {
        assert(out.deep_view() + Seq::<NewMessageView>::empty() =~= out.deep_view());
    }
    out
}

/// The one thing that can keep a file from being read.
#[derive(Clone, Copy, Debug, PartialEq, Eq, Structural)]
pub enum BackfillError {
    /// The file's name is not one that the log format uses.
    InvalidFilename,
}

impl BackfillError {
    pub fn message(&self) -> (r: &'static str)
        ensures
            r@ == "not a valid filename"@,
    {
        "not a valid filename"
    }
}

/// What one file gave.
#[derive(Debug, PartialEq)]
pub struct Backfilled {
    /// The channel that the file belongs to.
    pub sc: ServerChannel,
    /// The instant of the line after which reading went on, where the file
    /// holds the store's last record.
    pub resumed_after: Option<Datetime>,
    /// The records to store, in the order of their lines.
    pub messages: Vec<NewMessage>,
}

/// The line to resume after: the one that the resume search finds for the
/// store's last instant, where the store has one.
pub open spec fn resume_hit<L: Logger>(data: Seq<u8>, last: Option<Datetime>) -> Option<Hit> {
    match last {
        Some(needle) => resume_point::<L>(data, needle),
        None => None,
    }
}

/// Where reading starts: past the line to resume after, or at the start of
/// the file where there is none.
pub open spec fn resume_offset<L: Logger>(data: Seq<u8>, last: Option<Datetime>) -> int {
    match resume_hit::<L>(data, last) {
        Some(hit) => hit.next,
        None => 0,
    }
}

/// Past a position after which no line gives a record, a file gives no
/// records.
proof fn lemma_no_events_no_records<L: Logger>(data: Seq<u8>, from: int, channel: ChannelName)
    requires
        0 <= from <= data.len(),
        from < data.len() ==> line_start(data, from),
        forall|q: int| #[trigger] line_start(data, q) && from <= q ==> record_at::<L>(data, q, channel) is None,
    ensures
        records_from::<L>(data, from, channel) == Seq::<NewMessageView>::empty(),
    decreases data.len() - from,
{
    if from < data.len() {
        lemma_line_end(data, from);
        let stop = line_end(data, from);
        assert(record_at::<L>(data, from, channel) is None);
        lemma_no_events_no_records::<L>(data, stop, channel);
    }
}

/// The record that the line at `at` gives.
pub open spec fn record_at<L: Logger>(data: Seq<u8>, at: int, channel: ChannelName) -> Option<
    NewMessageView,
> {
    line_record::<L>(data.subrange(at, line_end(data, at)), channel)
}

/// Backfill over an orderly log whose last record the store already holds
/// gives no records: nothing is stored twice.
pub proof fn lemma_stored_log_gives_nothing<L: Logger>(
    data: Seq<u8>,
    stored: Datetime,
    last: int,
    channel: ChannelName,
)
    requires
        orderly::<L>(data),
        ends_run::<L>(data, stored, last),
        forall|q: int| #[trigger] line_start(data, q) && last < q ==> record_at::<L>(data, q, channel) is None,
    ensures
        resume_hit::<L>(data, Some(stored)) is Some,
        records_from::<L>(data, resume_offset::<L>(data, Some(stored)), channel) == Seq::<
            NewMessageView,
        >::empty(),
{
    lemma_search_finds_end_of_run::<L>(data, stored, last);
    lemma_line_end(data, last);
    lemma_no_events_no_records::<L>(data, line_end(data, last), channel);
}

/// Reads what a log file holds that the store does not have yet.
///
/// `name` is the file's name and `reader` its content; `last` is the instant
/// of the last record that the store holds for the file's channel. With
/// `enabled` switched off nothing is read. Either way the reader ends up at
/// the end of the file, where tailing takes over.
///
/// Where the store has a last instant and the file does not hold it, the
/// file is read from its start, as for an empty store. `resumed_after` is
/// `None` then: it is the caller's to keep records from being stored twice.
pub fn backfill<L: Logger>(
    logger: &L,
    name: &str,
    reader: &mut LogReader,
    enabled: bool,
    last: Option<Datetime>,
) -> (r: Result<Backfilled, BackfillError>)
    ensures
        final(reader).content() == old(reader).content(),
        match L::channel_of(name@) {
            None => r == Err::<Backfilled, BackfillError>(BackfillError::InvalidFilename)
                && final(reader).cursor() == old(reader).cursor(),
            Some(channel) => r matches Ok(done) && done.sc@ == channel && final(reader).cursor()
                == old(reader).content().len() && if enabled {
                let data = old(reader).content();
                &&& done.resumed_after == match resume_hit::<L>(data, last) {
                    Some(hit) => Some(hit.instant),
                    None => None,
                }
                &&& done.messages.deep_view() == records_from::<L>(
                    data,
                    resume_offset::<L>(data, last),
                    channel,
                )
            } else {
                done.resumed_after is None && done.messages@.len() == 0
            },
        },
{
    let sc = match logger.parse_path(name) {
        Some(sc) => sc,
        None => {
            return Err(BackfillError::InvalidFilename);
        },
    };
    if !enabled {
        reader.seek_end();
        return Ok(Backfilled { sc, resumed_after: None, messages: Vec::new() });
    }
    let found = match last {
        Some(needle) => locate(logger, reader.bytes(), &needle),
        None => None,
    };
    let (resumed_after, from) = match found {
        Some((dated, next)) => (Some(dated.0), next),
        None => (None, 0),
    };
    let messages = read_records(logger, reader.bytes(), from, &sc);
    reader.seek_end();
    Ok(Backfilled { sc, resumed_after, messages })
}

/// What a backfill comes to once the resume search has come to `found`:
/// the instant resumed after, and the records of the lines past that
/// line, or of the whole file where nothing was found.
pub open spec fn after_search<L: Logger>(found: Option<Hit>, data: Seq<u8>, channel: ChannelName) -> (
    Option<Datetime>,
    Seq<NewMessageView>,
) {
    match found {
        Some(hit) => (Some(hit.instant), records_from::<L>(data, hit.next, channel)),
        None => (None, records_from::<L>(data, 0, channel)),
    }
}

/// What a backfill in steps waits for.
pub enum BackfillStage {
    /// The resume search is under way.
    Searching { search: SearchView },
    /// The search is over; the bytes from `from` on are wanted.
    Rest { resumed_after: Option<Datetime>, from: int },
    /// Nothing: the backfill is over.
    Over,
}

/// What a `Backfill` is in contracts.
pub struct BackfillView {
    pub channel: ChannelName,
    /// The length of the file.
    pub size: int,
    pub stage: BackfillStage,
}

/// The bytes that the backfill in `state` asks for.
pub open spec fn fetching(state: BackfillView) -> Pending {
    match state.stage {
        BackfillStage::Searching { search } => pending(search),
        BackfillStage::Rest { resumed_after, from } => Pending::Tail(from),
        BackfillStage::Over => Pending::Nothing,
    }
}

/// `answer` is what the file `data` holds where the backfill in `state`
/// asks.
pub open spec fn answers(state: BackfillView, data: Seq<u8>, answer: Seq<u8>) -> bool {
    &&& data.len() == state.size
    &&& answer == match fetching(state) {
        Pending::Line(at) => data.subrange(at, line_end(data, at)),
        Pending::Tail(from) => data.subrange(from, data.len() as int),
        Pending::Nothing => Seq::empty(),
    }
}

/// What the backfill in `state` will come to on the file `data`.
pub open spec fn backfill_outcome<L: Logger>(state: BackfillView, data: Seq<u8>) -> (
    Option<Datetime>,
    Seq<NewMessageView>,
) {
    match state.stage {
        BackfillStage::Searching { search } => after_search::<L>(
            outcome::<L>(search, data),
            data,
            state.channel,
        ),
        BackfillStage::Rest { resumed_after, from } => (
            resumed_after,
            records_from::<L>(data, from, state.channel),
        ),
        BackfillStage::Over => (None, Seq::empty()),
    }
}

/// How far the backfill in `state` has come: 2 while it searches, 1 while
/// it waits for the rest of the file, 0 when it is over.
pub open spec fn backfill_rank(state: BackfillView) -> int {
    match state.stage {
        BackfillStage::Searching { search } => 2,
        BackfillStage::Rest { resumed_after, from } => 1,
        BackfillStage::Over => 0,
    }
}

/// Both stages are in the resume search, and less is left of it in `after`.
pub open spec fn searching_on(before: BackfillStage, after: BackfillStage) -> bool {
    match (before, after) {
        (
            BackfillStage::Searching { search: before },
            BackfillStage::Searching { search: after },
        ) => less_left(left(after), left(before)),
        _ => false,
    }
}

/// What a step of a backfill asks of the file, or what the backfill gave.
#[derive(Debug, PartialEq)]
pub enum Fetch {
    /// The line that begins at this position: the bytes from there up to and
    /// with the next line feed, or to the end of the file.
    Line(usize),
    /// The bytes from this position to the end of the file.
    Tail(usize),
    /// The backfill is over.
    Done(Backfilled),
}

impl Fetch {
    /// The bytes asked for.
    pub open spec fn wanted(&self) -> Pending {
        match self {
            Fetch::Line(at) => Pending::Line(*at as int),
            Fetch::Tail(from) => Pending::Tail(*from as int),
            Fetch::Done(_) => Pending::Nothing,
        }
    }
}

/// What a backfill has come to after a step: what it gave where it is over,
/// and else what it will come to.
pub open spec fn backfill_coming<L: Logger>(state: BackfillView, fetch: Fetch, data: Seq<u8>) -> (
    Option<Datetime>,
    Seq<NewMessageView>,
) {
    match fetch {
        Fetch::Done(done) => (done.resumed_after, done.messages.deep_view()),
        _ => backfill_outcome::<L>(state, data),
    }
}

enum Stage {
    Searching { search: Search },
    Rest { resumed_after: Option<Datetime>, from: usize },
    Over,
}

/// A backfill of a file that is read from disk as the backfill goes: each
/// step says which bytes it wants next, and takes them with the step after.
/// It gives what `backfill` gives for the same file in memory. `begin`
/// gives the first thing to fetch; every answer goes to `step`, which gives
/// the next, until it says `Done`. The file is then read to the end it had
/// when the backfill began, and tailing takes over from there.
pub struct Backfill {
    sc: ServerChannel,
    size: usize,
    stage: Stage,
}

impl View for Backfill {
    type V = BackfillView;

    closed spec fn view(&self) -> BackfillView {
        BackfillView {
            channel: self.sc@,
            size: self.size as int,
            stage: match self.stage {
                Stage::Searching { search } => BackfillStage::Searching { search: search@ },
                Stage::Rest { resumed_after, from } => BackfillStage::Rest {
                    resumed_after,
                    from: from as int,
                },
                Stage::Over => BackfillStage::Over,
            },
        }
    }
}

impl Backfill {
    #[verifier::type_invariant]
    spec fn sound(self) -> bool {
        match self.stage {
            Stage::Searching { search } => search@.size == self.size,
            Stage::Rest { resumed_after, from } => from <= self.size,
            Stage::Over => true,
        }
    }

    /// What follows a step of the resume search.
    fn follow<L: Logger>(sc: ServerChannel, size: usize, search: Search, ask: Ask) -> (r: (
        Backfill,
        Fetch,
    ))
        requires
            search@.size == size,
            ask.wanted() == pending(search@),
            within(ask.wanted(), size as int),
            ask matches Ask::Done(Some(found)) ==> found.1 <= size,
        ensures
            r.1.wanted() == fetching(r.0@),
            within(r.1.wanted(), size as int),
            !(r.1 is Done),
            r.0@.channel == sc@ && r.0@.size == size,
            r.0@.stage == match ask {
                Ask::Done(found) => BackfillStage::Rest {
                    resumed_after: match found {
                        Some(found) => Some(found.0.0),
                        None => None,
                    },
                    from: match found {
                        Some(found) => found.1 as int,
                        None => 0,
                    },
                },
                _ => BackfillStage::Searching { search: search@ },
            },
    {
        match ask {
            Ask::Line(at) => (
                Backfill { sc, size, stage: Stage::Searching { search } },
                Fetch::Line(at),
            ),
            Ask::Tail(from) => (
                Backfill { sc, size, stage: Stage::Searching { search } },
                Fetch::Tail(from),
            ),
            Ask::Done(found) => {
                let (resumed_after, from) = match found {
                    Some((dated, next)) => (Some(dated.0), next),
                    None => (None, 0),
                };
                (
                    Backfill { sc, size, stage: Stage::Rest { resumed_after, from } },
                    Fetch::Tail(from),
                )
            },
        }
    }

    /// Begins the backfill of the file `name` of `size` bytes; `enabled`
    /// and `last` are as for `backfill`.
    pub fn begin<L: Logger>(
        logger: &L,
        name: &str,
        size: usize,
        enabled: bool,
        last: Option<Datetime>,
    ) -> (r: Result<(Backfill, Fetch), BackfillError>)
        ensures
            match L::channel_of(name@) {
                None => r is Err,
                Some(channel) => r matches Ok(begun) && begun.1.wanted() == fetching(begun.0@)
                    && within(begun.1.wanted(), size as int)
                    && begun.0@.channel == channel && begun.0@.size == size && (begun.1 matches Fetch::Done(
                    done,
                ) ==> done.sc@ == channel) && forall|data: Seq<u8>| #[trigger]
                    of_size(data, size as int) ==> backfill_coming::<L>(begun.0@, begun.1, data)
                        == if enabled {
                        after_search::<L>(resume_hit::<L>(data, last), data, channel)
                    } else {
                        (None::<Datetime>, Seq::<NewMessageView>::empty())
                    },
            },
    {
        let sc = match logger.parse_path(name) {
            Some(sc) => sc,
            None => {
                return Err(BackfillError::InvalidFilename);
            },
        };
        if !enabled {
            let done = Backfilled { sc: sc.clone(), resumed_after: None, messages: Vec::new() };
            proof {
                assert(done.messages.deep_view() =~= Seq::<NewMessageView>::empty());
            }
            return Ok((Backfill { sc, size, stage: Stage::Over }, Fetch::Done(done)));
        }
        match last {
            None => Ok(
                (
                    Backfill { sc, size, stage: Stage::Rest { resumed_after: None, from: 0 } },
                    Fetch::Tail(0),
                ),
            ),
            Some(needle) => {
                let (search, ask) = Search::begin::<L>(size, needle);
                Ok(Backfill::follow::<L>(sc, size, search, ask))
            },
        }
    }

    /// Takes the bytes that the step before asked for and says what is
    /// wanted next. Where `answer` is what the file holds there, the
    /// backfill comes to what it would have come to before the step.
    pub fn step<L: Logger>(&mut self, logger: &L, answer: &[u8]) -> (fetch: Fetch)
        ensures
            fetch.wanted() == fetching(final(self)@),
            within(fetch.wanted(), final(self)@.size),
            final(self)@.channel == old(self)@.channel && final(self)@.size == old(self)@.size,
            fetch matches Fetch::Done(done) ==> done.sc@ == old(self)@.channel,
            !(fetch is Done) ==> backfill_rank(final(self)@) < backfill_rank(old(self)@)
                || searching_on(old(self)@.stage, final(self)@.stage),
            forall|data: Seq<u8>| #[trigger]
                answers(old(self)@, data, answer@) ==> backfill_coming::<L>(
                    final(self)@,
                    fetch,
                    data,
                ) == backfill_outcome::<L>(old(self)@, data),
    {
        proof {
            use_type_invariant(&*self);
        }
        let ghost before = self@;
        let size = self.size;
        let sc = self.sc.clone();
        let mut stage = Stage::Over;
        core::mem::swap(&mut self.stage, &mut stage);
        let next = match stage {
            Stage::Over => {
                let done = Backfilled { sc: sc.clone(), resumed_after: None, messages: Vec::new() };
                proof {
                    assert(done.messages.deep_view() =~= Seq::<NewMessageView>::empty());
                }
                (Backfill { sc, size, stage: Stage::Over }, Fetch::Done(done))
            },
            Stage::Rest { resumed_after, from } => {
                let messages = read_records(logger, answer, 0, &sc);
                proof {
                    assert forall|data: Seq<u8>| #[trigger]
                        answers(before, data, answer@) implies messages.deep_view()
                        == records_from::<L>(data, from as int, before.channel) by {
                        assert(data =~= data.take(from as int) + answer@);
                        lemma_records_of_tail::<L>(data.take(from as int), answer@, 0, sc@);
                    }
                }
                let done = Backfilled { sc: sc.clone(), resumed_after, messages };
                (Backfill { sc, size, stage: Stage::Over }, Fetch::Done(done))
            },
            Stage::Searching { search } => {
                let mut search = search;
                let ghost was = search@;
                let ask = search.step(logger, answer);
                let ghost now = search@;
                let ghost asked = ask;
                let r = Backfill::follow::<L>(sc, size, search, ask);
                proof {
                    assert forall|data: Seq<u8>| #[trigger]
                        answers(before, data, answer@) implies backfill_coming::<L>(
                        r.0@,
                        r.1,
                        data,
                    ) == backfill_outcome::<L>(before, data) by {
                        assert(faithful(was, data, answer@));
                        assert(coming::<L>(now, asked, data) == outcome::<L>(was, data));
                    }
                }
                r
            },
        };
        let (state, fetch) = next;
        *self = state;
        fetch
    }
}

} // verus!

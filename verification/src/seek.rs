//! The resume search: where in a log file a run of the program left off.
//!
//! The store knows the instant of the last record it holds for a channel.
//! The lines of a log come in the order of their instants, so the line with
//! that instant is found by bisection over byte positions: look at the first
//! event at or after the middle, and go left or right of it.

use vstd::prelude::*;
use vstd::slice::slice_subrange;
use crate::line::{DatedIrcLine, LineView, Logger, Meaning, ParseResult};
use crate::model::Datetime;
use crate::read::{
    find_last_line_feed, find_line_end, last_record, last_start,
    lemma_last_line_feed, lemma_last_line_feed_of_two, lemma_line_end, line_end, bare, bare_text,
    LogReader, LINE_FEED,
};

verus! {

/// How far back from the end the search for the last line first looks, in
/// bytes. The reach doubles until it takes in the start of the last line.
pub const LOOKBACK: usize = 64;

/// How many lines in a row may fail to read before a probe gives up. The
/// count is of whole lines that the probe reads: what it passes over of the
/// line that it cuts is not read and does not count.
pub const RETRIES: u8 = 3;

/// The text of the last line of `data`; none for an empty file or a last
/// line that is no valid UTF-8.
pub open spec fn last_line(data: Seq<u8>) -> Option<Seq<char>> {
    if data.len() == 0 {
        None
    } else {
        bare_text(last_record(data))
    }
}

/// The last line of a file of which only the stretch `tail` at its end is
/// at hand; `whole` says that the stretch is the whole file. `None` where
/// the stretch does not reach back to the start of the last line.
pub open spec fn line_in_tail(tail: Seq<u8>, whole: bool) -> Option<Option<Seq<char>>> {
    if tail.len() == 0 {
        if whole {
            Some(None)
        } else {
            None
        }
    } else if last_start(tail) > 0 || whole {
        Some(bare_text(last_record(tail)))
    } else {
        None
    }
}

/// The last line that a stretch at the end of a file shows is the last
/// line of the file.
pub proof fn lemma_line_in_tail(data: Seq<u8>, from: int)
    requires
        0 <= from < data.len(),
    ensures
        line_in_tail(data.subrange(from, data.len() as int), from == 0) matches Some(text)
            ==> text == last_line(data),
        line_in_tail(data.subrange(from, data.len() as int), from == 0) is None ==> from > 0,
{
    let tail = data.subrange(from, data.len() as int);
    if from == 0 {
        assert(tail =~= data);
    } else {
        let head = data.take(from);
        if data.last() == LINE_FEED {
            assert(data.drop_last() =~= head + tail.drop_last());
            lemma_last_line_feed_of_two(head, tail.drop_last());
            lemma_last_line_feed(tail.drop_last());
        } else {
            assert(data =~= head + tail);
            lemma_last_line_feed_of_two(head, tail);
            lemma_last_line_feed(tail);
        }
        if last_start(tail) > 0 {
            assert(last_record(tail) =~= last_record(data));
        }
    }
}

/// Looks for the last line of a file in the stretch `tail` at its end.
pub fn last_line_in(tail: &[u8], whole: bool) -> (r: Option<Option<String>>)
    ensures
        r.deep_view() == line_in_tail(tail@, whole),
{
    let size = tail.len();
    if size == 0 {
        return if whole {
            Some(None)
        } else {
            None
        };
    }
    let stop: usize = if tail[size - 1] == LINE_FEED {
        size - 1
    } else {
        size
    };
    let body = slice_subrange(tail, 0, stop);
    proof {
        assert(body@ =~= if tail@.last() == LINE_FEED {
            tail@.drop_last()
        } else {
            tail@
        });
        lemma_last_line_feed(body@);
    }
    let start: usize = match find_last_line_feed(body) {
        Some(feed) => feed + 1,
        None => {
            if !whole {
                return None;
            }
            0
        },
    };
    match bare(tail, start, size) {
        Some(text) => Some(Some(text.to_owned())),
        None => Some(None),
    }
}

/// Looks back from the end of `data` for its last line: over `LOOKBACK`
/// bytes first, then over twice as many each time, until the stretch holds
/// the line feed in front of the last line or reaches the start of the file.
pub fn find_last_line(data: &[u8]) -> (r: Option<String>)
    ensures
        r.deep_view() == last_line(data@),
{
    let size = data.len();
    if size == 0 {
        return None;
    }
    let mut reach: usize = if LOOKBACK < size {
        LOOKBACK
    } else {
        size
    };
    loop
        invariant
            size == data.len(),
            0 < reach <= size,
        decreases size - reach,
    {
        let stretch = slice_subrange(data, size - reach, size);
        proof {
            lemma_line_in_tail(data@, size - reach);
        }
        match last_line_in(stretch, reach == size) {
            Some(last) => {
                return last;
            },
            None => {
                reach = if reach <= size - reach {
                    reach * 2
                } else {
                    size
                };
            },
        }
    }
}

/// What the search makes of one line read from the file: the meaning of its
/// text, and invalid where the bytes hold no text.
pub open spec fn read_meaning<L: Logger>(line: Seq<u8>) -> Meaning {
    match bare_text(line) {
        Some(text) => L::meaning(text),
        None => Meaning::Invalid,
    }
}

/// An event found in the file and the position just past its line.
pub struct Hit {
    pub instant: Datetime,
    pub event: LineView,
    pub next: int,
}

/// What a probe comes back with.
pub enum Probed {
    /// The first event at or after the probe's position.
    Found(Hit),
    /// No event stands at or after the probe's position.
    Nothing,
    /// Too many lines in a row did not read.
    Failed,
}

/// The first event from the line at `from` on, after `strikes` invalid
/// lines in a row. Lines are read one after the other. Noise is passed
/// over. An invalid line is passed over too, but the third such line in a
/// row, with no noise between, makes the probe fail. Where the lines run out
/// before an event is met, nothing stands at or after `from`.
pub open spec fn first_event<L: Logger>(data: Seq<u8>, from: int, strikes: int) -> Probed
    decreases data.len() - from,
{
    if from < 0 {
        Probed::Failed
    } else if from >= data.len() {
        Probed::Nothing
    } else {
        let stop = line_end(data, from);
        proof {
            lemma_line_end(data, from);
        }
        match read_meaning::<L>(data.subrange(from, stop)) {
            Meaning::Event(instant, event) => Probed::Found(Hit { instant, event, next: stop }),
            Meaning::Invalid => if strikes + 1 >= RETRIES {
                Probed::Failed
            } else {
                first_event::<L>(data, stop, strikes + 1)
            },
            Meaning::Noise => first_event::<L>(data, stop, 0),
        }
    }
}

/// What a probe finds that has no line left to read, because it began
/// inside the last line or at the end of the file: the last line, looked up
/// from the end. Where the last line is no event, be it noise or unreadable,
/// nothing stands at or after the probe's position, and the search goes on
/// before it.
pub open spec fn last_event<L: Logger>(data: Seq<u8>) -> Probed {
    if data.len() == 0 {
        Probed::Nothing
    } else {
        match read_meaning::<L>(last_record(data)) {
            Meaning::Event(instant, event) => Probed::Found(
                Hit { instant, event, next: data.len() as int },
            ),
            _ => Probed::Nothing,
        }
    }
}

/// The last event of the run of lines that share the instant of `hit`,
/// starting with the line of `hit` itself. The run ends before the first
/// line that is no event or has another instant, or at the end of the data.
pub open spec fn end_of_run<L: Logger>(data: Seq<u8>, hit: Hit) -> Hit
    decreases data.len() - hit.next,
{
    if hit.next < 0 || hit.next >= data.len() {
        hit
    } else {
        let stop = line_end(data, hit.next);
        proof {
            lemma_line_end(data, hit.next);
        }
        match read_meaning::<L>(data.subrange(hit.next, stop)) {
            Meaning::Event(instant, event) => if instant == hit.instant {
                end_of_run::<L>(data, Hit { instant, event, next: stop })
            } else {
                hit
            },
            _ => hit,
        }
    }
}

/// Where a probe at `mid` begins to read: at `mid` where a line begins
/// there, and else at the next line. What stands between `mid` and the end
/// of the line that `mid` cuts is passed over unread.
pub open spec fn probe_start(data: Seq<u8>, mid: int) -> int {
    if mid <= 0 || mid >= data.len() || data[mid - 1] == LINE_FEED {
        mid
    } else {
        line_end(data, mid)
    }
}

/// What the probe at `mid` comes back with: the first event of the lines
/// that begin at or after `mid`, and where no line begins there any more,
/// the last line if it is an event.
pub open spec fn probed<L: Logger>(data: Seq<u8>, mid: int) -> Probed {
    if probe_start(data, mid) >= data.len() {
        last_event::<L>(data)
    } else {
        first_event::<L>(data, probe_start(data, mid), 0)
    }
}

/// The bisection over positions `start..=end`. The first event at or after
/// the middle decides: if it is earlier than `needle`, the search goes on
/// right of the middle; if it is later, or if no event stands at or after
/// the middle, left of it, and at position 0 that means that nothing is
/// found. An event at `needle` is followed to the end of its run. A probe
/// that fails ends the search with nothing.
pub open spec fn search<L: Logger>(data: Seq<u8>, needle: Datetime, start: int, end: int) -> Option<
    Hit,
>
    decreases end - start + 1,
{
    if start < 0 || start > end {
        None
    } else {
        let mid = start + (end - start) / 2;
        match probed::<L>(data, mid) {
            Probed::Failed => None,
            Probed::Nothing => if mid == 0 {
                None
            } else {
                search::<L>(data, needle, start, mid - 1)
            },
            Probed::Found(hit) => if hit.instant.earlier_than(needle) {
                search::<L>(data, needle, mid + 1, end)
            } else if needle.earlier_than(hit.instant) {
                if mid == 0 {
                    None
                } else {
                    search::<L>(data, needle, start, mid - 1)
                }
            } else {
                Some(end_of_run::<L>(data, hit))
            },
        }
    }
}

/// Where to resume in `data` after the record written at `needle`: the last
/// line of the run at that instant that the bisection finds, and the
/// position just past it.
pub open spec fn resume_point<L: Logger>(data: Seq<u8>, needle: Datetime) -> Option<Hit> {
    search::<L>(data, needle, 0, data.len() as int)
}

/// What an event and a position found by the executable search stand for.
pub open spec fn hit_of(found: (DatedIrcLine, usize)) -> Hit {
    Hit { instant: found.0.0, event: found.0.1@, next: found.1 as int }
}

pub open spec fn hit_of_option(found: Option<(DatedIrcLine, usize)>) -> Option<Hit> {
    match found {
        Some(found) => Some(hit_of(found)),
        None => None,
    }
}

/// The outcome of a probe: an event with the position just past its line,
/// nothing at or after the probe's position, or too many unreadable lines.
#[derive(Debug, PartialEq)]
pub enum Probe {
    Found(DatedIrcLine, usize),
    Nothing,
    Failed,
}

impl View for Probe {
    type V = Probed;

    open spec fn view(&self) -> Probed {
        match self {
            Probe::Found(dated, next) => Probed::Found(hit_of((*dated, *next))),
            Probe::Nothing => Probed::Nothing,
            Probe::Failed => Probed::Failed,
        }
    }
}

/// Reads the line of `data` from `from` to `stop`.
pub fn read_line<L: Logger>(logger: &L, data: &[u8], from: usize, stop: usize) -> (r:
    ParseResult)
    requires
        from <= stop <= data.len(),
    ensures
        r@ == read_meaning::<L>(data@.subrange(from as int, stop as int)),
{
    match bare(data, from, stop) {
        Some(text) => logger.parse_line(text),
        None => ParseResult::Invalid,
    }
}

/// Looks up the last line of `data` for a probe that has no line left to
/// read.
pub fn probe_end<L: Logger>(logger: &L, data: &[u8]) -> (r: Probe)
    ensures
        r@ == last_event::<L>(data@),
        r matches Probe::Found(_, next) ==> next == data.len(),
{
    if data.len() == 0 {
        return Probe::Nothing;
    }
    let last = match find_last_line(data) {
        Some(text) => logger.parse_line(text.as_str()),
        None => ParseResult::Invalid,
    };
    match last {
        ParseResult::Parsed(dated) => Probe::Found(dated, data.len()),
        _ => Probe::Nothing,
    }
}

/// Finds the first event of the lines that begin at or after `from`.
pub fn probe<L: Logger>(logger: &L, data: &[u8], from: usize) -> (r: Probe)
    requires
        from <= data.len(),
    ensures
        r@ == probed::<L>(data@, from as int),
        r matches Probe::Found(_, next) ==> from <= next <= data.len(),
{
    let mut at: usize = if from > 0 && from < data.len() && data[from - 1] != LINE_FEED {
        find_line_end(data, from)
    } else {
        from
    };
    if at >= data.len() {
        return probe_end(logger, data);
    }
    let mut strikes: u8 = 0;
    loop
        invariant
            from <= at <= data.len(),
            strikes < RETRIES,
            probed::<L>(data@, from as int) == first_event::<L>(
                data@,
                at as int,
                strikes as int,
            ),
        decreases data.len() - at,
    {
        if at >= data.len() {
            return Probe::Nothing;
        }
        let stop = find_line_end(data, at);
        match read_line(logger, data, at, stop) {
            ParseResult::Parsed(dated) => {
                return Probe::Found(dated, stop);
            },
            ParseResult::Invalid => {
                if strikes + 1 >= RETRIES {
                    return Probe::Failed;
                }
                strikes = strikes + 1;
            },
            ParseResult::Noise => {
                strikes = 0;
            },
        }
        at = stop;
    }
}

/// Follows the run of lines that share the instant of `found`.
pub fn follow_run<L: Logger>(logger: &L, data: &[u8], found: (DatedIrcLine, usize)) -> (r: (
    DatedIrcLine,
    usize,
))
    requires
        found.1 <= data.len(),
    ensures
        hit_of(r) == end_of_run::<L>(data@, hit_of(found)),
        found.1 <= r.1 <= data.len(),
{
    let (mut dated, mut next) = found;
    loop
        invariant
            found.1 <= next <= data.len(),
            end_of_run::<L>(data@, hit_of(found)) == end_of_run::<L>(data@, hit_of((dated, next))),
        decreases data.len() - next,
    {
        if next >= data.len() {
            return (dated, next);
        }
        let stop = find_line_end(data, next);
        match read_line(logger, data, next, stop) {
            ParseResult::Parsed(later) => {
                if later.0 == dated.0 {
                    dated = later;
                    next = stop;
                } else {
                    return (dated, next);
                }
            },
            _ => {
                return (dated, next);
            },
        }
    }
}

/// Finds the line written at `needle` by bisection and leaves the reader
/// just past the last line of that instant. Where no such line is found the
/// reader stays where it was.
pub fn seek_past_line<L: Logger>(logger: &L, reader: &mut LogReader, needle: &Datetime) -> (r:
    Option<DatedIrcLine>)
    ensures
        final(reader).content() == old(reader).content(),
        match resume_point::<L>(old(reader).content(), *needle) {
            Some(hit) => r matches Some(dated) && dated.0 == hit.instant && dated.1@ == hit.event
                && final(reader).cursor() == hit.next,
            None => r is None && final(reader).cursor() == old(reader).cursor(),
        },
{
    let found = locate(logger, reader.bytes(), needle);
    match found {
        Some((dated, next)) => {
            reader.seek(next);
            Some(dated)
        },
        None => None,
    }
}

/// The bisection on the bytes themselves: the event to resume after and the
/// position just past its line.
pub fn locate<L: Logger>(logger: &L, data: &[u8], needle: &Datetime) -> (r: Option<(
    DatedIrcLine,
    usize,
)>)
    ensures
        hit_of_option(r) == resume_point::<L>(data@, *needle),
        r matches Some(found) ==> found.1 <= data.len(),
{
    let mut start: usize = 0;
    let mut end: usize = data.len();
    while start <= end
        invariant
            end <= data.len(),
            resume_point::<L>(data@, *needle) == search::<L>(
                data@,
                *needle,
                start as int,
                end as int,
            ),
        decreases end + 1 - start,
    {
        let mid = start + (end - start) / 2;
        let found = match probe(logger, data, mid) {
            Probe::Found(dated, next) => (dated, next),
            Probe::Nothing => {
                if mid == 0 {
                    return None;
                }
                end = mid - 1;
                continue ;
            },
            Probe::Failed => {
                return None;
            },
        };
        if found.0.0.is_before(needle) {
            if mid == end {
                proof {
                    assert(search::<L>(data@, *needle, mid + 1, end as int) is None);
                }
                return None;
            }
            start = mid + 1;
        } else if found.0.0.is_after(needle) {
            if mid == 0 {
                return None;
            }
            end = mid - 1;
        } else {
            return Some(follow_run(logger, data, found));
        }
    }
    None
}

} // verus!

//! What the resume search finds, and when.

use vstd::prelude::*;
use crate::line::{LineView, Logger, Meaning};
use crate::model::Datetime;
use crate::read::{
    last_record, last_start, lemma_last_start, lemma_line_end, line_end, line_start, LINE_FEED,
};
use crate::seek::{
    end_of_run, first_event, probe_start, probed, read_meaning, resume_point, search, Hit, Probed,
    last_event, RETRIES,
};

verus! {

/// Two instants neither of which is earlier than the other are the same.
pub proof fn lemma_same_instant(a: Datetime, b: Datetime)
    requires
        !a.earlier_than(b),
        !b.earlier_than(a),
    ensures
        a == b,
{
}

/// What the search reads at `at`: the bytes from there to the end of the
/// line.
pub open spec fn meaning_at<L: Logger>(data: Seq<u8>, at: int) -> Meaning {
    read_meaning::<L>(data.subrange(at, line_end(data, at)))
}

/// The event read at `at` and the position just past its line.
pub open spec fn hit_at<L: Logger>(data: Seq<u8>, at: int) -> Hit {
    match meaning_at::<L>(data, at) {
        Meaning::Event(instant, event) => Hit { instant, event, next: line_end(data, at) },
        _ => Hit { instant: arbitrary(), event: LineView::Garbage, next: line_end(data, at) },
    }
}

/// The instant of the event read at `at`.
pub open spec fn instant_at<L: Logger>(data: Seq<u8>, at: int) -> Datetime {
    hit_at::<L>(data, at).instant
}

/// `hit` is the event of a line of `data`, with the position just past
/// that line.
pub open spec fn line_hit<L: Logger>(data: Seq<u8>, hit: Hit) -> bool {
    exists|at: int| #[trigger]
        line_start(data, at) && meaning_at::<L>(data, at) is Event && hit_at::<L>(data, at) == hit
}

/// A probe begins to read where a line begins, or at the end of the data.
proof fn lemma_probe_start(data: Seq<u8>, mid: int)
    requires
        0 <= mid <= data.len(),
    ensures
        mid <= probe_start(data, mid) <= data.len(),
        probe_start(data, mid) < data.len() ==> line_start(data, probe_start(data, mid)),
        probe_start(data, mid) == if line_start(data, mid) || mid == data.len() {
            mid
        } else {
            line_end(data, mid)
        },
{
    lemma_line_end(data, mid);
}

/// An event that a probe finds is the event of a line.
proof fn lemma_first_event_is_a_line<L: Logger>(data: Seq<u8>, from: int, strikes: int)
    requires
        0 <= from,
        from < data.len() ==> line_start(data, from),
        first_event::<L>(data, from, strikes) is Found,
    ensures
        line_hit::<L>(data, first_event::<L>(data, from, strikes)->Found_0),
    decreases data.len() - from,
{
    let hit = first_event::<L>(data, from, strikes)->Found_0;
    if from < data.len() {
        let stop = line_end(data, from);
        lemma_line_end(data, from);
        match read_meaning::<L>(data.subrange(from, stop)) {
            Meaning::Event(instant, event) => {
                assert(line_start(data, from) && meaning_at::<L>(data, from) is Event && hit_at::<
                    L,
                >(data, from) == hit);
            },
            Meaning::Invalid => {
                lemma_first_event_is_a_line::<L>(data, stop, strikes + 1);
            },
            Meaning::Noise => {
                lemma_first_event_is_a_line::<L>(data, stop, 0);
            },
        }
    }
}

/// An event that a probe finds is the event of a line.
proof fn lemma_probed_is_a_line<L: Logger>(data: Seq<u8>, mid: int)
    requires
        0 <= mid <= data.len(),
        probed::<L>(data, mid) is Found,
    ensures
        line_hit::<L>(data, probed::<L>(data, mid)->Found_0),
{
    let hit = probed::<L>(data, mid)->Found_0;
    lemma_probe_start(data, mid);
    if probe_start(data, mid) >= data.len() {
        lemma_last_start(data);
        let last = last_start(data);
        assert(data.subrange(last, line_end(data, last)) == last_record(data));
        assert(line_start(data, last) && meaning_at::<L>(data, last) is Event && hit_at::<L>(
            data,
            last,
        ) == hit);
    } else {
        lemma_first_event_is_a_line::<L>(data, probe_start(data, mid), 0);
    }
}

/// A run that begins with the event of a line ends with the event of a
/// line, at the instant at which it began.
proof fn lemma_end_of_run_is_a_line<L: Logger>(data: Seq<u8>, hit: Hit)
    requires
        line_hit::<L>(data, hit),
    ensures
        line_hit::<L>(data, end_of_run::<L>(data, hit)),
        end_of_run::<L>(data, hit).instant == hit.instant,
    decreases data.len() - hit.next,
{
    let at = choose|at: int| #[trigger]
        line_start(data, at) && meaning_at::<L>(data, at) is Event && hit_at::<L>(data, at) == hit;
    lemma_line_end(data, at);
    if hit.next < data.len() {
        let stop = line_end(data, hit.next);
        lemma_line_end(data, hit.next);
        match read_meaning::<L>(data.subrange(hit.next, stop)) {
            Meaning::Event(instant, event) => {
                if instant == hit.instant {
                    let next = Hit { instant, event, next: stop };
                    assert(line_start(data, hit.next) && meaning_at::<L>(data, hit.next) is Event
                        && hit_at::<L>(data, hit.next) == next);
                    lemma_end_of_run_is_a_line::<L>(data, next);
                }
            },
            _ => {},
        }
    }
}

/// Whatever the bisection finds is the event of a line, written at the
/// needle's instant.
proof fn lemma_search_is_a_line<L: Logger>(data: Seq<u8>, needle: Datetime, start: int, end: int)
    requires
        end <= data.len(),
        search::<L>(data, needle, start, end) is Some,
    ensures
        search::<L>(data, needle, start, end)->0.instant == needle,
        line_hit::<L>(data, search::<L>(data, needle, start, end)->0),
    decreases end - start + 1,
{
    let mid = start + (end - start) / 2;
    lemma_probe_start(data, mid);
    match probed::<L>(data, mid) {
        Probed::Failed => {},
        Probed::Nothing => {
            lemma_search_is_a_line::<L>(data, needle, start, mid - 1);
        },
        Probed::Found(hit) => {
            if hit.instant.earlier_than(needle) {
                lemma_search_is_a_line::<L>(data, needle, mid + 1, end);
            } else if needle.earlier_than(hit.instant) {
                lemma_search_is_a_line::<L>(data, needle, start, mid - 1);
            } else {
                lemma_same_instant(hit.instant, needle);
                lemma_probed_is_a_line::<L>(data, mid);
                lemma_end_of_run_is_a_line::<L>(data, hit);
            }
        },
    }
}

/// A log as it is meant to be: every line begins with a timestamp, and the
/// instants of the events never go back from one to the next. Lines of noise
/// may stand anywhere, and the last line need not end in a line feed.
pub open spec fn orderly<L: Logger>(data: Seq<u8>) -> bool {
    &&& forall|at: int| #[trigger] line_start(data, at) ==> !(meaning_at::<L>(data, at) is Invalid)
    &&& forall|p: int, q: int|
        #![trigger line_start(data, p), line_start(data, q)]
        line_start(data, p) && line_start(data, q) && p <= q && meaning_at::<L>(data, p) is Event
            && meaning_at::<L>(data, q) is Event ==> !instant_at::<L>(data, q).earlier_than(
            instant_at::<L>(data, p),
        )
}

/// The line at `at` is an event written at `instant`.
pub open spec fn event_at<L: Logger>(data: Seq<u8>, at: int, instant: Datetime) -> bool {
    line_start(data, at) && meaning_at::<L>(data, at) is Event && instant_at::<L>(data, at)
        == instant
}

/// The line at `last` ends the run of events written at `needle`: it is
/// such an event, no such event follows it, and between the first such event
/// and `last` there is no noise.
pub open spec fn ends_run<L: Logger>(data: Seq<u8>, needle: Datetime, last: int) -> bool {
    &&& event_at::<L>(data, last, needle)
    &&& forall|q: int| #[trigger] event_at::<L>(data, q, needle) ==> q <= last
    &&& forall|p: int, q: int|
        #![trigger event_at::<L>(data, p, needle), line_start(data, q)]
        event_at::<L>(data, p, needle) && line_start(data, q) && p <= q <= last ==> meaning_at::<
            L,
        >(data, q) is Event
}

/// The line that begins at `mid`, else the next one, else the last one.
pub open spec fn line_from(data: Seq<u8>, mid: int) -> int {
    if line_start(data, mid) {
        mid
    } else if mid < data.len() && line_end(data, mid) < data.len() {
        line_end(data, mid)
    } else {
        last_start(data)
    }
}

/// The first line at or after the line at `at` that is not noise. Where only
/// noise follows this is the length of the data.
pub open spec fn event_from<L: Logger>(data: Seq<u8>, at: int) -> int
    decreases data.len() - at,
{
    if at < 0 || at >= data.len() {
        data.len() as int
    } else if meaning_at::<L>(data, at) is Noise {
        proof {
            lemma_line_end(data, at);
        }
        event_from::<L>(data, line_end(data, at))
    } else {
        at
    }
}

/// What a probe returns in an orderly log when it starts reading at the
/// line at `at`: the first event from there on, or nothing where only noise
/// follows.
pub open spec fn probed_from<L: Logger>(data: Seq<u8>, at: int) -> Probed {
    if event_from::<L>(data, at) < data.len() {
        Probed::Found(hit_at::<L>(data, event_from::<L>(data, at)))
    } else {
        Probed::Nothing
    }
}

/// Every position of a line before its end has the same line end.
proof fn lemma_line_end_same(data: Seq<u8>, a: int, b: int)
    requires
        0 <= a <= b < line_end(data, a),
        a <= data.len(),
    ensures
        line_end(data, b) == line_end(data, a),
    decreases b - a,
{
    lemma_line_end(data, a);
    if a < b {
        lemma_line_end_same(data, a + 1, b);
    }
}

/// A line ends no later than where the next line begins.
proof fn lemma_next_start(data: Seq<u8>, a: int, s: int)
    requires
        0 <= a < s,
        line_start(data, s),
    ensures
        line_end(data, a) <= s,
{
    lemma_line_end(data, a);
    if line_end(data, a) > s {
        assert(data[s - 1] != LINE_FEED);
    }
}

/// Where a line ends before the end of the data, the next line begins.
proof fn lemma_line_end_is_start(data: Seq<u8>, a: int)
    requires
        0 <= a < data.len(),
        line_end(data, a) < data.len(),
    ensures
        line_start(data, line_end(data, a)),
        a < line_end(data, a),
{
    lemma_line_end(data, a);
}

/// A line that ends with the data is the last line.
proof fn lemma_line_to_the_end_is_last(data: Seq<u8>, at: int)
    requires
        line_start(data, at),
        line_end(data, at) == data.len(),
    ensures
        at == last_start(data),
        data.subrange(at, line_end(data, at)) == last_record(data),
{
    lemma_last_start(data);
    if at < last_start(data) {
        lemma_next_start(data, at, last_start(data));
    }
}

/// A line that the search returns is an event of the file, written at the
/// instant searched for.
pub proof fn lemma_found_is_a_line<L: Logger>(data: Seq<u8>, needle: Datetime)
    ensures
        resume_point::<L>(data, needle) matches Some(hit) ==> hit.instant == needle && exists|
            at: int,
        | #[trigger] event_at::<L>(data, at, needle) && hit_at::<L>(data, at) == hit,
{
    if resume_point::<L>(data, needle) is Some {
        lemma_search_is_a_line::<L>(data, needle, 0, data.len() as int);
        let hit = resume_point::<L>(data, needle)->0;
        let at = choose|at: int| #[trigger]
            line_start(data, at) && meaning_at::<L>(data, at) is Event && hit_at::<L>(data, at)
                == hit;
        assert(event_at::<L>(data, at, needle) && hit_at::<L>(data, at) == hit);
    }
}

/// An instant at which no line of the file is written is not found, even
/// where it lies between the instants of two lines.
pub proof fn lemma_absent_instant_is_not_found<L: Logger>(data: Seq<u8>, needle: Datetime)
    requires
        forall|at: int| !#[trigger] event_at::<L>(data, at, needle),
    ensures
        resume_point::<L>(data, needle) is None,
{
    lemma_found_is_a_line::<L>(data, needle);
}

/// An instant earlier than every event of the file is not found.
pub proof fn lemma_earlier_instant_is_not_found<L: Logger>(data: Seq<u8>, needle: Datetime)
    requires
        forall|at: int, instant: Datetime| #[trigger]
            event_at::<L>(data, at, instant) ==> needle.earlier_than(instant),
    ensures
        resume_point::<L>(data, needle) is None,
{
    assert forall|at: int| !#[trigger] event_at::<L>(data, at, needle) by {
        if event_at::<L>(data, at, needle) {
            assert(needle.earlier_than(needle));
        }
    }
    lemma_absent_instant_is_not_found::<L>(data, needle);
}

/// In an orderly log the first line that is not noise, from any line on, is
/// an event, unless only noise follows.
proof fn lemma_event_from<L: Logger>(data: Seq<u8>, at: int)
    requires
        orderly::<L>(data),
        line_start(data, at),
    ensures
        at <= event_from::<L>(data, at) <= data.len(),
        event_from::<L>(data, at) < data.len() ==> line_start(data, event_from::<L>(data, at))
            && meaning_at::<L>(data, event_from::<L>(data, at)) is Event,
    decreases data.len() - at,
{
    if meaning_at::<L>(data, at) is Noise {
        lemma_line_end(data, at);
        if line_end(data, at) < data.len() {
            lemma_line_end_is_start(data, at);
            lemma_event_from::<L>(data, line_end(data, at));
        }
    }
}

/// Later lines have later first events, or the same.
proof fn lemma_event_from_grows<L: Logger>(data: Seq<u8>, a: int, b: int)
    requires
        orderly::<L>(data),
        line_start(data, a),
        line_start(data, b),
        a <= b,
    ensures
        event_from::<L>(data, a) <= event_from::<L>(data, b),
    decreases b - a,
{
    lemma_event_from::<L>(data, b);
    if a < b && meaning_at::<L>(data, a) is Noise {
        lemma_next_start(data, a, b);
        lemma_line_end_is_start(data, a);
        lemma_event_from_grows::<L>(data, line_end(data, a), b);
    }
}

/// In an orderly log a probe that begins at a line returns the first event
/// from that line on.
proof fn lemma_probe_at_line<L: Logger>(data: Seq<u8>, at: int, strikes: int)
    requires
        orderly::<L>(data),
        line_start(data, at),
        0 <= strikes < RETRIES,
    ensures
        first_event::<L>(data, at, strikes) == probed_from::<L>(data, at),
    decreases data.len() - at,
{
    if meaning_at::<L>(data, at) is Noise {
        lemma_line_end(data, at);
        if line_end(data, at) < data.len() {
            lemma_line_end_is_start(data, at);
            lemma_probe_at_line::<L>(data, line_end(data, at), 0);
        }
    }
}

/// In an orderly log a probe with no line left to read returns the last
/// line, where that is an event.
proof fn lemma_probe_at_end<L: Logger>(data: Seq<u8>)
    requires
        orderly::<L>(data),
        data.len() > 0,
    ensures
        last_event::<L>(data) == probed_from::<L>(data, last_start(data)),
{
    lemma_last_start(data);
    let last = last_start(data);
    lemma_line_to_the_end_is_last(data, last);
    assert(read_meaning::<L>(last_record(data)) == meaning_at::<L>(data, last));
    assert(!(meaning_at::<L>(data, last) is Invalid));
    assert(event_from::<L>(data, data.len() as int) == data.len());
    if meaning_at::<L>(data, last) is Noise {
        assert(event_from::<L>(data, last) == data.len());
    } else {
        assert(event_from::<L>(data, last) == last);
    }
}

/// In an orderly log a probe returns the first event from `line_from` on.
proof fn lemma_probe<L: Logger>(data: Seq<u8>, mid: int)
    requires
        orderly::<L>(data),
        data.len() > 0,
        0 <= mid <= data.len(),
    ensures
        line_start(data, line_from(data, mid)),
        probed::<L>(data, mid) == probed_from::<L>(data, line_from(data, mid)),
{
    lemma_last_start(data);
    lemma_probe_start(data, mid);
    if line_start(data, mid) {
        lemma_probe_at_line::<L>(data, mid, 0);
    } else if mid < data.len() {
        let stop = line_end(data, mid);
        if stop < data.len() {
            lemma_probe_at_line::<L>(data, stop, 0);
        } else {
            lemma_probe_at_end::<L>(data);
        }
    } else {
        lemma_probe_at_end::<L>(data);
    }
}

/// From later positions on, later lines begin, or the same.
proof fn lemma_line_from_grows(data: Seq<u8>, a: int, b: int)
    requires
        data.len() > 0,
        0 <= a <= b <= data.len(),
    ensures
        line_start(data, line_from(data, a)),
        line_start(data, line_from(data, b)),
        line_from(data, a) <= line_from(data, b),
{
    lemma_last_start(data);
    if a < data.len() {
        lemma_line_end(data, a);
    }
    if b < data.len() {
        lemma_line_end(data, b);
    }
    if line_start(data, a) {
    } else if a < data.len() {
        let stop = line_end(data, a);
        if b < stop {
            if a < b && line_start(data, b) {
                lemma_next_start(data, a, b);
            }
            lemma_line_end_same(data, a, b);
        } else if stop < data.len() {
            lemma_line_end_is_start(data, a);
        }
    }
}

/// Probes from later positions return later events, or the same.
proof fn lemma_probed_grows<L: Logger>(data: Seq<u8>, a: int, b: int)
    requires
        orderly::<L>(data),
        data.len() > 0,
        0 <= a <= b <= data.len(),
    ensures
        event_from::<L>(data, line_from(data, a)) <= event_from::<L>(data, line_from(data, b)),
{
    lemma_line_from_grows(data, a, b);
    lemma_event_from_grows::<L>(data, line_from(data, a), line_from(data, b));
}

/// In an orderly log the run that is entered at the event at `first` ends
/// with the line at `last`, where `last` ends the run of that instant.
proof fn lemma_run<L: Logger>(data: Seq<u8>, needle: Datetime, first: int, last: int)
    requires
        orderly::<L>(data),
        event_at::<L>(data, first, needle),
        ends_run::<L>(data, needle, last),
    ensures
        end_of_run::<L>(data, hit_at::<L>(data, first)) == hit_at::<L>(data, last),
    decreases last - first,
{
    let next = line_end(data, first);
    lemma_line_end(data, first);
    if first == last {
        if next < data.len() {
            lemma_line_end_is_start(data, first);
            if meaning_at::<L>(data, next) is Event && instant_at::<L>(data, next) == needle {
                assert(event_at::<L>(data, next, needle));
            }
        }
    } else {
        lemma_next_start(data, first, last);
        lemma_line_end_is_start(data, first);
        assert(meaning_at::<L>(data, next) is Event);
        lemma_same_instant(instant_at::<L>(data, next), needle);
        lemma_run::<L>(data, needle, next, last);
    }
}

/// The bisection in an orderly log, as long as some position between
/// `start` and `end` probes to an event of the needle's instant.
proof fn lemma_search_orderly<L: Logger>(
    data: Seq<u8>,
    needle: Datetime,
    start: int,
    end: int,
    within: int,
    last: int,
)
    requires
        orderly::<L>(data),
        0 <= start <= within <= end <= data.len(),
        event_at::<L>(data, event_from::<L>(data, line_from(data, within)), needle),
        ends_run::<L>(data, needle, last),
    ensures
        search::<L>(data, needle, start, end) == Some(hit_at::<L>(data, last)),
    decreases end - start,
{
    let mid = start + (end - start) / 2;
    lemma_probe::<L>(data, mid);
    lemma_line_from_grows(data, mid, mid);
    lemma_event_from::<L>(data, line_from(data, mid));
    let probed = event_from::<L>(data, line_from(data, mid));
    if mid <= within {
        lemma_probed_grows::<L>(data, mid, within);
    } else {
        lemma_probed_grows::<L>(data, within, mid);
    }
    if probed >= data.len() {
        lemma_search_orderly::<L>(data, needle, start, mid - 1, within, last);
    } else {
        let hit = hit_at::<L>(data, probed);
        if hit.instant.earlier_than(needle) {
            lemma_search_orderly::<L>(data, needle, mid + 1, end, within, last);
        } else if needle.earlier_than(hit.instant) {
            lemma_search_orderly::<L>(data, needle, start, mid - 1, within, last);
        } else {
            lemma_same_instant(hit.instant, needle);
            assert(event_at::<L>(data, probed, needle));
            lemma_run::<L>(data, needle, probed, last);
        }
    }
}

/// In an orderly log, searching for the instant of an event finds the last
/// event of that instant and the position just past its line, never an
/// earlier line of the same instant.
pub proof fn lemma_search_finds_end_of_run<L: Logger>(data: Seq<u8>, needle: Datetime, last: int)
    requires
        orderly::<L>(data),
        ends_run::<L>(data, needle, last),
    ensures
        resume_point::<L>(data, needle) == Some(hit_at::<L>(data, last)),
        hit_at::<L>(data, last).instant == needle,
        hit_at::<L>(data, last).next == line_end(data, last),
{
    lemma_search_orderly::<L>(data, needle, 0, data.len() as int, last, last);
}

/// In an orderly log whose events have instants that grow from each to the
/// next, searching for the instant of an event finds that event and the
/// position just past its line.
pub proof fn lemma_search_finds_the_line<L: Logger>(data: Seq<u8>, needle: Datetime, at: int)
    requires
        orderly::<L>(data),
        forall|p: int, q: int|
            #![trigger line_start(data, p), line_start(data, q)]
            line_start(data, p) && line_start(data, q) && p < q && meaning_at::<L>(data, p)
                is Event && meaning_at::<L>(data, q) is Event ==> instant_at::<L>(
                data,
                p,
            ).earlier_than(instant_at::<L>(data, q)),
        event_at::<L>(data, at, needle),
    ensures
        resume_point::<L>(data, needle) == Some(hit_at::<L>(data, at)),
        hit_at::<L>(data, at).instant == needle,
        hit_at::<L>(data, at).next == line_end(data, at),
{
    assert forall|q: int| #[trigger] event_at::<L>(data, q, needle) implies q <= at by {
        if q > at {
            assert(line_start(data, at) && line_start(data, q));
        }
    }
    assert forall|p: int, q: int|
        #![trigger event_at::<L>(data, p, needle), line_start(data, q)]
        event_at::<L>(data, p, needle) && line_start(data, q) && p <= q <= at implies meaning_at::<
            L,
        >(data, q) is Event by {
        if p < at {
            assert(line_start(data, p) && line_start(data, at));
        }
    }
    lemma_search_finds_end_of_run::<L>(data, needle, at);
}

} // verus!

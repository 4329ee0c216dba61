//! The resume search in steps, for a file that is read from disk as the
//! search goes: each step says which bytes it wants next, and takes them
//! with the step after. The steps decide exactly what the search over a file
//! in memory decides.

use vstd::prelude::*;
use crate::line::{DatedIrcLine, Logger, Meaning, ParseResult};
use crate::model::Datetime;
use crate::read::{lemma_line_end, line_end, LINE_FEED};
use crate::seek::{
    end_of_run, first_event, hit_of, hit_of_option, last_line, last_line_in, lemma_line_in_tail,
    last_event, line_in_tail, probe_start, probed, read_line, resume_point, search, Hit, Probe,
    Probed,
    LOOKBACK, RETRIES,
};

verus! {

/// What a search in steps waits for.
pub enum StageView {
    /// The line that begins one byte before the middle, to see where the
    /// first line at or after the middle begins.
    Skipping,
    /// The line at `at`, to go on with a probe that has met `strikes`
    /// invalid lines in a row.
    Reading { at: int, strikes: int },
    /// The last `reach` bytes of the file, for a probe that has no line
    /// left to read.
    LookingBack { reach: int },
    /// The line after `hit`, to see whether the run of its instant goes on.
    Following { hit: Hit },
    /// Nothing: the search is over.
    Over,
}

/// What a `Search` is in contracts.
pub struct SearchView {
    pub needle: Datetime,
    /// The length of the file.
    pub size: int,
    /// The bisection goes over positions `start..=end`; `mid` is the one
    /// that is being probed.
    pub start: int,
    pub end: int,
    pub mid: int,
    pub stage: StageView,
}

/// The bytes that a search asks for.
pub enum Pending {
    /// The line that begins at this position: the bytes from there up to and
    /// with the next line feed, or to the end of the file.
    Line(int),
    /// The bytes from this position to the end of the file.
    Tail(int),
    Nothing,
}

/// The bytes asked for lie in a file of `size` bytes.
pub open spec fn within(wanted: Pending, size: int) -> bool {
    match wanted {
        Pending::Line(at) => 0 <= at < size,
        Pending::Tail(from) => 0 <= from <= size,
        Pending::Nothing => true,
    }
}

/// What the search in `state` asks for.
pub open spec fn pending(state: SearchView) -> Pending {
    match state.stage {
        StageView::Skipping => Pending::Line(state.mid - 1),
        StageView::Reading { at, strikes } => Pending::Line(at),
        StageView::LookingBack { reach } => Pending::Tail(state.size - reach),
        StageView::Following { hit } => Pending::Line(hit.next),
        StageView::Over => Pending::Nothing,
    }
}

/// `answer` is what the file `data` holds where the search in `state` asks.
pub open spec fn faithful(state: SearchView, data: Seq<u8>, answer: Seq<u8>) -> bool {
    &&& data.len() == state.size
    &&& answer == match pending(state) {
        Pending::Line(at) => data.subrange(at, line_end(data, at)),
        Pending::Tail(from) => data.subrange(from, data.len() as int),
        Pending::Nothing => Seq::empty(),
    }
}

/// `data` is a file of `size` bytes.
pub open spec fn of_size(data: Seq<u8>, size: int) -> bool {
    data.len() == size
}

/// How the bisection over `start..=end` goes on once the probe at `mid` has
/// come back.
pub open spec fn after_probe<L: Logger>(
    data: Seq<u8>,
    needle: Datetime,
    start: int,
    end: int,
    mid: int,
    probed: Probed,
) -> Option<Hit> {
    match probed {
        Probed::Failed => None,
        Probed::Nothing => if mid == 0 {
            None
        } else {
            search::<L>(data, needle, start, mid - 1)
        },
        Probed::Found(hit) => if hit.instant.earlier_than(needle) {
            search::<L>(data, needle, mid + 1, end)
        } else if needle.earlier_than(hit.instant) {
            if mid == 0 {
                None
            } else {
                search::<L>(data, needle, start, mid - 1)
            }
        } else {
            Some(end_of_run::<L>(data, hit))
        },
    }
}

/// What the search in `state` will come to on the file `data`.
pub open spec fn outcome<L: Logger>(state: SearchView, data: Seq<u8>) -> Option<Hit> {
    match state.stage {
        StageView::Skipping => after_probe::<L>(
            data,
            state.needle,
            state.start,
            state.end,
            state.mid,
            probed::<L>(data, state.mid),
        ),
        StageView::Reading { at, strikes } => after_probe::<L>(
            data,
            state.needle,
            state.start,
            state.end,
            state.mid,
            first_event::<L>(data, at, strikes),
        ),
        StageView::LookingBack { reach } => after_probe::<L>(
            data,
            state.needle,
            state.start,
            state.end,
            state.mid,
            last_event::<L>(data),
        ),
        StageView::Following { hit } => Some(end_of_run::<L>(data, hit)),
        StageView::Over => None,
    }
}

/// How much is left for the search in `state` to do: the width of the
/// bisection, then the stage of the probe, then the bytes not yet covered.
/// None of the three goes below 0, and every step makes the triple less, so
/// a search ends.
pub open spec fn left(state: SearchView) -> (int, int, int) {
    match state.stage {
        StageView::Skipping => (state.end - state.start, 3, 0),
        StageView::Reading { at, strikes } => (state.end - state.start, 2, state.size - at),
        StageView::LookingBack { reach } => (
            state.end - state.start,
            1,
            state.size - reach,
        ),
        StageView::Following { hit } => (state.end - state.start, 0, state.size - hit.next),
        StageView::Over => (0, 0, 0),
    }
}

/// Less is left in `after` than in `before`.
pub open spec fn less_left(after: (int, int, int), before: (int, int, int)) -> bool {
    after.0 < before.0 || (after.0 == before.0 && (after.1 < before.1 || (after.1 == before.1
        && after.2 < before.2)))
}

/// What a step asks of the file, or what the search has come to.
#[derive(Debug, PartialEq)]
pub enum Ask {
    /// The line that begins at this position: the bytes from there up to and
    /// with the next line feed, or to the end of the file.
    Line(usize),
    /// The bytes from this position to the end of the file.
    Tail(usize),
    /// The search is over: the event to resume after and the position just
    /// past its line, or nothing.
    Done(Option<(DatedIrcLine, usize)>),
}

impl Ask {
    /// The bytes asked for.
    pub open spec fn wanted(&self) -> Pending {
        match self {
            Ask::Line(at) => Pending::Line(*at as int),
            Ask::Tail(from) => Pending::Tail(*from as int),
            Ask::Done(_) => Pending::Nothing,
        }
    }
}

/// What a search has come to after a step: the result where it is over, and
/// else what it will come to.
pub open spec fn coming<L: Logger>(state: SearchView, ask: Ask, data: Seq<u8>) -> Option<Hit> {
    match ask {
        Ask::Done(found) => hit_of_option(found),
        _ => outcome::<L>(state, data),
    }
}

enum Stage {
    Skipping,
    Reading { at: usize, strikes: u8 },
    LookingBack { reach: usize },
    Following { found: DatedIrcLine, next: usize },
    Over,
}

/// A resume search that is under way. `begin` gives the first thing to ask
/// of the file; every answer goes to `step`, which gives the next, until it
/// says `Done`.
pub struct Search {
    needle: Datetime,
    size: usize,
    start: usize,
    end: usize,
    mid: usize,
    stage: Stage,
}

impl View for Search {
    type V = SearchView;

    closed spec fn view(&self) -> SearchView {
        SearchView {
            needle: self.needle,
            size: self.size as int,
            start: self.start as int,
            end: self.end as int,
            mid: self.mid as int,
            stage: match self.stage {
                Stage::Skipping => StageView::Skipping,
                Stage::Reading { at, strikes } => StageView::Reading {
                    at: at as int,
                    strikes: strikes as int,
                },
                Stage::LookingBack { reach } => StageView::LookingBack { reach: reach as int },
                Stage::Following { found, next } => StageView::Following {
                    hit: hit_of((found, next)),
                },
                Stage::Over => StageView::Over,
            },
        }
    }
}

impl Search {
    #[verifier::type_invariant]
    spec fn sound(self) -> bool {
        &&& self.start <= self.mid <= self.end <= self.size
        &&& match self.stage {
            Stage::Skipping => 0 < self.mid < self.size,
            Stage::Reading { at, strikes } => self.mid <= at < self.size && strikes < RETRIES,
            Stage::LookingBack { reach } => 0 < reach <= self.size,
            Stage::Following { found, next } => next < self.size,
            Stage::Over => true,
        }
    }

    /// Begins the probe at the middle of `start..=end`.
    fn enter<L: Logger>(needle: Datetime, size: usize, start: usize, end: usize) -> (r: (
        Search,
        Ask,
    ))
        requires
            start <= end <= size,
            0 < size,
        ensures
            r.1.wanted() == pending(r.0@),
            !(r.1 is Done),
            r.0@.needle == needle && r.0@.size == size,
            r.0@.end - r.0@.start == end - start,
            forall|data: Seq<u8>| #[trigger]
                of_size(data, size as int) ==> outcome::<L>(r.0@, data) == search::<L>(
                    data,
                    needle,
                    start as int,
                    end as int,
                ),
    {
        let mid = start + (end - start) / 2;
        if mid == 0 {
            (
                Search { needle, size, start, end, mid, stage: Stage::Reading { at: mid, strikes: 0 } },
                Ask::Line(mid),
            )
        } else if mid < size {
            (Search { needle, size, start, end, mid, stage: Stage::Skipping }, Ask::Line(mid - 1))
        } else {
            let reach = if LOOKBACK < size {
                LOOKBACK
            } else {
                size
            };
            (
                Search {
                    needle,
                    size,
                    start,
                    end,
                    mid,
                    stage: Stage::LookingBack { reach },
                },
                Ask::Tail(size - reach),
            )
        }
    }

    /// A search that is over.
    fn over(needle: Datetime, size: usize, found: Option<(DatedIrcLine, usize)>) -> (r: (
        Search,
        Ask,
    ))
        requires
            found matches Some(found) ==> found.1 <= size,
        ensures
            r.1 == Ask::Done(found),
            r.1.wanted() == pending(r.0@),
            r.0@.needle == needle && r.0@.size == size,
    {
        (Search { needle, size, start: 0, end: 0, mid: 0, stage: Stage::Over }, Ask::Done(found))
    }

    /// Takes the bisection on from what the probe at `mid` came back with.
    fn turn<L: Logger>(
        needle: Datetime,
        size: usize,
        start: usize,
        end: usize,
        mid: usize,
        probe: Probe,
    ) -> (r: (Search, Ask))
        requires
            start <= mid <= end <= size,
            0 < size,
            probe matches Probe::Found(_, next) ==> next <= size,
        ensures
            r.1.wanted() == pending(r.0@),
            r.0@.needle == needle && r.0@.size == size,
            r.1 matches Ask::Done(Some(found)) ==> found.1 <= size,
            !(r.1 is Done) ==> left(r.0@).0 < end - start || (left(r.0@).0 == end - start && left(
                r.0@,
            ).1 == 0),
            forall|data: Seq<u8>| #[trigger]
                of_size(data, size as int) ==> coming::<L>(r.0@, r.1, data) == after_probe::<L>(
                    data,
                    needle,
                    start as int,
                    end as int,
                    mid as int,
                    probe@,
                ),
    {
        let go_left = match &probe {
            Probe::Failed => {
                return Search::over(needle, size, None);
            },
            Probe::Nothing => true,
            Probe::Found(dated, next) => {
                if dated.0.is_before(&needle) {
                    false
                } else if dated.0.is_after(&needle) {
                    true
                } else {
                    return match probe {
                        Probe::Found(dated, next) => {
                            if next >= size {
                                Search::over(needle, size, Some((dated, next)))
                            } else {
                                (
                                    Search {
                                        needle,
                                        size,
                                        start,
                                        end,
                                        mid,
                                        stage: Stage::Following { found: dated, next },
                                    },
                                    Ask::Line(next),
                                )
                            }
                        },
                        _ => Search::over(needle, size, None),
                    };
                }
            },
        };
        if go_left {
            if mid == 0 || mid == start {
                Search::over(needle, size, None)
            } else {
                Search::enter::<L>(needle, size, start, mid - 1)
            }
        } else {
            if mid == end {
                Search::over(needle, size, None)
            } else {
                Search::enter::<L>(needle, size, mid + 1, end)
            }
        }
    }

    /// What a probe goes on with when it is to read at `at`: the line there,
    /// or at the end of the file the last line, if the probe is `fresh` and
    /// has read no line yet; a probe that has read its way to the end has
    /// found nothing.
    fn go_on<L: Logger>(
        needle: Datetime,
        size: usize,
        start: usize,
        end: usize,
        mid: usize,
        at: usize,
        strikes: u8,
        fresh: bool,
    ) -> (r: (Search, Ask))
        requires
            start <= mid <= end <= size,
            mid <= at <= size,
            0 < size,
            strikes < RETRIES,
        ensures
            r.1.wanted() == pending(r.0@),
            r.0@.needle == needle && r.0@.size == size,
            r.1 matches Ask::Done(Some(found)) ==> found.1 <= size,
            !(r.1 is Done) ==> left(r.0@).0 < end - start || (left(r.0@).0 == end - start && (left(
                r.0@,
            ).1 < 2 || left(r.0@) == (end - start, 2int, size - at))),
            forall|data: Seq<u8>| #[trigger]
                of_size(data, size as int) ==> coming::<L>(r.0@, r.1, data) == after_probe::<L>(
                    data,
                    needle,
                    start as int,
                    end as int,
                    mid as int,
                    if at < size {
                        first_event::<L>(data, at as int, strikes as int)
                    } else if fresh {
                        last_event::<L>(data)
                    } else {
                        Probed::Nothing
                    },
                ),
    {
        if at < size {
            (
                Search { needle, size, start, end, mid, stage: Stage::Reading { at, strikes } },
                Ask::Line(at),
            )
        } else if fresh {
            let reach = if LOOKBACK < size {
                LOOKBACK
            } else {
                size
            };
            (
                Search { needle, size, start, end, mid, stage: Stage::LookingBack { reach } },
                Ask::Tail(size - reach),
            )
        } else {
            Search::turn::<L>(needle, size, start, end, mid, Probe::Nothing)
        }
    }

    /// Begins the search for `needle` in a file of `size` bytes.
    pub fn begin<L: Logger>(size: usize, needle: Datetime) -> (r: (Search, Ask))
        ensures
            r.1.wanted() == pending(r.0@),
            within(r.1.wanted(), size as int),
            left(r.0@).0 >= 0 && left(r.0@).2 >= 0,
            r.1 matches Ask::Done(Some(found)) ==> found.1 <= size,
            r.0@.needle == needle && r.0@.size == size,
            forall|data: Seq<u8>| #[trigger]
                of_size(data, size as int) ==> coming::<L>(r.0@, r.1, data) == resume_point::<L>(
                    data,
                    needle,
                ),
    {
        let r = if size == 0 {
            Search::over(needle, size, None)
        } else {
            Search::enter::<L>(needle, size, 0, size)
        };
        proof {
            use_type_invariant(&r.0);
        }
        r
    }

    /// The step of a search that waits for the line before the middle.
    fn skipped<L: Logger>(
        needle: Datetime,
        size: usize,
        start: usize,
        end: usize,
        mid: usize,
        answer: &[u8],
        Ghost(before): Ghost<SearchView>,
    ) -> (r: (Search, Ask))
        requires
            start <= mid <= end <= size,
            0 < size,
            0 < mid < size,
            before == (SearchView {
                needle,
                size: size as int,
                start: start as int,
                end: end as int,
                mid: mid as int,
                stage: StageView::Skipping,
            }),
        ensures
            r.1.wanted() == pending(r.0@),
            r.0@.needle == needle && r.0@.size == size,
            r.1 matches Ask::Done(Some(found)) ==> found.1 <= size,
            !(r.1 is Done) ==> less_left(left(r.0@), left(before)),
            forall|data: Seq<u8>| #[trigger]
                faithful(before, data, answer@) ==> coming::<L>(r.0@, r.1, data) == outcome::<L>(
                    before,
                    data,
                ),
    {
        if answer.len() == 0 || answer.len() > size - (mid - 1) {
            proof {
                assert forall|data: Seq<u8>| #[trigger]
                    faithful(before, data, answer@) implies false by {
                    lemma_line_end(data, mid - 1);
                }
            }
            Search::over(needle, size, None)
        } else {
            let at = if answer.len() == 1 && answer[0] == LINE_FEED {
                mid
            } else {
                mid - 1 + answer.len()
            };
            let r = Search::go_on::<L>(needle, size, start, end, mid, at, 0, true);
            proof {
                assert forall|data: Seq<u8>| #[trigger]
                    faithful(before, data, answer@) implies coming::<L>(r.0@, r.1, data)
                    == outcome::<L>(before, data) by {
                    lemma_line_end(data, mid - 1);
                    lemma_line_end(data, mid as int);
                    assert(of_size(data, size as int));
                    assert(answer@[0] == data[mid - 1]);
                    assert(probe_start(data, mid as int) == at);
                }
            }
            r
        }
    }

    /// The step of a search that waits for the next line of a probe.
    fn read<L: Logger>(
        logger: &L,
        needle: Datetime,
        size: usize,
        start: usize,
        end: usize,
        mid: usize,
        at: usize,
        strikes: u8,
        answer: &[u8],
        Ghost(before): Ghost<SearchView>,
    ) -> (r: (Search, Ask))
        requires
            start <= mid <= end <= size,
            0 < size,
            mid <= at < size,
            strikes < RETRIES,
            before == (SearchView {
                needle,
                size: size as int,
                start: start as int,
                end: end as int,
                mid: mid as int,
                stage: StageView::Reading { at: at as int, strikes: strikes as int },
            }),
        ensures
            r.1.wanted() == pending(r.0@),
            r.0@.needle == needle && r.0@.size == size,
            r.1 matches Ask::Done(Some(found)) ==> found.1 <= size,
            !(r.1 is Done) ==> less_left(left(r.0@), left(before)),
            forall|data: Seq<u8>| #[trigger]
                faithful(before, data, answer@) ==> coming::<L>(r.0@, r.1, data) == outcome::<L>(
                    before,
                    data,
                ),
    {
        if answer.len() == 0 || answer.len() > size - at {
            proof {
                assert forall|data: Seq<u8>| #[trigger]
                    faithful(before, data, answer@) implies false by {
                    lemma_line_end(data, at as int);
                }
            }
            Search::over(needle, size, None)
        } else {
            let stop = at + answer.len();
            let parsed = read_line(logger, answer, 0, answer.len());
            let r = match parsed {
                ParseResult::Parsed(dated) => Search::turn::<L>(
                    needle,
                    size,
                    start,
                    end,
                    mid,
                    Probe::Found(dated, stop),
                ),
                ParseResult::Invalid => {
                    if strikes + 1 >= RETRIES {
                        Search::over(needle, size, None)
                    } else {
                        Search::go_on::<L>(
                            needle,
                            size,
                            start,
                            end,
                            mid,
                            stop,
                            strikes + 1,
                            false,
                        )
                    }
                },
                ParseResult::Noise => Search::go_on::<L>(
                    needle,
                    size,
                    start,
                    end,
                    mid,
                    stop,
                    0,
                    false,
                ),
            };
            proof {
                assert(answer@.subrange(0, answer.len() as int) =~= answer@);
                assert forall|data: Seq<u8>| #[trigger]
                    faithful(before, data, answer@) implies coming::<L>(r.0@, r.1, data)
                    == outcome::<L>(before, data) by {
                    lemma_line_end(data, at as int);
                    assert(of_size(data, size as int));
                    assert(line_end(data, at as int) == stop);
                }
            }
            r
        }
    }

    /// The step of a search that waits for the end of the file.
    fn looked_back<L: Logger>(
        logger: &L,
        needle: Datetime,
        size: usize,
        start: usize,
        end: usize,
        mid: usize,
        reach: usize,
        answer: &[u8],
        Ghost(before): Ghost<SearchView>,
    ) -> (r: (Search, Ask))
        requires
            start <= mid <= end <= size,
            0 < size,
            0 < reach <= size,
            before == (SearchView {
                needle,
                size: size as int,
                start: start as int,
                end: end as int,
                mid: mid as int,
                stage: StageView::LookingBack { reach: reach as int },
            }),
        ensures
            r.1.wanted() == pending(r.0@),
            r.0@.needle == needle && r.0@.size == size,
            r.1 matches Ask::Done(Some(found)) ==> found.1 <= size,
            !(r.1 is Done) ==> less_left(left(r.0@), left(before)),
            forall|data: Seq<u8>| #[trigger]
                faithful(before, data, answer@) ==> coming::<L>(r.0@, r.1, data) == outcome::<L>(
                    before,
                    data,
                ),
    {
        proof {
            assert forall|data: Seq<u8>| #[trigger]
                faithful(before, data, answer@) implies (line_in_tail(
                answer@,
                reach == size,
            ) matches Some(text) ==> text == last_line(data)) && (line_in_tail(
                answer@,
                reach == size,
            ) is None ==> reach < size) by {
                lemma_line_in_tail(data, size - reach);
            }
        }
        match last_line_in(answer, reach == size) {
            None => {
                if reach == size {
                    Search::over(needle, size, None)
                } else {
                    let wider = if reach <= size - reach {
                        reach * 2
                    } else {
                        size
                    };
                    (
                        Search {
                            needle,
                            size,
                            start,
                            end,
                            mid,
                            stage: Stage::LookingBack { reach: wider },
                        },
                        Ask::Tail(size - wider),
                    )
                }
            },
            Some(last) => {
                let parsed = match last {
                    Some(text) => logger.parse_line(text.as_str()),
                    None => ParseResult::Invalid,
                };
                let probe = match parsed {
                    ParseResult::Parsed(dated) => Probe::Found(dated, size),
                    _ => Probe::Nothing,
                };
                let ghost probed = probe@;
                let r = Search::turn::<L>(needle, size, start, end, mid, probe);
                proof {
                    assert forall|data: Seq<u8>| #[trigger]
                        faithful(before, data, answer@) implies coming::<L>(
                        r.0@,
                        r.1,
                        data,
                    ) == outcome::<L>(before, data) by {
                        assert(of_size(data, size as int));
                        assert(last_event::<L>(data) == probed);
                    }
                }
                r
            },
        }
    }

    /// The step of a search that waits for the line after a hit.
    fn followed<L: Logger>(
        logger: &L,
        needle: Datetime,
        size: usize,
        start: usize,
        end: usize,
        mid: usize,
        found: DatedIrcLine,
        next: usize,
        answer: &[u8],
        Ghost(before): Ghost<SearchView>,
    ) -> (r: (Search, Ask))
        requires
            start <= mid <= end <= size,
            0 < size,
            next < size,
            before == (SearchView {
                needle,
                size: size as int,
                start: start as int,
                end: end as int,
                mid: mid as int,
                stage: StageView::Following { hit: hit_of((found, next)) },
            }),
        ensures
            r.1.wanted() == pending(r.0@),
            r.0@.needle == needle && r.0@.size == size,
            r.1 matches Ask::Done(Some(found)) ==> found.1 <= size,
            !(r.1 is Done) ==> less_left(left(r.0@), left(before)),
            forall|data: Seq<u8>| #[trigger]
                faithful(before, data, answer@) ==> coming::<L>(r.0@, r.1, data) == outcome::<L>(
                    before,
                    data,
                ),
    {
        if answer.len() == 0 || answer.len() > size - next {
            proof {
                assert forall|data: Seq<u8>| #[trigger]
                    faithful(before, data, answer@) implies false by {
                    lemma_line_end(data, next as int);
                }
            }
            Search::over(needle, size, Some((found, next)))
        } else {
            let stop = next + answer.len();
            let parsed = read_line(logger, answer, 0, answer.len());
            let ghost hit = hit_of((found, next));
            let ghost read = parsed@;
            let r = match parsed {
                ParseResult::Parsed(later) => {
                    if later.0 == found.0 {
                        if stop >= size {
                            Search::over(needle, size, Some((later, stop)))
                        } else {
                            (
                                Search {
                                    needle,
                                    size,
                                    start,
                                    end,
                                    mid,
                                    stage: Stage::Following { found: later, next: stop },
                                },
                                Ask::Line(stop),
                            )
                        }
                    } else {
                        Search::over(needle, size, Some((found, next)))
                    }
                },
                _ => Search::over(needle, size, Some((found, next))),
            };
            proof {
                assert(answer@.subrange(0, answer.len() as int) =~= answer@);
                assert forall|data: Seq<u8>| #[trigger]
                    faithful(before, data, answer@) implies coming::<L>(r.0@, r.1, data)
                    == outcome::<L>(before, data) by {
                    lemma_line_end(data, next as int);
                    assert(line_end(data, next as int) == stop);
                    if let Meaning::Event(instant, event) = read {
                        if instant == hit.instant && stop >= size {
                            let last = Hit { instant, event, next: stop as int };
                            assert(end_of_run::<L>(data, last) == last);
                        }
                    }
                }
            }
            r
        }
    }

    /// Takes the bytes that the step before asked for and says what is
    /// wanted next. Where `answer` is what the file holds there, the search
    /// comes to what it would have come to before the step, and ever less
    /// is left to do. Bytes that cannot be what was asked for end the
    /// search.
    pub fn step<L: Logger>(&mut self, logger: &L, answer: &[u8]) -> (ask: Ask)
        ensures
            ask.wanted() == pending(final(self)@),
            final(self)@.needle == old(self)@.needle && final(self)@.size == old(self)@.size,
            ask matches Ask::Done(Some(found)) ==> found.1 <= final(self)@.size,
            within(ask.wanted(), final(self)@.size),
            left(final(self)@).0 >= 0 && left(final(self)@).2 >= 0,
            !(ask is Done) ==> less_left(left(final(self)@), left(old(self)@)),
            forall|data: Seq<u8>| #[trigger]
                faithful(old(self)@, data, answer@) ==> coming::<L>(final(self)@, ask, data)
                    == outcome::<L>(old(self)@, data),
    {
        proof {
            use_type_invariant(&*self);
        }
        let ghost before = self@;
        let needle = self.needle;
        let size = self.size;
        let start = self.start;
        let end = self.end;
        let mid = self.mid;
        let mut stage = Stage::Over;
        core::mem::swap(&mut self.stage, &mut stage);
        let next = match stage {
            Stage::Over => Search::over(needle, size, None),
            Stage::Skipping => Search::skipped::<L>(
                needle,
                size,
                start,
                end,
                mid,
                answer,
                Ghost(before),
            ),
            Stage::Reading { at, strikes } => Search::read(
                logger,
                needle,
                size,
                start,
                end,
                mid,
                at,
                strikes,
                answer,
                Ghost(before),
            ),
            Stage::LookingBack { reach } => Search::looked_back(
                logger,
                needle,
                size,
                start,
                end,
                mid,
                reach,
                answer,
                Ghost(before),
            ),
            Stage::Following { found, next } => Search::followed(
                logger,
                needle,
                size,
                start,
                end,
                mid,
                found,
                next,
                answer,
                Ghost(before),
            ),
        };
        let (state, ask) = next;
        *self = state;
        proof {
            use_type_invariant(&*self);
        }
        ask
    }
}

} // verus!

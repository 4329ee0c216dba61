//! A log file as bytes in memory: where its lines end, what text a line
//! holds, and a reader that keeps a position in it.

use vstd::prelude::*;
use vstd::slice::slice_subrange;
use vstd::utf8::{decode_utf8, encode_utf8_decode_utf8, valid_utf8};
use crate::trusted::from_utf8;

verus! {

/// The byte that ends a line.
pub const LINE_FEED: u8 = 10;

/// The byte that may stand before a line feed and then belongs to the line's
/// end too.
pub const CARRIAGE_RETURN: u8 = 13;

/// The position just past the first line feed at or after `from`; the length
/// of `data` where no line feed follows.
pub open spec fn line_end(data: Seq<u8>, from: int) -> int
    decreases data.len() - from,
{
    if from >= data.len() {
        data.len() as int
    } else if data[from] == LINE_FEED {
        from + 1
    } else {
        line_end(data, from + 1)
    }
}

/// Where `line_end` lands: past `from` unless the data is used up, never
/// past the end, and directly behind the first line feed it meets.
pub proof fn lemma_line_end(data: Seq<u8>, from: int)
    requires
        0 <= from <= data.len(),
    ensures
        from <= line_end(data, from) <= data.len(),
        from < data.len() ==> from < line_end(data, from),
        forall|k: int| from <= k < line_end(data, from) - 1 ==> data[k] != LINE_FEED,
        line_end(data, from) < data.len() ==> data[line_end(data, from) - 1] == LINE_FEED,
    decreases data.len() - from,
{
    if from < data.len() && data[from] != LINE_FEED {
        lemma_line_end(data, from + 1);
    }
}

/// Finds the end of the line that `from` lies in.
pub fn find_line_end(data: &[u8], from: usize) -> (r: usize)
    requires
        from <= data.len(),
    ensures
        r == line_end(data@, from as int),
        from <= r <= data.len(),
        from < data.len() ==> from < r,
{
    proof {
        lemma_line_end(data@, from as int);
    }
    let mut i: usize = from;
    while i < data.len()
        invariant
            from <= i <= data.len(),
            line_end(data@, from as int) == line_end(data@, i as int),
        decreases data.len() - i,
    {
        if data[i] == LINE_FEED {
            return i + 1;
        }
        i = i + 1;
    }
    i
}

/// The position of the last line feed in `data`, or -1 where it holds none.
pub open spec fn last_line_feed(data: Seq<u8>) -> int
    decreases data.len(),
{
    if data.len() == 0 {
        -1
    } else if data.last() == LINE_FEED {
        data.len() - 1
    } else {
        last_line_feed(data.drop_last())
    }
}

/// Where `last_line_feed` lands: on a line feed that no other follows.
pub proof fn lemma_last_line_feed(data: Seq<u8>)
    ensures
        -1 <= last_line_feed(data) < data.len(),
        last_line_feed(data) >= 0 ==> data[last_line_feed(data)] == LINE_FEED,
        forall|k: int| last_line_feed(data) < k < data.len() ==> data[k] != LINE_FEED,
    decreases data.len(),
{
    if data.len() > 0 && data.last() != LINE_FEED {
        lemma_last_line_feed(data.drop_last());
        assert forall|k: int| last_line_feed(data) < k < data.len() implies data[k]
            != LINE_FEED by {
            if k < data.len() - 1 {
                assert(data.drop_last()[k] == data[k]);
            }
        }
    }
}

/// The last line feed of two stretches put together is the last one of the
/// second stretch, or else the last one of the first.
pub proof fn lemma_last_line_feed_of_two(head: Seq<u8>, tail: Seq<u8>)
    ensures
        last_line_feed(head + tail) == if last_line_feed(tail) >= 0 {
            head.len() + last_line_feed(tail)
        } else {
            last_line_feed(head)
        },
    decreases tail.len(),
{
    if tail.len() == 0 {
        assert(head + tail =~= head);
    } else {
        assert((head + tail).drop_last() =~= head + tail.drop_last());
        if tail.last() != LINE_FEED {
            lemma_last_line_feed_of_two(head, tail.drop_last());
        }
    }
}

/// A line that ends within the first of two stretches ends at the same
/// place when the second stretch is left out.
pub proof fn lemma_line_end_in_head(head: Seq<u8>, tail: Seq<u8>, from: int)
    requires
        0 <= from < head.len(),
        head.last() == LINE_FEED,
    ensures
        line_end(head + tail, from) == line_end(head, from),
        line_end(head, from) <= head.len(),
        (head + tail).subrange(from, line_end(head, from)) == head.subrange(
            from,
            line_end(head, from),
        ),
    decreases head.len() - from,
{
    lemma_line_end(head, from);
    if head[from] != LINE_FEED {
        assert(from < head.len() - 1);
        lemma_line_end_in_head(head, tail, from + 1);
    }
    assert((head + tail).subrange(from, line_end(head, from)) =~= head.subrange(
        from,
        line_end(head, from),
    ));
}

/// The lines of the second of two stretches end where they end when the
/// first stretch is left out, moved by its length.
pub proof fn lemma_line_end_in_tail(head: Seq<u8>, tail: Seq<u8>, from: int)
    requires
        0 <= from <= tail.len(),
    ensures
        line_end(head + tail, head.len() + from) == head.len() + line_end(tail, from),
        (head + tail).subrange(head.len() + from, head.len() + line_end(tail, from))
            == tail.subrange(from, line_end(tail, from)),
    decreases tail.len() - from,
{
    lemma_line_end(tail, from);
    if from < tail.len() && tail[from] != LINE_FEED {
        lemma_line_end_in_tail(head, tail, from + 1);
    }
    assert((head + tail).subrange(head.len() + from, head.len() + line_end(tail, from))
        =~= tail.subrange(from, line_end(tail, from)));
}

/// Finds the last line feed in `data`.
pub fn find_last_line_feed(data: &[u8]) -> (r: Option<usize>)
    ensures
        match r {
            Some(at) => at == last_line_feed(data@) && at < data.len(),
            None => last_line_feed(data@) == -1,
        },
{
    let mut i: usize = data.len();
    proof {
        assert(data@.take(i as int) =~= data@);
    }
    while i > 0
        invariant
            i <= data.len(),
            last_line_feed(data@) == last_line_feed(data@.take(i as int)),
        decreases i,
    {
        proof {
            assert(data@.take(i as int).drop_last() =~= data@.take(i - 1));
        }
        if data[i - 1] == LINE_FEED {
            return Some(i - 1);
        }
        i = i - 1;
    }
    None
}

/// The text that `bytes` encode, where they are valid UTF-8.
pub open spec fn text_of(bytes: Seq<u8>) -> Option<Seq<char>> {
    if valid_utf8(bytes) {
        Some(decode_utf8(bytes))
    } else {
        None
    }
}

/// Decodes `bytes` as UTF-8.
pub fn decode(bytes: &[u8]) -> (r: Option<&str>)
    ensures
        r.deep_view() == text_of(bytes@),
{
    let r = from_utf8(bytes);
    proof {
        if let Some(text) = r {
            encode_utf8_decode_utf8(text@);
        }
    }
    r
}

/// A line without the line feed at its end. A line that was cut off before
/// its line feed is left as it is.
pub open spec fn without_line_feed(line: Seq<u8>) -> Seq<u8> {
    if line.len() > 0 && line.last() == LINE_FEED {
        line.drop_last()
    } else {
        line
    }
}

/// The text of a line as the resume search reads it: its bytes without the
/// line feed, read as UTF-8.
pub open spec fn bare_text(line: Seq<u8>) -> Option<Seq<char>> {
    text_of(without_line_feed(line))
}

/// Decodes bytes `from..to` of `data` without the line feed at their end.
pub fn bare(data: &[u8], from: usize, to: usize) -> (r: Option<&str>)
    requires
        from <= to <= data.len(),
    ensures
        r.deep_view() == bare_text(data@.subrange(from as int, to as int)),
{
    let ghost line = data@.subrange(from as int, to as int);
    let mut stop: usize = to;
    if from < stop && data[stop - 1] == LINE_FEED {
        stop = stop - 1;
        proof {
            assert(line.drop_last() =~= data@.subrange(from as int, stop as int));
        }
    }
    decode(slice_subrange(data, from, stop))
}

/// A line without its end: without the final line feed, and without a
/// carriage return in front of that. A line that was cut off before its line
/// feed is left as it is.
pub open spec fn without_line_end(line: Seq<u8>) -> Seq<u8> {
    if line.len() > 0 && line.last() == LINE_FEED {
        let rest = line.drop_last();
        if rest.len() > 0 && rest.last() == CARRIAGE_RETURN {
            rest.drop_last()
        } else {
            rest
        }
    } else {
        line
    }
}

/// The text of a line as a line-by-line reader hands it out: its bytes
/// without the line end, read as UTF-8.
pub open spec fn line_text(line: Seq<u8>) -> Option<Seq<char>> {
    text_of(without_line_end(line))
}

/// Decodes bytes `from..to` of `data` without their line end.
pub fn trim(data: &[u8], from: usize, to: usize) -> (r: Option<&str>)
    requires
        from <= to <= data.len(),
    ensures
        r.deep_view() == line_text(data@.subrange(from as int, to as int)),
{
    let ghost line = data@.subrange(from as int, to as int);
    let mut stop: usize = to;
    if from < stop && data[stop - 1] == LINE_FEED {
        stop = stop - 1;
        proof {
            assert(line.drop_last() =~= data@.subrange(from as int, stop as int));
        }
        if from < stop && data[stop - 1] == CARRIAGE_RETURN {
            stop = stop - 1;
            proof {
                assert(line.drop_last().drop_last() =~= data@.subrange(from as int, stop as int));
            }
        }
    }
    decode(slice_subrange(data, from, stop))
}

/// Where the last line of `data` begins: just past the last line feed that
/// is not the final byte, or at position 0.
pub open spec fn last_start(data: Seq<u8>) -> int {
    if data.len() > 0 && data.last() == LINE_FEED {
        last_line_feed(data.drop_last()) + 1
    } else {
        last_line_feed(data) + 1
    }
}

/// The last line of `data`, with its line feed where it has one. A file
/// whose last line was not ended by a line feed has that line all the same.
pub open spec fn last_record(data: Seq<u8>) -> Seq<u8> {
    data.subrange(last_start(data), data.len() as int)
}

/// A line of `data` begins at `at`.
pub open spec fn line_start(data: Seq<u8>, at: int) -> bool {
    0 <= at < data.len() && (at == 0 || data[at - 1] == LINE_FEED)
}

/// The last line begins at `last_start`, ends with the data, and no line
/// begins after it.
pub proof fn lemma_last_start(data: Seq<u8>)
    requires
        data.len() > 0,
    ensures
        line_start(data, last_start(data)),
        line_end(data, last_start(data)) == data.len(),
        forall|s: int| line_start(data, s) ==> s <= last_start(data),
{
    let body = if data.last() == LINE_FEED {
        data.drop_last()
    } else {
        data
    };
    let feed = last_line_feed(body);
    lemma_last_line_feed(body);
    assert(forall|k: int| 0 <= k < body.len() ==> body[k] == data[k]);
    lemma_line_end(data, feed + 1);
    let e = line_end(data, feed + 1);
    if e < data.len() {
        assert(body[e - 1] != LINE_FEED);
    }
    assert forall|s: int| line_start(data, s) implies s <= feed + 1 by {
        if s > feed + 1 {
            assert(body[s - 1] != LINE_FEED);
        }
    }
}

/// A log file held in memory, with the position where reading goes on.
pub struct LogReader {
    bytes: Vec<u8>,
    at: usize,
}

impl LogReader {
    #[verifier::type_invariant]
    spec fn in_bounds(self) -> bool {
        self.at <= self.bytes.len()
    }

    /// The bytes of the file.
    pub closed spec fn content(&self) -> Seq<u8> {
        self.bytes@
    }

    /// The position where reading goes on, counted in bytes from the start.
    pub closed spec fn cursor(&self) -> int {
        self.at as int
    }

    /// A reader at the start of `bytes`.
    pub fn new(bytes: Vec<u8>) -> (r: LogReader)
        ensures
            r.content() == bytes@,
            r.cursor() == 0,
    {
        LogReader { bytes, at: 0 }
    }

    pub fn bytes(&self) -> (r: &[u8])
        ensures
            r@ == self.content(),
    {
        self.bytes.as_slice()
    }

    pub fn len(&self) -> (r: usize)
        ensures
            r == self.content().len(),
    {
        self.bytes.len()
    }

    pub fn position(&self) -> (r: usize)
        ensures
            r == self.cursor(),
            r <= self.content().len(),
    {
        proof {
            use_type_invariant(self);
        }
        self.at
    }

    /// Moves to position `to`, or to the end where `to` lies beyond it.
    pub fn seek(&mut self, to: usize)
        ensures
            final(self).content() == old(self).content(),
            final(self).cursor() == if to <= old(self).content().len() {
                to as int
            } else {
                old(self).content().len() as int
            },
    {
        if to <= self.bytes.len() {
            self.at = to;
        } else {
            self.at = self.bytes.len();
        }
    }

    /// Moves to the end and says where that is.
    pub fn seek_end(&mut self) -> (r: usize)
        ensures
            final(self).content() == old(self).content(),
            final(self).cursor() == old(self).content().len(),
            r == old(self).content().len(),
    {
        self.at = self.bytes.len();
        self.at
    }
}

} // verus!

//! Tailing: the lines that are appended to a log file while the program
//! runs.

use vstd::prelude::*;
use vstd::slice::slice_subrange;
use crate::backfill::{lemma_records_of_two, read_records, records_from};
use crate::line::Logger;
use crate::model::{ChannelName, NewMessage, NewMessageView, ServerChannel};
use crate::read::{
    find_last_line_feed, last_line_feed, lemma_last_line_feed, lemma_last_line_feed_of_two,
    LINE_FEED,
};

verus! {

/// What a `Tailer` is in contracts.
pub struct TailerView {
    /// The channel that the file belongs to.
    pub channel: ChannelName,
    /// The start of a line whose end has not been written yet.
    pub pending: Seq<u8>,
}

/// Where the complete lines of `data` end: just past its last line feed.
pub open spec fn complete_end(data: Seq<u8>) -> int {
    last_line_feed(data) + 1
}

/// What becomes of a tailer that is handed `appended`: the lines that are
/// now complete are read, and what follows the last line feed waits.
pub open spec fn fed<L: Logger>(state: TailerView, appended: Seq<u8>) -> (
    TailerView,
    Seq<NewMessageView>,
) {
    let data = state.pending + appended;
    let cut = complete_end(data);
    (
        TailerView { channel: state.channel, pending: data.skip(cut) },
        records_from::<L>(data.take(cut), 0, state.channel),
    )
}

/// It makes no difference in how many pieces the appended bytes arrive: two
/// pieces one after the other give the records, and leave waiting, what
/// both give as one.
pub proof fn lemma_pieces_add_up<L: Logger>(state: TailerView, first: Seq<u8>, second: Seq<u8>)
    ensures
        ({
            let (between, early) = fed::<L>(state, first);
            let (after, late) = fed::<L>(between, second);
            fed::<L>(state, first + second) == (after, early + late)
        }),
{
    let data = state.pending + first;
    let cut = complete_end(data);
    let head = data.take(cut);
    let waiting = data.skip(cut);
    let rest = waiting + second;
    let later_cut = complete_end(rest);
    let whole = state.pending + (first + second);
    lemma_last_line_feed(data);
    assert(data =~= head + waiting);
    assert(whole =~= head + rest);
    lemma_last_line_feed(rest);
    lemma_last_line_feed(head);
    lemma_last_line_feed_of_two(head, rest);
    if last_line_feed(rest) < 0 && head.len() > 0 {
        assert(head.last() == LINE_FEED);
        if last_line_feed(head) < head.len() - 1 {
            assert(head[head.len() - 1] != LINE_FEED);
        }
    }
    assert(complete_end(whole) == cut + later_cut);
    assert(whole.take(cut + later_cut) =~= head + rest.take(later_cut));
    assert(whole.skip(cut + later_cut) =~= rest.skip(later_cut));
    lemma_records_of_two::<L>(head, rest.take(later_cut), 0, state.channel);
}

/// Follows one log file. It is handed the bytes that were appended since the
/// last time and gives back the records of the lines that are now complete.
pub struct Tailer {
    sc: ServerChannel,
    pending: Vec<u8>,
}

impl View for Tailer {
    type V = TailerView;

    closed spec fn view(&self) -> TailerView {
        TailerView { channel: self.sc@, pending: self.pending@ }
    }
}

impl Tailer {
    /// A tailer for a file of channel `sc`, with nothing read so far.
    pub fn new(sc: ServerChannel) -> (r: Tailer)
        ensures
            r@ == (TailerView { channel: sc@, pending: Seq::empty() }),
    {
        Tailer { sc, pending: Vec::new() }
    }

    pub fn sc(&self) -> (r: &ServerChannel)
        ensures
            r@ == self@.channel,
    {
        &self.sc
    }

    /// Takes the bytes that were appended to the file and reads all lines
    /// that they complete, in order. A line that does not read is passed
    /// over. What follows the last line feed waits for the next call.
    pub fn read_all_new_lines<L: Logger>(&mut self, logger: &L, appended: &[u8]) -> (r: Vec<
        NewMessage,
    >)
        ensures
            (final(self)@, r.deep_view()) == fed::<L>(old(self)@, appended@),
    {
        let ghost data = self.pending@ + appended@;
        self.pending.extend_from_slice(appended);
        assert(self.pending@ =~= data);
        proof {
            lemma_last_line_feed(data);
        }
        let cut = match find_last_line_feed(self.pending.as_slice()) {
            Some(feed) => feed + 1,
            None => 0,
        };
        let complete = slice_subrange(self.pending.as_slice(), 0, cut);
        proof {
            assert(complete@ =~= data.take(cut as int));
        }
        let records = read_records(logger, complete, 0, &self.sc);
        let rest = self.pending.split_off(cut);
        self.pending = rest;
        proof {
            assert(self.pending@ =~= data.skip(cut as int));
        }
        records
    }
}

} // verus!

//! What goes out to live viewers: every stored record is announced with its
//! channel, and a viewer takes the announcements of the one channel it
//! watches.

use vstd::prelude::*;
use crate::model::{decoded, Message, ServerChannel};

verus! {

/// An announcement: the channel of a new record and the record made ready
/// for display.
pub type MessageEvent = (ServerChannel, String);

/// The announcement of a stored record. A record whose channel text names
/// no channel is not announced.
pub fn announce(message: &Message, rendered: String) -> (r: Option<MessageEvent>)
    ensures
        match message.channel {
            Some(text) => match decoded(text@) {
                Some(name) => r matches Some(event) && event.0@ == name && event.1@ == rendered@,
                None => r is None,
            },
            None => r is None,
        },
{
    match message.sc() {
        Some(sc) => Some((sc, rendered)),
        None => None,
    }
}

/// Whether a viewer of `watched` takes `event`: it does where the channels
/// are the same.
pub fn is_for(event: &MessageEvent, watched: &ServerChannel) -> (r: bool)
    ensures
        r == (event.0@ == watched@),
{
    event.0 == *watched
}

} // verus!

//! The message that functions exchange over the broker: who sent it, on which
//! channel it goes, and what it carries.
use vstd::prelude::*;

use crate::text::str_equal;

verus! {

/// A message between two functions.
pub struct Message {
    pub source_channel: String,
    pub target_channel: String,
    pub payload: String,
}

impl Message {
    /// A message from `source_channel` to `target_channel` carrying `payload`.
    pub fn new(source_channel: String, target_channel: String, payload: String) -> (m: Message)
        ensures
            m.source_channel == source_channel,
            m.target_channel == target_channel,
            m.payload == payload,
    {
        Message { source_channel, target_channel, payload }
    }

    /// The answer that the function listening on `queue` sends back for this
    /// message: from `queue`, to the sender, with the same payload.
    pub fn answer_from(self, queue: String) -> (m: Message)
        ensures
            m.source_channel == queue,
            m.target_channel == self.source_channel,
            m.payload == self.payload,
    {
        Message::new(queue, self.source_channel, self.payload)
    }
}

/// The channel whose received messages carry the time of reception in place of
/// their payload.
pub open spec fn timed_channel() -> Seq<char> {
    "func_b"@
}

/// The message as a subscriber on `channel` hands it on: on the channel
/// `func_b` its payload is replaced by `received_at`, elsewhere it is unchanged.
pub fn received_on(channel: &str, message: Message, received_at: String) -> (m: Message)
    ensures
        m.source_channel == message.source_channel,
        m.target_channel == message.target_channel,
        channel@ == timed_channel() ==> m.payload == received_at,
        channel@ != timed_channel() ==> m.payload == message.payload,
{
    let mut message = message;
    if str_equal(channel, "func_b") {
        message.payload = received_at;
    }
    message
}

} // verus!

//! Inbound messages: what the broker delivers, as text.
use vstd::prelude::*;
use vstd::utf8::{decode_utf8, valid_utf8};

verus! {

/// The text that `String::from_utf8_lossy` makes of `bytes`.
pub uninterp spec fn lossy_text(bytes: Seq<u8>) -> Seq<char>;

/// Calls `String::from_utf8_lossy` and owns its answer. Claimed, from its
/// documentation: the answer depends on the bytes alone, and bytes that are
/// valid UTF-8 give the text that they encode.
#[verifier::external_body]
pub(crate) fn from_utf8_lossy(bytes: &Vec<u8>) -> (text: String)
    ensures
        text@ == lossy_text(bytes@),
        valid_utf8(bytes@) ==> text@ == decode_utf8(bytes@),
{
    String::from_utf8_lossy(bytes).into_owned()
}

/// Turns what the broker delivers into pairs of texts.
pub struct MessageSubscriber {}

impl MessageSubscriber {
    /// A subscriber.
    pub fn new() -> Self {
        Self {  }
    }

    /// The pair that is handed on for a publication under `topic_name` with
    /// `payload`: the topic as it is, and the payload as text, with every
    /// invalid sequence replaced.
    pub fn inbound(&self, topic_name: String, payload: &Vec<u8>) -> (message: (String, String))
        ensures
            message.0@ == topic_name@,
            message.1@ == lossy_text(payload@),
            valid_utf8(payload@) ==> message.1@ == decode_utf8(payload@),
    {
        (topic_name, from_utf8_lossy(payload))
    }
}

} // verus!

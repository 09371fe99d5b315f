//! Replies of the card: the payload and the two trailing status bytes.
use vstd::prelude::*;
use crate::bytes::copy_range;
use crate::errors::TalktoSCError;

verus! {

/// A reply of the card, split into its payload and its status bytes. Check
/// first whether it `is_okay`, or whether more bytes wait to be read.
#[derive(Debug, Clone)]
pub struct Response {
    data: Vec<u8>,
    sw1: u8,
    sw2: u8,
}

impl Response {
    /// The payload of the reply.
    pub closed spec fn data_view(&self) -> Seq<u8> {
        self.data@
    }

    /// The first status byte.
    pub closed spec fn sw1_view(&self) -> u8 {
        self.sw1
    }

    /// The second status byte.
    pub closed spec fn sw2_view(&self) -> u8 {
        self.sw2
    }

    /// Splits a raw reply into its payload and its last two bytes, the status
    /// bytes; a reply shorter than two bytes is refused.
    pub fn new(input: Vec<u8>) -> (r: Result<Self, TalktoSCError>)
        ensures
            input@.len() < 2 ==> r == Err::<Response, TalktoSCError>(
                TalktoSCError::TooShortReply(input@.len() as usize),
            ),
            input@.len() >= 2 ==> (r matches Ok(resp) && resp.data_view() == input@.subrange(
                0,
                input@.len() - 2,
            ) && resp.sw1_view() == input@[input@.len() - 2] && resp.sw2_view()
                == input@[input@.len() - 1]),
    {
        let length = input.len();
        if length < 2 {
            return Err(TalktoSCError::TooShortReply(length));
        }
        let data = copy_range(&input, 0, length - 2);
        let sw1 = input[length - 2];
        let sw2 = input[length - 1];
        Ok(Response { data, sw1, sw2 })
    }

    /// Tells whether the reply reports success, the status `0x90 0x00`.
    pub fn is_okay(&self) -> (r: bool)
        ensures
            r == (self.sw1_view() == 0x90 && self.sw2_view() == 0x00),
    {
        self.sw1 == 0x90 && self.sw2 == 0x00
    }

    /// Returns a copy of the payload of the reply.
    pub fn get_data(&self) -> (r: Vec<u8>)
        ensures
            r@ == self.data_view(),
    {
        self.data.clone()
    }

    /// How many bytes the card still holds for us: `sw2` when `sw1` is
    /// `0x61`, else none.
    pub fn availble_response(&self) -> (r: Option<u8>)
        ensures
            r == (if self.sw1_view() == 0x61 {
                Some(self.sw2_view())
            } else {
                None
            }),
    {
        if self.sw1 == 0x61 {
            Some(self.sw2)
        } else {
            None
        }
    }
}

} // verus!

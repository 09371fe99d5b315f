//! The decisions of an exchange with the card: which packet of a command to
//! send next, and which reply ends the exchange. The caller does the
//! transmission and hands each reply back.
use vstd::prelude::*;
use crate::apdus::{packets_view, APDU};

verus! {

/// Whether a raw reply ends with the success status `0x90 0x00`.
pub open spec fn reply_is_success(reply: Seq<u8>) -> bool {
    reply.len() >= 2 && reply[reply.len() - 2] == 0x90 && reply[reply.len() - 1] == 0x00
}

/// What to do next in an exchange.
#[derive(Debug)]
pub enum Step {
    /// Transmit this packet to the card and hand its reply back.
    Send(Vec<u8>),
    /// The exchange is over; this is the reply that answers the command.
    Done(Vec<u8>),
}

/// The progress of sending one command, packet by packet. Every packet but
/// the last must be acknowledged with success; any other reply to it ends
/// the exchange early and becomes its answer.
pub struct Exchange {
    packets: Vec<Vec<u8>>,
    sent: usize,
    done: bool,
}

impl Exchange {
    /// The packets of the command.
    pub closed spec fn packets(&self) -> Seq<Seq<u8>> {
        packets_view(self.packets@)
    }

    /// How many packets were handed out for transmission.
    pub closed spec fn sent(&self) -> nat {
        self.sent as nat
    }

    /// Whether the exchange is over.
    pub closed spec fn is_done(&self) -> bool {
        self.done
    }

    /// The well-formedness of an exchange.
    pub closed spec fn wf(&self) -> bool {
        self.sent <= self.packets@.len()
    }

    /// An exchange that is about to send the packets of `apdu`.
    pub fn new(apdu: &APDU) -> (r: Exchange)
        ensures
            r.wf(),
            r.packets() == packets_view(apdu.iapdus@),
            r.sent() == 0,
            !r.is_done(),
    {
        let mut packets: Vec<Vec<u8>> = Vec::new();
        let mut i: usize = 0;
        while i < apdu.iapdus.len()
            invariant
                i <= apdu.iapdus@.len(),
                packets_view(packets@) == packets_view(apdu.iapdus@).subrange(0, i as int),
            decreases apdu.iapdus@.len() - i,
        {
            let ghost before = packets_view(packets@);
            packets.push(apdu.iapdus[i].clone());
            assert(packets_view(packets@) =~= before.push(apdu.iapdus@[i as int]@));
            i = i + 1;
            assert(packets_view(packets@) =~= packets_view(apdu.iapdus@).subrange(0, i as int));
        }
        assert(packets_view(apdu.iapdus@).subrange(0, i as int) =~= packets_view(apdu.iapdus@));
        Exchange { packets, sent: 0, done: false }
    }

    /// Hands out the packet at `sent`.
    fn send_next(&mut self) -> (r: Step)
        requires
            old(self).wf(),
            old(self).sent < old(self).packets@.len(),
        ensures
            final(self).wf(),
            final(self).packets() == old(self).packets(),
            final(self).sent() == old(self).sent() + 1,
            final(self).is_done() == old(self).is_done(),
            r matches Step::Send(p) && p@ == old(self).packets()[old(self).sent() as int],
    {
        let n = self.packets.len();
        let p = self.packets[self.sent].clone();
        assert(self.sent < n);
        self.sent = self.sent + 1;
        Step::Send(p)
    }

    /// The first step: the first packet to send, or, for a command without
    /// packets, the end of the exchange with an empty reply.
    pub fn start(&mut self) -> (r: Step)
        requires
            old(self).wf(),
            old(self).sent() == 0,
            !old(self).is_done(),
        ensures
            final(self).wf(),
            final(self).packets() == old(self).packets(),
            old(self).packets().len() > 0 ==> (r matches Step::Send(p) && p@ == old(
                self,
            ).packets()[0] && final(self).sent() == 1 && !final(self).is_done()),
            old(self).packets().len() == 0 ==> (r matches Step::Done(reply) && reply@.len() == 0
                && final(self).is_done()),
    {
        if self.packets.len() == 0 {
            self.done = true;
            Step::Done(Vec::new())
        } else {
            self.send_next()
        }
    }

    /// Takes the reply to the packet sent last, and says what comes next: the
    /// next packet, when that one was acknowledged with success and is not the
    /// last; else the end of the exchange with this reply.
    pub fn on_reply(&mut self, reply: Vec<u8>) -> (r: Step)
        requires
            old(self).wf(),
            old(self).sent() > 0,
            !old(self).is_done(),
        ensures
            final(self).wf(),
            final(self).packets() == old(self).packets(),
            old(self).sent() < old(self).packets().len() && reply_is_success(reply@) ==> (r matches Step::Send(p) && p@ == old(self).packets()[old(self).sent() as int]
                && final(self).sent() == old(self).sent() + 1 && !final(self).is_done()),
            !(old(self).sent() < old(self).packets().len() && reply_is_success(reply@)) ==> (r matches Step::Done(last) && last@ == reply@ && final(self).is_done()),
    {
        let len = reply.len();
        let success = len >= 2 && reply[len - 2] == 0x90 && reply[len - 1] == 0x00;
        if self.sent < self.packets.len() && success {
            self.send_next()
        } else {
            self.done = true;
            Step::Done(reply)
        }
    }
}

} // verus!

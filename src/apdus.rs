//! Command packets (APDUs) for the card: a command with its payload, split
//! into one or more wire packets.
use vstd::prelude::*;
use crate::bytes::append_range;

verus! {

/// The class byte of every packet but the last one of a chained command.
pub const CHAIN_CLA: u8 = 0x10;

/// How many payload bytes a packet of a chained command carries.
pub const BLOCK_SIZE: usize = 254;

/// The contents of a sequence of packets.
pub open spec fn packets_view(v: Seq<Vec<u8>>) -> Seq<Seq<u8>> {
    v.map_values(|p: Vec<u8>| p@)
}

/// How many packets come before the last one when a payload of `len` bytes
/// is chained.
pub open spec fn chain_count(len: nat) -> nat {
    if len == 0 {
        0
    } else {
        ((len - 1) / 254) as nat
    }
}

/// The `k`-th packet before the last one: the chaining class byte, the
/// instruction and parameters, the length 254, and 254 bytes of payload.
pub open spec fn chained_packet(ins: u8, p1: u8, p2: u8, data: Seq<u8>, k: nat) -> Seq<u8> {
    seq![CHAIN_CLA, ins, p1, p2, 0xfeu8] + data.subrange(254 * k as int, 254 * k + 254 as int)
}

/// The last packet, after `k` chained ones: the caller's class byte, the
/// instruction and parameters, the length of what is left, and what is left.
pub open spec fn final_packet(cla: u8, ins: u8, p1: u8, p2: u8, data: Seq<u8>, k: nat) -> Seq<u8> {
    seq![cla, ins, p1, p2, (data.len() - 254 * k) as u8] + data.subrange(254 * k as int, data.len() as int)
}

/// The packets that carry a command with payload `data`, chained where it
/// does not fit one packet.
pub open spec fn chained_packets(cla: u8, ins: u8, p1: u8, p2: u8, data: Seq<u8>) -> Seq<Seq<u8>> {
    let k = chain_count(data.len());
    Seq::new(
        k + 1,
        |i: int|
            if i < k {
                chained_packet(ins, p1, p2, data, i as nat)
            } else {
                final_packet(cla, ins, p1, p2, data, k)
            },
    )
}

/// The length field of a single extended packet: one byte up to 255, else a
/// zero byte and the length in two bytes, big-endian.
pub open spec fn extended_length(len: nat) -> Seq<u8> {
    if len <= 255 {
        seq![len as u8]
    } else {
        seq![0x00u8, (len / 256) as u8, (len % 256) as u8]
    }
}

/// The single packet that carries a command with payload `data` at once.
pub open spec fn extended_packet(cla: u8, ins: u8, p1: u8, p2: u8, data: Seq<u8>) -> Seq<u8> {
    seq![cla, ins, p1, p2] + extended_length(data.len()) + data
}

/// The payload carried by a packet: what follows its five header bytes.
pub open spec fn payload_of(p: Seq<u8>) -> Seq<u8> {
    p.subrange(5, p.len() as int)
}

/// The payloads of the packets, joined in order.
pub open spec fn joined_payloads(ps: Seq<Seq<u8>>) -> Seq<u8>
    decreases ps.len(),
{
    if ps.len() == 0 {
        seq![]
    } else {
        joined_payloads(ps.drop_last()) + payload_of(ps.last())
    }
}

/// The first `j` chained packets carry the first `254 * j` bytes of the payload.
proof fn lemma_joined_prefix(cla: u8, ins: u8, p1: u8, p2: u8, data: Seq<u8>, j: nat)
    requires
        j <= chain_count(data.len()),
        254 * chain_count(data.len()) <= data.len(),
    ensures
        joined_payloads(chained_packets(cla, ins, p1, p2, data).subrange(0, j as int))
            == data.subrange(0, 254 * j as int),
    decreases j,
{
    let ps = chained_packets(cla, ins, p1, p2, data);
    if j == 0 {
        assert(data.subrange(0, 0) =~= seq![]);
    } else {
        let prev = (j - 1) as nat;
        lemma_joined_prefix(cla, ins, p1, p2, data, prev);
        assert(ps.subrange(0, j as int).drop_last() =~= ps.subrange(0, prev as int));
        let p = ps[prev as int];
        assert(payload_of(p) =~= data.subrange(254 * prev as int, 254 * j as int));
        assert(data.subrange(0, 254 * prev as int) + data.subrange(254 * prev as int, 254 * j as int)
            =~= data.subrange(0, 254 * j as int));
    }
}

/// Chaining keeps the payload whole and in order: joined, the payloads of the
/// packets give back the payload. Before the last packet come
/// `(len - 1) / 254` chained ones, each with class byte `0x10` and 254 bytes
/// of payload; the last one has the caller's class byte and its own length.
pub proof fn lemma_chaining_round_trip(cla: u8, ins: u8, p1: u8, p2: u8, data: Seq<u8>)
    ensures
        joined_payloads(chained_packets(cla, ins, p1, p2, data)) == data,
        data.len() > 0 ==> chained_packets(cla, ins, p1, p2, data).len() - 1 == (data.len() - 1)
            / 254,
        data.len() == 0 ==> chained_packets(cla, ins, p1, p2, data).len() == 1,
        forall|i: int|
            0 <= i < chained_packets(cla, ins, p1, p2, data).len() - 1 ==> {
                let p = #[trigger] chained_packets(cla, ins, p1, p2, data)[i];
                &&& p[0] == CHAIN_CLA
                &&& p[4] == 0xfe
                &&& payload_of(p).len() == 254
            },
        ({
            let ps = chained_packets(cla, ins, p1, p2, data);
            let last = ps[ps.len() - 1];
            &&& last[0] == cla
            &&& payload_of(last).len() <= 254
            &&& last[4] == payload_of(last).len()
        }),
{
    let ps = chained_packets(cla, ins, p1, p2, data);
    let k = chain_count(data.len());
    let len = data.len();
    if len > 0 {
        assert(254 * k <= len - 1 < 254 * k + 254) by (nonlinear_arith)
            requires
                k == (len - 1) / 254,
                len > 0,
        ;
    }
    lemma_joined_prefix(cla, ins, p1, p2, data, k);
    assert(ps.drop_last() =~= ps.subrange(0, k as int));
    assert(data.subrange(0, 254 * k as int) + data.subrange(254 * k as int, len as int) =~= data);
    assert forall|i: int| 0 <= i < ps.len() - 1 implies {
        let p = #[trigger] ps[i];
        &&& p[0] == CHAIN_CLA
        &&& p[4] == 0xfe
        &&& payload_of(p).len() == 254
    } by {
        assert(254 * i + 254 <= 254 * k) by (nonlinear_arith)
            requires
                i < k,
        ;
    }
}

/// The single extended packet: its length field is one byte up to 255 bytes
/// of payload, else `0x00` and the length in two bytes, big-endian; the
/// payload follows whole.
pub proof fn lemma_extended_layout(cla: u8, ins: u8, p1: u8, p2: u8, data: Seq<u8>)
    requires
        data.len() <= 0xffff,
    ensures
        ({
            let p = extended_packet(cla, ins, p1, p2, data);
            &&& p.subrange(0, 4) == seq![cla, ins, p1, p2]
            &&& data.len() <= 255 ==> p[4] == data.len() && p.subrange(5, p.len() as int) == data
            &&& data.len() > 255 ==> p[4] == 0 && p[5] as nat * 256 + p[6] as nat == data.len()
                && p.subrange(7, p.len() as int) == data
        }),
{
    let p = extended_packet(cla, ins, p1, p2, data);
    assert(p.subrange(0, 4) =~= seq![cla, ins, p1, p2]);
    if data.len() <= 255 {
        assert(p.subrange(5, p.len() as int) =~= data);
    } else {
        assert(p.subrange(7, p.len() as int) =~= data);
    }
}

/// A command for the card, with the packets that carry it.
#[derive(Debug, Clone)]
pub struct APDU {
    /// CLA information.
    pub cla: u8,
    /// INS value
    pub ins: u8,
    pub p1: u8,
    pub p2: u8,
    /// The payload that goes to the card.
    pub data: Vec<u8>,
    /// The packets to send, in order.
    pub iapdus: Vec<Vec<u8>>,
}

impl APDU {
    /// Creates a command, split into chained packets where its payload does
    /// not fit one packet.
    pub fn new(cla: u8, ins: u8, p1: u8, p2: u8, inputdata: Option<Vec<u8>>) -> (r: Self)
        ensures
            r.cla == cla,
            r.ins == ins,
            r.p1 == p1,
            r.p2 == p2,
            r.data@ == match inputdata {
                Some(d) => d@,
                None => Seq::<u8>::empty(),
            },
            packets_view(r.iapdus@) == chained_packets(cla, ins, p1, p2, r.data@),
    {
        let data = match inputdata {
            Some(data) => data,
            None => Vec::new(),
        };
        let ghost d = data@;
        let length = data.len();
        let mut iapdus: Vec<Vec<u8>> = Vec::new();
        let mut start: usize = 0;
        while length - start > BLOCK_SIZE
            invariant
                length == d.len(),
                data@ == d,
                start <= length,
                start == 254 * iapdus@.len(),
                start == 0 || start < length,
                forall|i: int|
                    0 <= i < iapdus@.len() ==> (#[trigger] iapdus@[i])@ == chained_packet(
                        ins,
                        p1,
                        p2,
                        d,
                        i as nat,
                    ),
            decreases length - start,
        {
            let mut packet: Vec<u8> = vec![CHAIN_CLA, ins, p1, p2, 0xfe];
            let ghost header = packet@;
            append_range(&mut packet, &data, start, start + BLOCK_SIZE);
            assert(header =~= seq![CHAIN_CLA, ins, p1, p2, 0xfeu8]);
            iapdus.push(packet);
            start = start + BLOCK_SIZE;
        }
        let ghost k = iapdus@.len();
        assert(k == chain_count(length as nat)) by {
            if length > 0 {
                assert(254 * k <= length - 1 < 254 * k + 254);
                assert((length - 1) / 254 == k) by (nonlinear_arith)
                    requires
                        254 * k <= length - 1 < 254 * k + 254,
                ;
            }
        }
        let left = (length - start) as u8;
        let mut last: Vec<u8> = vec![cla, ins, p1, p2, left];
        let ghost header = last@;
        append_range(&mut last, &data, start, length);
        assert(header =~= seq![cla, ins, p1, p2, left]);
        iapdus.push(last);
        assert(packets_view(iapdus@) =~= chained_packets(cla, ins, p1, p2, d));
        APDU { cla, ins, p1, p2, data, iapdus }
    }

    /// Creates a command carried by one packet whatever the size of its
    /// payload, with a three-byte length field above 255 bytes.
    pub fn create_big_apdu(cla: u8, ins: u8, p1: u8, p2: u8, data: Vec<u8>) -> (r: Self)
        requires
            data@.len() <= 0xffff,
        ensures
            r.cla == cla,
            r.ins == ins,
            r.p1 == p1,
            r.p2 == p2,
            r.data@ == data@,
            packets_view(r.iapdus@) == seq![extended_packet(cla, ins, p1, p2, data@)],
    {
        let len = data.len();
        let mut packet: Vec<u8> = vec![cla, ins, p1, p2];
        if len > 0xff {
            packet.push(0x00);
            packet.push((len / 256) as u8);
            packet.push((len % 256) as u8);
        } else {
            packet.push(len as u8);
        }
        let ghost header = packet@;
        assert(header =~= seq![cla, ins, p1, p2] + extended_length(len as nat));
        append_range(&mut packet, &data, 0, len);
        assert(data@.subrange(0, len as int) =~= data@);
        let mut iapdus: Vec<Vec<u8>> = Vec::new();
        iapdus.push(packet);
        assert(packets_view(iapdus@) =~= seq![extended_packet(cla, ins, p1, p2, data@)]);
        APDU { cla, ins, p1, p2, data, iapdus }
    }

    /// Walks through the packets of the command, in order.
    pub fn iter(&self) -> (r: APDUIterator)
        ensures
            r.packets() == packets_view(self.iapdus@),
            r.position() == 0,
    {
        APDUIterator { apdu: self, index: 0 }
    }
}

/// Hands out the packets of a command one at a time.
pub struct APDUIterator<'a> {
    apdu: &'a APDU,
    index: usize,
}

impl<'a> APDUIterator<'a> {
    /// The packets being walked through.
    pub closed spec fn packets(&self) -> Seq<Seq<u8>> {
        packets_view(self.apdu.iapdus@)
    }

    /// How many packets were handed out.
    pub closed spec fn position(&self) -> nat {
        self.index as nat
    }

    /// The next packet, if any is left.
    pub fn next(&mut self) -> (r: Option<Vec<u8>>)
        ensures
            final(self).packets() == old(self).packets(),
            match r {
                Some(p) => old(self).position() < old(self).packets().len() && p@ == old(
                    self,
                ).packets()[old(self).position() as int] && final(self).position() == old(
                    self,
                ).position() + 1,
                None => old(self).position() >= old(self).packets().len() && final(self).position()
                    == old(self).position(),
            },
    {
        if self.index < self.apdu.iapdus.len() {
            let res = self.apdu.iapdus[self.index].clone();
            self.index = self.index + 1;
            Some(res)
        } else {
            None
        }
    }
}

/// A payload of at most 254 bytes travels in a single packet: the header
/// `[cla, ins, p1, p2, len]` followed by the payload.
pub proof fn lemma_single_packet(cla: u8, ins: u8, p1: u8, p2: u8, data: Seq<u8>)
    requires
        data.len() <= 254,
    ensures
        chained_packets(cla, ins, p1, p2, data) == seq![
            seq![cla, ins, p1, p2, data.len() as u8] + data,
        ],
{
    assert(chain_count(data.len()) == 0);
    assert(data.subrange(0, data.len() as int) =~= data);
    assert(chained_packets(cla, ins, p1, p2, data) =~= seq![
        seq![cla, ins, p1, p2, data.len() as u8] + data,
    ]);
}

/// Creates the command that selects the OpenPGP application on the card.
///
/// This is the **first** command to send to the card; only after it, the
/// others.
pub fn create_apdu_select_openpgp() -> (r: APDU)
    ensures
        r.cla == 0x00,
        r.ins == 0xa4,
        r.p1 == 0x04,
        r.p2 == 0x00,
        r.data@ == seq![0xd2u8, 0x76, 0x00, 0x01, 0x24, 0x01],
        packets_view(r.iapdus@) == seq![
            seq![0x00u8, 0xa4, 0x04, 0x00, 0x06, 0xd2, 0x76, 0x00, 0x01, 0x24, 0x01],
        ],
{
    let r = APDU::new(0x00, 0xa4, 0x04, 0x00, Some(vec![0xd2, 0x76, 0x00, 0x01, 0x24, 0x01]));
    proof {
        lemma_single_packet(0x00, 0xa4, 0x04, 0x00, r.data@);
        assert(seq![0x00u8, 0xa4, 0x04, 0x00, 0x06] + r.data@ =~= seq![
            0x00u8,
            0xa4,
            0x04,
            0x00,
            0x06,
            0xd2,
            0x76,
            0x00,
            0x01,
            0x24,
            0x01,
        ]);
    }
    r
}

/// A command without payload, carried by one packet `[cla, ins, p1, p2, 0]`.
fn bare_command(cla: u8, ins: u8, p1: u8, p2: u8) -> (r: APDU)
    ensures
        r.cla == cla,
        r.ins == ins,
        r.p1 == p1,
        r.p2 == p2,
        r.data@ == Seq::<u8>::empty(),
        packets_view(r.iapdus@) == seq![seq![cla, ins, p1, p2, 0x00u8]],
{
    let r = APDU::new(cla, ins, p1, p2, None);
    proof {
        lemma_single_packet(cla, ins, p1, p2, r.data@);
        assert(seq![cla, ins, p1, p2, 0x00u8] + r.data@ =~= seq![cla, ins, p1, p2, 0x00u8]);
    }
    r
}

/// Creates the command that fetches the URL of the public key.
pub fn create_apdu_get_url() -> (r: APDU)
    ensures
        r.cla == 0x00,
        r.ins == 0xca,
        r.p1 == 0x5f,
        r.p2 == 0x50,
        r.data@ == Seq::<u8>::empty(),
        packets_view(r.iapdus@) == seq![seq![0x00u8, 0xca, 0x5f, 0x50, 0x00]],
{
    bare_command(0x00, 0xca, 0x5f, 0x50)
}

/// Creates the command that verifies PW1 for other commands; send it before
/// decrypting.
pub fn create_apdu_verify_pw1_for_others(pin: Vec<u8>) -> (r: APDU)
    ensures
        r.cla == 0x00,
        r.ins == 0x20,
        r.p1 == 0x00,
        r.p2 == 0x82,
        r.data@ == pin@,
        packets_view(r.iapdus@) == chained_packets(0x00, 0x20, 0x00, 0x82, pin@),
{
    APDU::new(0x00, 0x20, 0x00, 0x82, Some(pin))
}

/// Creates the command that verifies PW1 for signing; send it before signing.
pub fn create_apdu_verify_pw1_for_sign(pin: Vec<u8>) -> (r: APDU)
    ensures
        r.cla == 0x00,
        r.ins == 0x20,
        r.p1 == 0x00,
        r.p2 == 0x81,
        r.data@ == pin@,
        packets_view(r.iapdus@) == chained_packets(0x00, 0x20, 0x00, 0x81, pin@),
{
    APDU::new(0x00, 0x20, 0x00, 0x81, Some(pin))
}

/// Creates the command that verifies PW3 for admin commands.
pub fn create_apdu_verify_pw3(pin: Vec<u8>) -> (r: APDU)
    ensures
        r.cla == 0x00,
        r.ins == 0x20,
        r.p1 == 0x00,
        r.p2 == 0x83,
        r.data@ == pin@,
        packets_view(r.iapdus@) == chained_packets(0x00, 0x20, 0x00, 0x83, pin@),
{
    APDU::new(0x00, 0x20, 0x00, 0x83, Some(pin))
}

/// Creates the command that fetches the personal information of the holder.
pub fn create_apdu_personal_information() -> (r: APDU)
    ensures
        r.cla == 0x00,
        r.ins == 0xca,
        r.p1 == 0x00,
        r.p2 == 0x65,
        r.data@ == Seq::<u8>::empty(),
        packets_view(r.iapdus@) == seq![seq![0x00u8, 0xca, 0x00, 0x65, 0x00]],
{
    bare_command(0x00, 0xca, 0x00, 0x65)
}

/// Creates the command that fetches the application identifier (AID, 16
/// bytes) of the card.
pub fn create_apdu_get_aid() -> (r: APDU)
    ensures
        r.cla == 0x00,
        r.ins == 0xca,
        r.p1 == 0x00,
        r.p2 == 0x4f,
        r.data@ == Seq::<u8>::empty(),
        packets_view(r.iapdus@) == seq![seq![0x00u8, 0xca, 0x00, 0x4f, 0x00]],
{
    bare_command(0x00, 0xca, 0x00, 0x4f)
}

/// Creates the command that fetches all the application related data.
pub fn create_apdu_get_application_data() -> (r: APDU)
    ensures
        r.cla == 0x00,
        r.ins == 0xca,
        r.p1 == 0x00,
        r.p2 == 0x6e,
        r.data@ == Seq::<u8>::empty(),
        packets_view(r.iapdus@) == seq![seq![0x00u8, 0xca, 0x00, 0x6e, 0x00]],
{
    bare_command(0x00, 0xca, 0x00, 0x6e)
}

/// Creates the command that decrypts `data`.
pub fn create_apdu_for_decryption(data: Vec<u8>) -> (r: APDU)
    ensures
        r.cla == 0x00,
        r.ins == 0x2a,
        r.p1 == 0x80,
        r.p2 == 0x86,
        r.data@ == data@,
        packets_view(r.iapdus@) == chained_packets(0x00, 0x2a, 0x80, 0x86, data@),
{
    APDU::new(0x00, 0x2a, 0x80, 0x86, Some(data))
}

/// Creates the command that reads `length` more bytes from the card; use it
/// when the previous reply was `0x61 length`.
pub fn create_apdu_for_reading(length: u8) -> (r: APDU)
    ensures
        r.cla == 0x00,
        r.ins == 0xc0,
        r.p1 == 0x00,
        r.p2 == 0x00,
        r.data@ == Seq::<u8>::empty(),
        packets_view(r.iapdus@) == seq![seq![0x00u8, 0xc0, 0x00, 0x00, length]],
{
    let mut iapdus: Vec<Vec<u8>> = Vec::new();
    iapdus.push(vec![0x00, 0xc0, 0x00, 0x00, length]);
    assert(packets_view(iapdus@) =~= seq![seq![0x00u8, 0xc0, 0x00, 0x00, length]]);
    let data: Vec<u8> = Vec::new();
    APDU { cla: 0x00, ins: 0xc0, p1: 0x00, p2: 0x00, data, iapdus }
}

/// Creates the single-packet command that writes the algorithm attributes in
/// `data` to the card.
pub fn create_apdu_for_algo_attributes(data: Vec<u8>) -> (r: APDU)
    requires
        data@.len() <= 0xffff,
    ensures
        r.cla == 0x00,
        r.ins == 0xda,
        r.p1 == 0x00,
        r.p2 == 0xc2,
        r.data@ == data@,
        packets_view(r.iapdus@) == seq![extended_packet(0x00, 0xda, 0x00, 0xc2, data@)],
{
    APDU::create_big_apdu(0x00, 0xda, 0x00, 0xc2, data)
}

} // verus!

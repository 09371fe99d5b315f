//! BER-TLV data objects as returned by the card.
use vstd::prelude::*;
use vstd::string::*;
use crate::bytes::copy_range;
use crate::errors::TalktoSCError;

verus! {

/// The mathematical form of a decoded data object.
pub ghost struct TlvModel {
    pub tag: u16,
    pub len: u16,
    pub value: Seq<u8>,
    pub subs: Seq<TlvModel>,
}

/// The models of a sequence of decoded objects.
pub open spec fn models(s: Seq<TLV>) -> Seq<TlvModel> {
    s.map_values(|t: TLV| t@)
}

/// Depth-first search for `tag`: the object itself when it carries the tag,
/// else the first match among its nested objects, in order.
pub open spec fn find_in_tree(m: TlvModel, tag: u16) -> Option<TlvModel>
    decreases m,
{
    if m.tag == tag {
        Some(m)
    } else {
        find_in_forest(m.subs, tag)
    }
}

/// The first match for `tag` in a sequence of objects, searched one after
/// the other, each one depth first.
pub open spec fn find_in_forest(s: Seq<TlvModel>, tag: u16) -> Option<TlvModel>
    decreases s,
{
    if s.len() == 0 {
        None
    } else {
        match find_in_tree(s[0], tag) {
            Some(m) => Some(m),
            None => find_in_forest(s.subrange(1, s.len() as int), tag),
        }
    }
}

/// The value of the first object found for `tag`.
pub open spec fn value_of_tag(m: TlvModel, tag: u16) -> Option<Seq<u8>> {
    match find_in_tree(m, tag) {
        Some(n) => Some(n.value),
        None => None,
    }
}

/// The contents of an optional byte vector.
pub open spec fn bytes_view(r: Option<Vec<u8>>) -> Option<Seq<u8>> {
    match r {
        Some(v) => Some(v@),
        None => None,
    }
}

/// Whether a first tag byte announces a second one (its low five bits are all set).
pub open spec fn tag_continues(b: u8) -> bool {
    b & 0x1f == 0x1f
}

/// Whether a first tag byte marks a constructed object (bit `0x20`).
pub open spec fn tag_constructed(b: u8) -> bool {
    b & 0x20 == 0x20
}

/// The tag at the front of `d`: its value, whether it is constructed, and how
/// many bytes it takes.
pub open spec fn tag_field(d: Seq<u8>) -> Result<(u16, bool, nat), TalktoSCError> {
    if d.len() < 1 {
        Err(TalktoSCError::TruncatedTlv)
    } else if !tag_continues(d[0]) {
        Ok((d[0] as u16, tag_constructed(d[0]), 1))
    } else if d.len() < 2 {
        Err(TalktoSCError::TruncatedTlv)
    } else if tag_continues(d[1]) {
        Err(TalktoSCError::BadTagExtension)
    } else {
        Ok((((d[0] as u16) << 8u16) | ((d[1] & 0x7f) as u16), tag_constructed(d[0]), 2))
    }
}

/// The length field at the front of `d`: the length, and how many bytes the
/// field takes.
pub open spec fn length_field(d: Seq<u8>) -> Result<(u16, nat), TalktoSCError> {
    if d.len() < 1 {
        Err(TalktoSCError::TruncatedTlv)
    } else if d[0] < 0x80 {
        Ok((d[0] as u16, 1))
    } else if d[0] == 0x81 {
        if d.len() < 2 {
            Err(TalktoSCError::TruncatedTlv)
        } else {
            Ok((d[1] as u16, 2))
        }
    } else if d[0] == 0x82 {
        if d.len() < 3 {
            Err(TalktoSCError::TruncatedTlv)
        } else {
            Ok((((d[1] as u16) << 8u16) | (d[2] as u16), 3))
        }
    } else {
        Err(TalktoSCError::BadLength)
    }
}

/// The header of the object at the front of `d`: its tag, whether it is
/// constructed, the size of its tag and length fields, and the length of its
/// value, which must lie within `d`.
pub open spec fn header(d: Seq<u8>) -> Result<(u16, bool, nat, u16), TalktoSCError> {
    match tag_field(d) {
        Err(e) => Err(e),
        Ok((tag, constructed, ts)) => match length_field(d.subrange(ts as int, d.len() as int)) {
            Err(e) => Err(e),
            Ok((len, ls)) => if ts + ls + len > d.len() {
                Err(TalktoSCError::TruncatedTlv)
            } else {
                Ok((tag, constructed, (ts + ls) as nat, len))
            },
        },
    }
}

/// How many bytes the object at the front of `d` takes: its tag and length
/// fields and its value.
pub open spec fn object_size(d: Seq<u8>) -> nat {
    match header(d) {
        Ok((_, _, h, len)) => (h + len) as nat,
        Err(_) => 0,
    }
}

/// How many bytes of `d` decoding its first object alone consumes: all of `d`
/// for a constructed object decoded recursively, whose nested objects fill
/// its decoding context, else the object itself.
pub open spec fn consumed(d: Seq<u8>, recursive: bool) -> nat {
    match header(d) {
        Ok((_, constructed, h, len)) => if constructed && recursive {
            d.len()
        } else {
            (h + len) as nat
        },
        Err(_) => 0,
    }
}

/// Decodes the object at the front of `d`.
pub open spec fn decode_one(d: Seq<u8>, recursive: bool) -> Result<TlvModel, TalktoSCError>
    decreases d.len(), 0nat,
{
    match header(d) {
        Err(e) => Err(e),
        Ok((tag, constructed, h, len)) => {
            let value = d.subrange(h as int, h + len);
            if constructed && recursive {
                match decode_list(value, recursive) {
                    Err(e) => Err(e),
                    Ok(subs) => Ok(TlvModel { tag, len, value, subs }),
                }
            } else {
                Ok(TlvModel { tag, len, value, subs: seq![] })
            }
        },
    }
}

/// Whether a byte is filler between objects (`0x00` or `0xFF`).
pub open spec fn is_filler(b: u8) -> bool {
    b == 0x00 || b == 0xff
}

/// Decodes the objects of `d` in order, each one after the header and value of
/// the one before, skipping filler bytes between them.
pub open spec fn decode_list(d: Seq<u8>, recursive: bool) -> Result<Seq<TlvModel>, TalktoSCError>
    decreases d.len(), 1nat,
{
    if d.len() == 0 {
        Ok(seq![])
    } else if is_filler(d[0]) {
        decode_list(d.subrange(1, d.len() as int), recursive)
    } else {
        match header(d) {
            Err(e) => Err(e),
            Ok(_) => match decode_one(d, recursive) {
                Err(e) => Err(e),
                Ok(node) => match decode_list(
                    d.subrange(object_size(d) as int, d.len() as int),
                    recursive,
                ) {
                    Err(e) => Err(e),
                    Ok(rest) => Ok(seq![node] + rest),
                },
            },
        }
    }
}

/// A tag, its length and its value; `subs` holds the nested objects of a
/// constructed tag that was decoded recursively.
#[derive(Debug)]
pub struct TLV {
    /// The tag value as u16. A few of them are composite.
    pub t: u16,
    /// Length of the data.
    pub l: u16,
    /// The actual data for the tag.
    pub v: Vec<u8>,
    /// The nested objects, only present for composite objects.
    pub subs: Vec<TLV>,
}

impl TLV {
    pub open spec fn view(&self) -> TlvModel
        decreases self,
    {
        TlvModel {
            tag: self.t,
            len: self.l,
            value: self.v@,
            subs: Seq::new(
                self.subs@.len(),
                |i: int|
                    if 0 <= i < self.subs@.len() {
                        self.subs@[i].view()
                    } else {
                        arbitrary()
                    },
            ),
        }
    }

    /// Returns the TAG value as u16.
    pub fn get_t(&self) -> (r: u16)
        ensures
            r == self@.tag,
    {
        self.t
    }

    /// Returns the length of the contained value as u16.
    pub fn get_l(&self) -> (r: u16)
        ensures
            r == self@.len,
    {
        self.l
    }

    /// Returns the value of the tag as a slice of `u8`.
    pub fn get_v(&self) -> (r: &[u8])
        ensures
            r@ == self@.value,
    {
        self.v.as_slice()
    }

    /// Tells whether nested objects are present: true only for constructed
    /// objects that were decoded recursively and hold any.
    pub fn if_recursive(&self) -> (r: bool)
        ensures
            r == (self@.subs.len() > 0),
    {
        self.subs.len() != 0
    }

    /// Searches depth first, in pre-order, for the object carrying `tag`.
    pub fn find_tag(&self, tag: u16) -> (r: Option<TLV>)
        ensures
            match r {
                Some(n) => find_in_tree(self@, tag) == Some(n@),
                None => find_in_tree(self@, tag) is None,
            },
        decreases self,
    {
        if self.t == tag {
            return Some(copy_tlv(self));
        }
        let mut i: usize = 0;
        assert(self@.subs.subrange(0, self@.subs.len() as int) =~= self@.subs);
        while i < self.subs.len()
            invariant
                i <= self.subs@.len(),
                self@.tag != tag,
                find_in_tree(self@, tag) == find_in_forest(
                    self@.subs.subrange(i as int, self@.subs.len() as int),
                    tag,
                ),
            decreases self.subs@.len() - i,
        {
            let ghost rest = self@.subs.subrange(i as int, self@.subs.len() as int);
            assert(rest.subrange(1, rest.len() as int) =~= self@.subs.subrange(
                i + 1,
                self@.subs.len() as int,
            ));
            assert(decreases_to!(self => self.subs@[i as int]));
            match self.subs[i].find_tag(tag) {
                Some(found) => return Some(found),
                None => {},
            }
            i = i + 1;
        }
        None
    }

    /// The value of the first object found for `tag`.
    fn value_for(&self, tag: u16) -> (r: Option<Vec<u8>>)
        ensures
            bytes_view(r) == value_of_tag(self@, tag),
    {
        let tlv = self.find_tag(tag)?;
        Some(tlv.v.clone())
    }

    /// Returns the Application identifier (AID), ISO 7816-4 bytes. Between 5-16 bytes in length.
    pub fn get_aid(&self) -> (r: Option<Vec<u8>>)
        ensures
            bytes_view(r) == value_of_tag(self@, 0x4f),
    {
        self.value_for(0x4f)
    }

    /// Returns the historical bytes from the smartcard; they most likely hold
    /// further objects.
    pub fn get_historical_bytes(&self) -> (r: Option<Vec<u8>>)
        ensures
            bytes_view(r) == value_of_tag(self@, 0x5f52),
    {
        self.value_for(0x5f52)
    }

    /// Returns the 60 bytes of the three fingerprints: signature, decryption,
    /// authentication.
    pub fn get_fingerprints(&self) -> (r: Option<Vec<u8>>)
        ensures
            bytes_view(r) == value_of_tag(self@, 0xc5),
    {
        self.value_for(0xc5)
    }

    /// Returns the key information on the card.
    pub fn get_key_information(&self) -> (r: Option<Vec<u8>>)
        ensures
            bytes_view(r) == value_of_tag(self@, 0xde),
    {
        self.value_for(0xde)
    }

    /// Returns the name of the card holder.
    pub fn get_name(&self) -> (r: Option<Vec<u8>>)
        ensures
            bytes_view(r) == value_of_tag(self@, 0x5b),
    {
        self.value_for(0x5b)
    }

    /// Returns the bytes for the algorithm attributes of the signature key.
    pub fn get_signature_algo_attributes(&self) -> (r: Option<Vec<u8>>)
        ensures
            bytes_view(r) == value_of_tag(self@, 0xc1),
    {
        self.value_for(0xc1)
    }

    /// Returns the bytes for the algorithm attributes of the encryption key.
    pub fn get_encryption_algo_attributes(&self) -> (r: Option<Vec<u8>>)
        ensures
            bytes_view(r) == value_of_tag(self@, 0xc2),
    {
        self.value_for(0xc2)
    }

    /// Returns the bytes for the algorithm attributes of the authentication key.
    pub fn get_authentication_algo_attributes(&self) -> (r: Option<Vec<u8>>)
        ensures
            bytes_view(r) == value_of_tag(self@, 0xc3),
    {
        self.value_for(0xc3)
    }
}

/// A deep copy of a data object and all the objects nested in it.
fn copy_tlv(tlv: &TLV) -> (r: TLV)
    ensures
        r@ == tlv@,
    decreases tlv,
{
    let mut subs: Vec<TLV> = Vec::new();
    let mut i: usize = 0;
    while i < tlv.subs.len()
        invariant
            i <= tlv.subs@.len(),
            subs@.len() == i,
            forall|j: int| 0 <= j < i ==> (#[trigger] subs@[j])@ == tlv.subs@[j]@,
        decreases tlv.subs@.len() - i,
    {
        assert(decreases_to!(tlv => tlv.subs@[i as int]));
        subs.push(copy_tlv(&tlv.subs[i]));
        i = i + 1;
    }
    let r = TLV { t: tlv.t, l: tlv.l, v: tlv.v.clone(), subs };
    assert(r@.subs =~= tlv@.subs);
    r
}

impl Clone for TLV {
    fn clone(&self) -> (r: TLV)
        ensures
            r@ == self@,
    {
        copy_tlv(self)
    }
}

/// `r` with `prefix` put in front of the objects it holds, if it holds any.
pub open spec fn prepend_ok(prefix: Seq<TlvModel>, r: Result<Seq<TlvModel>, TalktoSCError>) -> Result<
    Seq<TlvModel>,
    TalktoSCError,
> {
    match r {
        Ok(s) => Ok(prefix + s),
        Err(e) => Err(e),
    }
}

/// A length field in an unsupported long form (`0x80`, or `0x83` and above)
/// fails the decoding with `BadLength`: no object comes out, neither alone nor
/// in a list.
pub proof fn lemma_bad_length(d: Seq<u8>, recursive: bool)
    requires
        tag_field(d) matches Ok((_, _, ts)) && ts < d.len() && d[ts as int] >= 0x80 && d[ts as int]
            != 0x81 && d[ts as int] != 0x82,
    ensures
        decode_one(d, recursive) == Err::<TlvModel, TalktoSCError>(TalktoSCError::BadLength),
        !is_filler(d[0]) ==> decode_list(d, recursive) == Err::<Seq<TlvModel>, TalktoSCError>(
            TalktoSCError::BadLength,
        ),
{
    let ts = tag_field(d)->Ok_0.2;
    assert(d.subrange(ts as int, d.len() as int)[0] == d[ts as int]);
}

/// Decoding the object at the front of `d` reads no byte past the object: a
/// buffer `e` that agrees with `d` on those bytes decodes to the same object.
pub proof fn lemma_decode_one_prefix(d: Seq<u8>, e: Seq<u8>, recursive: bool)
    requires
        header(d) matches Ok((_, _, h, l)) && e.len() >= h + l && forall|i: int|
            0 <= i < h + l ==> e[i] == d[i],
    ensures
        header(e) == header(d),
        decode_one(e, recursive) == decode_one(d, recursive),
{
    let (t, c, h, l) = header(d)->Ok_0;
    let ts = tag_field(d)->Ok_0.2;
    assert(e[0] == d[0]);
    if ts == 2 {
        assert(e[1] == d[1]);
    }
    assert(tag_field(e) == tag_field(d));
    let ld = d.subrange(ts as int, d.len() as int);
    let le = e.subrange(ts as int, e.len() as int);
    assert(le[0] == ld[0]);
    if ld[0] == 0x81 || ld[0] == 0x82 {
        assert(le[1] == ld[1]);
    }
    if ld[0] == 0x82 {
        assert(le[2] == ld[2]);
    }
    assert(length_field(le) == length_field(ld));
    assert(header(e) == header(d));
    assert(e.subrange(h as int, h + l) =~= d.subrange(h as int, h + l));
}

/// Filler bytes in front of a buffer change nothing in what it decodes to.
pub proof fn lemma_filler_prefix(f: u8, d: Seq<u8>, recursive: bool)
    requires
        is_filler(f),
    ensures
        decode_list(seq![f] + d, recursive) == decode_list(d, recursive),
{
    let e = seq![f] + d;
    assert(e.subrange(1, e.len() as int) =~= d);
}

/// A filler byte between the first object of a buffer and what follows it
/// changes nothing in what the buffer decodes to.
pub proof fn lemma_filler_between(d: Seq<u8>, f: u8, recursive: bool)
    requires
        is_filler(f),
        d.len() > 0,
        !is_filler(d[0]),
        header(d) is Ok,
    ensures
        decode_list(
            d.subrange(0, object_size(d) as int) + seq![f] + d.subrange(
                object_size(d) as int,
                d.len() as int,
            ),
            recursive,
        ) == decode_list(d, recursive),
{
    let k = object_size(d);
    let rest = d.subrange(k as int, d.len() as int);
    let e = d.subrange(0, k as int) + seq![f] + rest;
    assert forall|i: int| 0 <= i < k implies e[i] == d[i] by {}
    lemma_decode_one_prefix(d, e, recursive);
    assert(object_size(e) == k);
    assert(e[0] == d[0]);
    assert(e.subrange(k as int, e.len() as int) =~= seq![f] + rest);
    lemma_filler_prefix(f, rest, recursive);
}

/// The objects of a tree in pre-order: the object itself, then the objects of
/// each nested one, in order.
pub open spec fn preorder(m: TlvModel) -> Seq<TlvModel>
    decreases m,
{
    seq![m] + preorder_all(m.subs)
}

/// The pre-orders of a sequence of trees, one after the other.
pub open spec fn preorder_all(s: Seq<TlvModel>) -> Seq<TlvModel>
    decreases s,
{
    if s.len() == 0 {
        seq![]
    } else {
        preorder(s[0]) + preorder_all(s.subrange(1, s.len() as int))
    }
}

/// The first object of `q` that carries `tag`.
pub open spec fn first_with_tag(q: Seq<TlvModel>, tag: u16) -> Option<TlvModel>
    decreases q.len(),
{
    if q.len() == 0 {
        None
    } else if q[0].tag == tag {
        Some(q[0])
    } else {
        first_with_tag(q.subrange(1, q.len() as int), tag)
    }
}

proof fn lemma_first_concat(a: Seq<TlvModel>, b: Seq<TlvModel>, tag: u16)
    ensures
        first_with_tag(a + b, tag) == match first_with_tag(a, tag) {
            Some(x) => Some(x),
            None => first_with_tag(b, tag),
        },
    decreases a.len(),
{
    if a.len() > 0 {
        assert((a + b).subrange(1, (a + b).len() as int) =~= a.subrange(1, a.len() as int) + b);
        lemma_first_concat(a.subrange(1, a.len() as int), b, tag);
    } else {
        assert(a + b =~= b);
    }
}

proof fn lemma_first_index(q: Seq<TlvModel>, tag: u16)
    ensures
        first_with_tag(q, tag) is None <==> forall|i: int| 0 <= i < q.len() ==> (#[trigger] q[i]).tag
            != tag,
        first_with_tag(q, tag) matches Some(n) ==> exists|j: int|
            0 <= j < q.len() && q[j] == n && n.tag == tag && forall|i: int|
                0 <= i < j ==> (#[trigger] q[i]).tag != tag,
    decreases q.len(),
{
    if q.len() > 0 {
        let rest = q.subrange(1, q.len() as int);
        lemma_first_index(rest, tag);
        if q[0].tag != tag {
            assert forall|i: int| 1 <= i < q.len() implies q[i] == rest[i - 1] by {}
            if first_with_tag(q, tag) is None {
                assert forall|i: int| 0 <= i < q.len() implies (#[trigger] q[i]).tag != tag by {
                    if i > 0 {
                        assert(q[i] == rest[i - 1]);
                    }
                }
            } else {
                let n = first_with_tag(q, tag)->Some_0;
                let j = choose|j: int|
                    0 <= j < rest.len() && rest[j] == n && n.tag == tag && forall|i: int|
                        0 <= i < j ==> (#[trigger] rest[i]).tag != tag;
                assert forall|i: int| 0 <= i < j + 1 implies (#[trigger] q[i]).tag != tag by {
                    if i > 0 {
                        assert(q[i] == rest[i - 1]);
                    }
                }
                assert(q[j + 1] == n);
            }
        }
    }
}

proof fn lemma_find_preorder(m: TlvModel, tag: u16)
    ensures
        find_in_tree(m, tag) == first_with_tag(preorder(m), tag),
    decreases m,
{
    lemma_first_concat(seq![m], preorder_all(m.subs), tag);
    assert(seq![m].subrange(1, 1) =~= Seq::<TlvModel>::empty());
    assert(first_with_tag(Seq::<TlvModel>::empty(), tag) is None);
    assert(first_with_tag(seq![m], tag) == if m.tag == tag {
        Some(m)
    } else {
        None
    });
    lemma_find_preorder_all(m.subs, tag);
}

proof fn lemma_find_preorder_all(s: Seq<TlvModel>, tag: u16)
    ensures
        find_in_forest(s, tag) == first_with_tag(preorder_all(s), tag),
    decreases s,
{
    if s.len() > 0 {
        lemma_find_preorder(s[0], tag);
        lemma_find_preorder_all(s.subrange(1, s.len() as int), tag);
        lemma_first_concat(preorder(s[0]), preorder_all(s.subrange(1, s.len() as int)), tag);
    }
}

/// Looking up a tag gives the first object that carries it in the pre-order
/// of the tree, and nothing when no object carries it.
pub proof fn lemma_find_tag_first_in_preorder(m: TlvModel, tag: u16)
    ensures
        find_in_tree(m, tag) == first_with_tag(preorder(m), tag),
        find_in_tree(m, tag) is None <==> forall|i: int|
            0 <= i < preorder(m).len() ==> (#[trigger] preorder(m)[i]).tag != tag,
        find_in_tree(m, tag) matches Some(n) ==> exists|j: int|
            0 <= j < preorder(m).len() && preorder(m)[j] == n && n.tag == tag && forall|i: int|
                0 <= i < j ==> (#[trigger] preorder(m)[i]).tag != tag,
{
    lemma_find_preorder(m, tag);
    lemma_first_index(preorder(m), tag);
}

/// The tag field that writes `tag`: one byte below 256, else two bytes.
pub open spec fn encode_tag(tag: u16) -> Seq<u8> {
    if tag < 256 {
        seq![tag as u8]
    } else {
        seq![(tag >> 8u16) as u8, (tag & 0xffu16) as u8]
    }
}

/// Whether `encode_tag` writes `tag` in a form that decodes back to it and
/// that does not start with a filler byte.
pub open spec fn encodable_tag(tag: u16) -> bool {
    if tag < 256 {
        !tag_continues(tag as u8) && !is_filler(tag as u8)
    } else {
        &&& tag_continues((tag >> 8u16) as u8)
        &&& !is_filler((tag >> 8u16) as u8)
        &&& tag & 0x80u16 == 0
        &&& !tag_continues((tag & 0xffu16) as u8)
    }
}

/// Whether `tag` marks a constructed object.
pub open spec fn tag_is_constructed(tag: u16) -> bool {
    tag_constructed(encode_tag(tag)[0])
}

/// The shortest length field for `len`.
pub open spec fn encode_length(len: u16) -> Seq<u8> {
    if len < 0x80 {
        seq![len as u8]
    } else if len < 256 {
        seq![0x81u8, len as u8]
    } else {
        seq![0x82u8, (len >> 8u16) as u8, (len & 0xffu16) as u8]
    }
}

/// An object written with its tag, the shortest length field, and its value.
pub open spec fn encode_tlv(tag: u16, value: Seq<u8>) -> Seq<u8> {
    encode_tag(tag) + encode_length(value.len() as u16) + value
}

/// The objects of `s` written one after the other.
pub open spec fn encode_all(s: Seq<TlvModel>) -> Seq<u8>
    decreases s.len(),
{
    if s.len() == 0 {
        seq![]
    } else {
        encode_tlv(s[0].tag, s[0].value) + encode_all(s.subrange(1, s.len() as int))
    }
}

/// A primitive object that `encode_tlv` writes in a form that decodes back.
pub open spec fn encodable_primitive(m: TlvModel) -> bool {
    &&& encodable_tag(m.tag)
    &&& !tag_is_constructed(m.tag)
    &&& m.value.len() <= 0xffff
    &&& m.len == m.value.len()
    &&& m.subs == Seq::<TlvModel>::empty()
}

/// The header of an encoded object, whatever follows it.
proof fn lemma_header_of_encoding(tag: u16, value: Seq<u8>, rest: Seq<u8>)
    requires
        encodable_tag(tag),
        value.len() <= 0xffff,
    ensures
        header(encode_tlv(tag, value) + rest) == Ok::<(u16, bool, nat, u16), TalktoSCError>(
            (
                tag,
                tag_is_constructed(tag),
                (encode_tag(tag).len() + encode_length(value.len() as u16).len()) as nat,
                value.len() as u16,
            ),
        ),
{
    let d = encode_tlv(tag, value) + rest;
    let et = encode_tag(tag);
    let len = value.len() as u16;
    let el = encode_length(len);
    assert(d =~= et + (el + (value + rest)));
    if tag < 256 {
        assert(d[0] == tag as u8);
        assert((tag as u8) as u16 == tag);
    } else {
        let b0 = (tag >> 8u16) as u8;
        let b1 = (tag & 0xffu16) as u8;
        assert(d[0] == b0 && d[1] == b1);
        assert((((b0 as u16) << 8u16) | ((b1 & 0x7f) as u16)) == tag) by (bit_vector)
            requires
                b0 == (tag >> 8u16) as u8,
                b1 == (tag & 0xffu16) as u8,
                tag & 0x80u16 == 0,
        ;
    }
    assert(tag_field(d) == Ok::<(u16, bool, nat), TalktoSCError>(
        (tag, tag_is_constructed(tag), et.len()),
    ));
    let ld = d.subrange(et.len() as int, d.len() as int);
    assert(ld =~= el + (value + rest));
    if len < 0x80 {
        assert(ld[0] == len as u8);
        assert((len as u8) as u16 == len);
    } else if len < 256 {
        assert(ld[0] == 0x81 && ld[1] == len as u8);
        assert((len as u8) as u16 == len);
    } else {
        let hi = (len >> 8u16) as u8;
        let lo = (len & 0xffu16) as u8;
        assert(ld[0] == 0x82 && ld[1] == hi && ld[2] == lo);
        assert((((hi as u16) << 8u16) | (lo as u16)) == len) by (bit_vector)
            requires
                hi == (len >> 8u16) as u8,
                lo == (len & 0xffu16) as u8,
        ;
    }
    assert(length_field(ld) == Ok::<(u16, nat), TalktoSCError>((len, el.len())));
}

/// A primitive object, written out, decodes back to itself whatever follows
/// it, and consumes exactly what was written.
pub proof fn lemma_primitive_round_trip(m: TlvModel, rest: Seq<u8>, recursive: bool)
    requires
        encodable_primitive(m),
    ensures
        decode_one(encode_tlv(m.tag, m.value) + rest, recursive) == Ok::<TlvModel, TalktoSCError>(m),
        object_size(encode_tlv(m.tag, m.value) + rest) == encode_tlv(m.tag, m.value).len(),
        consumed(encode_tlv(m.tag, m.value) + rest, recursive) == encode_tlv(m.tag, m.value).len(),
{
    let d = encode_tlv(m.tag, m.value) + rest;
    lemma_header_of_encoding(m.tag, m.value, rest);
    let h = encode_tag(m.tag).len() + encode_length(m.value.len() as u16).len();
    assert(d.subrange(h as int, (h + m.value.len()) as int) =~= m.value);
}

/// Primitive objects written one after the other decode back to themselves.
pub proof fn lemma_list_round_trip(s: Seq<TlvModel>, recursive: bool)
    requires
        forall|i: int| 0 <= i < s.len() ==> encodable_primitive(#[trigger] s[i]),
    ensures
        decode_list(encode_all(s), recursive) == Ok::<Seq<TlvModel>, TalktoSCError>(s),
    decreases s.len(),
{
    if s.len() > 0 {
        let tail = s.subrange(1, s.len() as int);
        let first = encode_tlv(s[0].tag, s[0].value);
        let d = encode_all(s);
        assert(encodable_primitive(s[0]));
        lemma_primitive_round_trip(s[0], encode_all(tail), recursive);
        lemma_header_of_encoding(s[0].tag, s[0].value, encode_all(tail));
        assert(d[0] == encode_tag(s[0].tag)[0]);
        assert(!is_filler(d[0]));
        assert(d.subrange(first.len() as int, d.len() as int) =~= encode_all(tail));
        lemma_list_round_trip(tail, recursive);
        assert(seq![s[0]] + tail =~= s);
    } else {
        assert(encode_all(s) =~= seq![]);
        assert(s =~= seq![]);
    }
}

/// A constructed object whose value is a run of primitive objects decodes,
/// recursively, to nested objects that written out again give back its value.
pub proof fn lemma_constructed_round_trip(tag: u16, children: Seq<TlvModel>)
    requires
        encodable_tag(tag),
        tag_is_constructed(tag),
        encode_all(children).len() <= 0xffff,
        forall|i: int| 0 <= i < children.len() ==> encodable_primitive(#[trigger] children[i]),
    ensures
        decode_one(encode_tlv(tag, encode_all(children)), true) matches Ok(m) && m.tag == tag
            && m.value == encode_all(children) && m.subs == children && encode_all(m.subs)
            == m.value,
{
    let value = encode_all(children);
    let d = encode_tlv(tag, value);
    lemma_header_of_encoding(tag, value, seq![]);
    assert(d + seq![] =~= d);
    let h = encode_tag(tag).len() + encode_length(value.len() as u16).len();
    assert(d.subrange(h as int, (h + value.len()) as int) =~= value);
    lemma_list_round_trip(children, true);
}

/// Reads the tag at `data[start..end]`.
fn tag_at(data: &Vec<u8>, start: usize, end: usize) -> (r: Result<(u16, bool, usize), TalktoSCError>)
    requires
        start <= end <= data@.len(),
    ensures
        match tag_field(data@.subrange(start as int, end as int)) {
            Ok((t, c, n)) => r == Ok::<(u16, bool, usize), TalktoSCError>((t, c, n as usize)),
            Err(e) => r == Err::<(u16, bool, usize), TalktoSCError>(e),
        },
{
    if start >= end {
        return Err(TalktoSCError::TruncatedTlv);
    }
    let first = data[start];
    let constructed = first & 0x20 == 0x20;
    if first & 0x1f != 0x1f {
        return Ok((first as u16, constructed, 1));
    }
    if end - start < 2 {
        return Err(TalktoSCError::TruncatedTlv);
    }
    let second = data[start + 1];
    if second & 0x1f == 0x1f {
        return Err(TalktoSCError::BadTagExtension);
    }
    Ok((((first as u16) << 8u16) | ((second & 0x7f) as u16), constructed, 2))
}

/// Reads the length field at `data[start..end]`.
fn length_at(data: &Vec<u8>, start: usize, end: usize) -> (r: Result<(u16, usize), TalktoSCError>)
    requires
        start <= end <= data@.len(),
    ensures
        match length_field(data@.subrange(start as int, end as int)) {
            Ok((l, n)) => r == Ok::<(u16, usize), TalktoSCError>((l, n as usize)),
            Err(e) => r == Err::<(u16, usize), TalktoSCError>(e),
        },
{
    if start >= end {
        return Err(TalktoSCError::TruncatedTlv);
    }
    let first = data[start];
    if first < 0x80 {
        Ok((first as u16, 1))
    } else if first == 0x81 {
        if end - start < 2 {
            return Err(TalktoSCError::TruncatedTlv);
        }
        Ok((data[start + 1] as u16, 2))
    } else if first == 0x82 {
        if end - start < 3 {
            return Err(TalktoSCError::TruncatedTlv);
        }
        Ok((((data[start + 1] as u16) << 8u16) | (data[start + 2] as u16), 3))
    } else {
        Err(TalktoSCError::BadLength)
    }
}

/// Reads the header of the object at `data[start..end]`.
fn header_at(data: &Vec<u8>, start: usize, end: usize) -> (r: Result<
    (u16, bool, usize, u16),
    TalktoSCError,
>)
    requires
        start <= end <= data@.len(),
    ensures
        match header(data@.subrange(start as int, end as int)) {
            Ok((t, c, h, l)) => r == Ok::<(u16, bool, usize, u16), TalktoSCError>(
                (t, c, h as usize, l),
            ),
            Err(e) => r == Err::<(u16, bool, usize, u16), TalktoSCError>(e),
        },
{
    let ghost d = data@.subrange(start as int, end as int);
    let (tag, constructed, ts) = match tag_at(data, start, end) {
        Ok(x) => x,
        Err(e) => return Err(e),
    };
    assert(d.subrange(ts as int, d.len() as int) =~= data@.subrange(start + ts, end as int));
    let (len, ls) = match length_at(data, start + ts, end) {
        Ok(x) => x,
        Err(e) => return Err(e),
    };
    if (len as usize) > end - start - ts - ls {
        return Err(TalktoSCError::TruncatedTlv);
    }
    Ok((tag, constructed, ts + ls, len))
}

/// Decodes the object at the front of `data[start..end]`, and gives the
/// position where it ends and whether it is constructed.
fn decode_at(data: &Vec<u8>, start: usize, end: usize, recursive: bool) -> (r: Result<
    (TLV, usize, bool),
    TalktoSCError,
>)
    requires
        start <= end <= data@.len(),
    ensures
        match decode_one(data@.subrange(start as int, end as int), recursive) {
            Ok(m) => r matches Ok((n, next, c)) && n@ == m && header(
                data@.subrange(start as int, end as int),
            ) is Ok && c == header(data@.subrange(start as int, end as int))->Ok_0.1 && next
                == start + object_size(data@.subrange(start as int, end as int)),
            Err(e) => r == Err::<(TLV, usize, bool), TalktoSCError>(e),
        },
    decreases end - start, 0usize,
{
    let ghost d = data@.subrange(start as int, end as int);
    let (t, constructed, h, l) = match header_at(data, start, end) {
        Ok(x) => x,
        Err(e) => return Err(e),
    };
    let vstart = start + h;
    let vend = vstart + l as usize;
    assert(d.subrange(h as int, h + l) =~= data@.subrange(vstart as int, vend as int));
    let v = copy_range(data, vstart, vend);
    if constructed && recursive {
        let subs = match list_at(data, vstart, vend, recursive) {
            Ok(x) => x,
            Err(e) => return Err(e),
        };
        let r = TLV { t, l, v, subs };
        assert(r@.subs =~= models(r.subs@));
        Ok((r, vend, constructed))
    } else {
        let r = TLV { t, l, v, subs: Vec::new() };
        assert(r@.subs =~= seq![]);
        Ok((r, vend, constructed))
    }
}

/// Decodes the objects of `data[start..end]`, skipping filler bytes.
fn list_at(data: &Vec<u8>, start: usize, end: usize, recursive: bool) -> (r: Result<
    Vec<TLV>,
    TalktoSCError,
>)
    requires
        start <= end <= data@.len(),
    ensures
        match decode_list(data@.subrange(start as int, end as int), recursive) {
            Ok(s) => r matches Ok(v) && models(v@) == s,
            Err(e) => r == Err::<Vec<TLV>, TalktoSCError>(e),
        },
    decreases end - start, 1usize,
{
    let mut result: Vec<TLV> = Vec::new();
    let mut pos: usize = start;
    assert(models(result@) =~= seq![]);
    assert(prepend_ok(seq![], decode_list(data@.subrange(start as int, end as int), recursive))
        =~= decode_list(data@.subrange(start as int, end as int), recursive)) by {
        match decode_list(data@.subrange(start as int, end as int), recursive) {
            Ok(s) => assert(seq![] + s =~= s),
            Err(_) => {},
        }
    }
    while pos < end
        invariant
            start <= pos <= end <= data@.len(),
            decode_list(data@.subrange(start as int, end as int), recursive) == prepend_ok(
                models(result@),
                decode_list(data@.subrange(pos as int, end as int), recursive),
            ),
        decreases end - pos,
    {
        let ghost d = data@.subrange(pos as int, end as int);
        if data[pos] == 0x00 || data[pos] == 0xff {
            assert(d.subrange(1, d.len() as int) =~= data@.subrange(pos + 1, end as int));
            pos = pos + 1;
        } else {
            let (node, next, _) = match decode_at(data, pos, end, recursive) {
                Ok(x) => x,
                Err(e) => return Err(e),
            };
            let ghost before = models(result@);
            assert(d.subrange(object_size(d) as int, d.len() as int) =~= data@.subrange(
                next as int,
                end as int,
            ));
            result.push(node);
            assert(models(result@) =~= before.push(node@));
            proof {
                match decode_list(data@.subrange(next as int, end as int), recursive) {
                    Ok(rest) => {
                        assert(before.push(node@) + rest =~= before + (seq![node@] + rest));
                    },
                    Err(_) => {},
                }
            }
            pos = next;
        }
    }
    assert(data@.subrange(end as int, end as int) =~= seq![]);
    assert(models(result@) + seq![] =~= models(result@));
    Ok(result)
}

/// Reads the first data object of `orig_data`, and gives back the bytes that
/// follow it: none when the object is constructed and decoded recursively,
/// since its nested objects are decoded from its own value.
pub fn read_single(orig_data: Vec<u8>, recursive: bool) -> (r: Result<(TLV, Vec<u8>), TalktoSCError>)
    ensures
        match decode_one(orig_data@, recursive) {
            Ok(m) => r matches Ok((n, rest)) && n@ == m && rest@ == orig_data@.subrange(
                consumed(orig_data@, recursive) as int,
                orig_data@.len() as int,
            ),
            Err(e) => r == Err::<(TLV, Vec<u8>), TalktoSCError>(e),
        },
{
    let len = orig_data.len();
    assert(orig_data@.subrange(0, len as int) =~= orig_data@);
    let (node, next, constructed) = match decode_at(&orig_data, 0, len, recursive) {
        Ok(x) => x,
        Err(e) => return Err(e),
    };
    let from = if constructed && recursive {
        len
    } else {
        next
    };
    let rest = copy_range(&orig_data, from, len);
    Ok((node, rest))
}

/// Decodes all the data objects of `orig_data`, in order, skipping the filler
/// bytes `0x00` and `0xFF` between them. Each object, constructed or not, is
/// followed by the next one after its value.
pub fn read_list(orig_data: Vec<u8>, recursive: bool) -> (r: Result<Vec<TLV>, TalktoSCError>)
    ensures
        match decode_list(orig_data@, recursive) {
            Ok(s) => r matches Ok(v) && models(v@) == s,
            Err(e) => r == Err::<Vec<TLV>, TalktoSCError>(e),
        },
{
    let len = orig_data.len();
    assert(orig_data@.subrange(0, len as int) =~= orig_data@);
    list_at(&orig_data, 0, len, recursive)
}

/// The upper-case hexadecimal digit for `d`, below 16.
pub open spec fn hex_digit(d: nat) -> char {
    seq!['0', '1', '2', '3', '4', '5', '6', '7', '8', '9', 'A', 'B', 'C', 'D', 'E', 'F'][d as int]
}

/// The upper-case hexadecimal digits of `n`, without leading zeros.
pub open spec fn hex_digits(n: nat) -> Seq<char>
    decreases n,
{
    if n < 16 {
        seq![hex_digit(n)]
    } else {
        hex_digits(n / 16).push(hex_digit(n % 16))
    }
}

/// `n` written as `0x` and its upper-case hexadecimal digits.
pub open spec fn hex_text(n: nat) -> Seq<char> {
    seq!['0', 'x'] + hex_digits(n)
}

/// Each byte of `s` written as a space and its `hex_text`.
pub open spec fn hexify_text(s: Seq<u8>) -> Seq<char>
    decreases s.len(),
{
    if s.len() == 0 {
        seq![]
    } else {
        hexify_text(s.drop_last()) + seq![' '] + hex_text(s.last() as nat)
    }
}

/// A byte as exactly two upper-case hexadecimal digits.
pub open spec fn two_digits(b: u8) -> Seq<char> {
    seq![hex_digit(b as nat / 16), hex_digit(b as nat % 16)]
}

/// The card serial number within an application identifier: its bytes 10
/// to 13, two hexadecimal digits each.
pub open spec fn serial_text(aid: Seq<u8>) -> Seq<char> {
    two_digits(aid[10]) + two_digits(aid[11]) + two_digits(aid[12]) + two_digits(aid[13])
}

/// Appends the hexadecimal digit for `d` to `out`.
fn push_hex_digit(out: &mut String, d: u8)
    requires
        d < 16,
    ensures
        final(out)@ == old(out)@.push(hex_digit(d as nat)),
{
    let table = "0123456789ABCDEF";
    proof {
        reveal_strlit("0123456789ABCDEF");
    }
    let digit = table.substring_char(d as usize, d as usize + 1);
    assert(digit@ =~= seq![hex_digit(d as nat)]);
    out.append(digit);
}

/// Appends the hexadecimal digits of `n` to `out`.
fn push_hex_digits(out: &mut String, n: u16)
    ensures
        final(out)@ == old(out)@ + hex_digits(n as nat),
    decreases n,
{
    if n >= 16 {
        push_hex_digits(out, n / 16);
    }
    push_hex_digit(out, (n % 16) as u8);
    if n < 16 {
        assert(old(out)@.push(hex_digit(n as nat)) =~= old(out)@ + hex_digits(n as nat));
    } else {
        assert(old(out)@ + hex_digits(n as nat / 16) + seq![hex_digit(n as nat % 16)]
            =~= old(out)@ + hex_digits(n as nat));
    }
}

/// Writes a value as `0x` and its upper-case hexadecimal digits.
pub fn hex(value: u16) -> (r: String)
    ensures
        r@ == hex_text(value as nat),
{
    let mut r = String::from_str("0x");
    proof {
        reveal_strlit("0x");
    }
    push_hex_digits(&mut r, value);
    assert(r@ =~= hex_text(value as nat));
    r
}

/// Writes each byte as a space and its value in hexadecimal.
pub fn hexify(value: Vec<u8>) -> (r: String)
    ensures
        r@ == hexify_text(value@),
{
    let mut r = String::new();
    let mut i: usize = 0;
    while i < value.len()
        invariant
            i <= value@.len(),
            r@ == hexify_text(value@.subrange(0, i as int)),
        decreases value@.len() - i,
    {
        let ghost before = r@;
        let hvalue = hex(value[i] as u16);
        r.append(" ");
        proof {
            reveal_strlit(" ");
        }
        r.append(hvalue.as_str());
        assert(value@.subrange(0, i + 1).drop_last() =~= value@.subrange(0, i as int));
        assert(r@ =~= before + seq![' '] + hex_text(value@[i as int] as nat));
        i = i + 1;
    }
    assert(value@.subrange(0, i as int) =~= value@);
    r
}

/// Returns the three fingerprints held in 60 bytes: signature, decryption
/// and authentication, 20 bytes each.
pub fn parse_fingerprints(data: Vec<u8>) -> (r: (Vec<u8>, Vec<u8>, Vec<u8>))
    requires
        data@.len() >= 60,
    ensures
        r.0@ == data@.subrange(0, 20),
        r.1@ == data@.subrange(20, 40),
        r.2@ == data@.subrange(40, 60),
{
    (copy_range(&data, 0, 20), copy_range(&data, 20, 40), copy_range(&data, 40, 60))
}

/// Returns the serial number of the card from its application identifier.
pub fn parse_card_serial(data: Vec<u8>) -> (r: String)
    requires
        data@.len() >= 14,
    ensures
        r@ == serial_text(data@),
{
    let mut res = String::new();
    let mut i: usize = 10;
    while i < 14
        invariant
            10 <= i <= 14,
            data@.len() >= 14,
            res@.len() == 2 * (i - 10),
            forall|j: int|
                10 <= j < i ==> res@.subrange(2 * (j - 10), 2 * (j - 10) + 2) == two_digits(
                    #[trigger] data@[j],
                ),
        decreases 14 - i,
    {
        let ghost before = res@;
        push_hex_digit(&mut res, data[i] / 16);
        push_hex_digit(&mut res, data[i] % 16);
        assert(res@ =~= before + two_digits(data@[i as int]));
        assert forall|j: int| 10 <= j < i + 1 implies res@.subrange(2 * (j - 10), 2 * (j - 10) + 2)
            == two_digits(#[trigger] data@[j]) by {
            if j < i {
                assert(res@.subrange(2 * (j - 10), 2 * (j - 10) + 2) =~= before.subrange(
                    2 * (j - 10),
                    2 * (j - 10) + 2,
                ));
            } else {
                assert(res@.subrange(2 * (j - 10), 2 * (j - 10) + 2) =~= two_digits(data@[j]));
            }
        }
        i = i + 1;
    }
    assert(res@ =~= serial_text(data@)) by {
        assert(res@.subrange(0, 2) == two_digits(data@[10]));
        assert(res@.subrange(2, 4) == two_digits(data@[11]));
        assert(res@.subrange(4, 6) == two_digits(data@[12]));
        assert(res@.subrange(6, 8) == two_digits(data@[13]));
    }
    res
}

} // verus!

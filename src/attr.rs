//! Typed attributes over the framing of `codec`: the tag of an attribute
//! decides how its payload reads, and the `DATA` container holds one nested
//! level of attributes.
use crate::codec::{parse_seq, payload_fits, seq_bytes, pad_len};
use crate::error::IpsetSysError;
use vstd::prelude::*;

verus! {

/// Longest set or type name, in bytes, without its terminating NUL.
pub const MAX_NAME_LEN: usize = 32;
/// Most attributes at one level of a bag.
pub const MAX_ATTRS: usize = 32;
/// Longest payload kept as opaque bytes.
pub const MAX_OPAQUE: usize = 1024;

pub const ATTR_PROTOCOL: u16 = 1;
pub const ATTR_SETNAME: u16 = 2;
pub const ATTR_TYPENAME: u16 = 3;
pub const ATTR_REVISION: u16 = 4;
pub const ATTR_FAMILY: u16 = 5;
pub const ATTR_FLAGS: u16 = 6;
/// The container tag: its payload is a run of data attributes.
pub const ATTR_DATA: u16 = 7;

pub const DATA_IP: u16 = 1;
pub const DATA_CIDR: u16 = 3;
pub const DATA_TIMEOUT: u16 = 6;

/// How the payload of an attribute reads.
#[derive(Debug, Clone, Copy, PartialEq, Eq, Structural)]
pub enum Shape {
    U8,
    /// A 32-bit integer in network byte order.
    U32,
    /// A NUL-terminated name.
    Str,
    /// An IPv4 (4 bytes) or IPv6 (16 bytes) address.
    Addr,
    /// Anything else, kept as it came.
    Bytes,
}

pub open spec fn top_shape(tag: u16) -> Shape {
    if tag == ATTR_PROTOCOL || tag == ATTR_REVISION || tag == ATTR_FAMILY {
        Shape::U8
    } else if tag == ATTR_SETNAME || tag == ATTR_TYPENAME {
        Shape::Str
    } else if tag == ATTR_FLAGS {
        Shape::U32
    } else {
        Shape::Bytes
    }
}

pub open spec fn data_shape(tag: u16) -> Shape {
    if tag == DATA_IP {
        Shape::Addr
    } else if tag == DATA_CIDR {
        Shape::U8
    } else if tag == DATA_TIMEOUT {
        Shape::U32
    } else {
        Shape::Bytes
    }
}

/// The value of a leaf attribute.
#[derive(Debug, PartialEq, Eq)]
pub enum Leaf {
    U8(u8),
    U32(u32),
    Str(Vec<u8>),
    Addr(Vec<u8>),
    Bytes(Vec<u8>),
}

pub enum LeafM {
    U8(u8),
    U32(u32),
    Str(Seq<u8>),
    Addr(Seq<u8>),
    Bytes(Seq<u8>),
}

impl View for Leaf {
    type V = LeafM;

    open spec fn view(&self) -> LeafM {
        match self {
            Leaf::U8(x) => LeafM::U8(*x),
            Leaf::U32(x) => LeafM::U32(*x),
            Leaf::Str(s) => LeafM::Str(s@),
            Leaf::Addr(a) => LeafM::Addr(a@),
            Leaf::Bytes(b) => LeafM::Bytes(b@),
        }
    }
}

/// One attribute inside the `DATA` container.
#[derive(Debug, PartialEq, Eq)]
pub struct Entry {
    pub key: u16,
    pub leaf: Leaf,
}

impl View for Entry {
    type V = (u16, LeafM);

    open spec fn view(&self) -> (u16, LeafM) {
        (self.key, self.leaf@)
    }
}

/// The value of a top-level attribute.
#[derive(Debug, PartialEq, Eq)]
pub enum Value {
    Leaf(Leaf),
    Data(Vec<Entry>),
}

pub enum ValueM {
    Leaf(LeafM),
    Data(Seq<(u16, LeafM)>),
}

pub open spec fn entries_view(es: Seq<Entry>) -> Seq<(u16, LeafM)> {
    es.map_values(|e: Entry| e@)
}

impl View for Value {
    type V = ValueM;

    open spec fn view(&self) -> ValueM {
        match self {
            Value::Leaf(l) => ValueM::Leaf(l@),
            Value::Data(es) => ValueM::Data(entries_view(es@)),
        }
    }
}

/// One top-level attribute.
#[derive(Debug, PartialEq, Eq)]
pub struct Attr {
    pub key: u16,
    pub value: Value,
}

impl View for Attr {
    type V = (u16, ValueM);

    open spec fn view(&self) -> (u16, ValueM) {
        (self.key, self.value@)
    }
}

pub open spec fn attrs_view(v: Seq<Attr>) -> Seq<(u16, ValueM)> {
    v.map_values(|a: Attr| a@)
}

pub open spec fn no_nul(s: Seq<u8>) -> bool {
    forall|i: int| 0 <= i < s.len() ==> s[i] != 0
}

/// A leaf value that the tag's shape admits.
pub open spec fn leaf_ok(shape: Shape, l: LeafM) -> bool {
    match (shape, l) {
        (Shape::U8, LeafM::U8(_)) => true,
        (Shape::U32, LeafM::U32(_)) => true,
        (Shape::Str, LeafM::Str(s)) => s.len() <= MAX_NAME_LEN && no_nul(s),
        (Shape::Addr, LeafM::Addr(a)) => a.len() == 4 || a.len() == 16,
        (Shape::Bytes, LeafM::Bytes(b)) => b.len() <= MAX_OPAQUE,
        _ => false,
    }
}

pub open spec fn unique_keys<V>(s: Seq<(u16, V)>) -> bool {
    forall|i: int, j: int| 0 <= i < j < s.len() ==> s[i].0 != s[j].0
}

/// A valid level of data attributes.
pub open spec fn entries_ok(es: Seq<(u16, LeafM)>) -> bool {
    &&& es.len() <= MAX_ATTRS
    &&& unique_keys(es)
    &&& forall|i: int| 0 <= i < es.len() ==> leaf_ok(data_shape(es[i].0), #[trigger] es[i].1)
}

pub open spec fn attr_ok(a: (u16, ValueM)) -> bool {
    if a.0 == ATTR_DATA {
        a.1 matches ValueM::Data(es) && entries_ok(es)
    } else {
        a.1 matches ValueM::Leaf(l) && leaf_ok(top_shape(a.0), l)
    }
}

/// A valid bag: each key at most once, each value of the shape its key asks.
pub open spec fn bag_ok(s: Seq<(u16, ValueM)>) -> bool {
    &&& s.len() <= MAX_ATTRS
    &&& unique_keys(s)
    &&& forall|i: int| 0 <= i < s.len() ==> attr_ok(#[trigger] s[i])
}

/// A 32-bit integer in network byte order.
pub open spec fn be32(x: u32) -> Seq<u8> {
    seq![(x >> 24) as u8, (x >> 16) as u8, (x >> 8) as u8, x as u8]
}

pub open spec fn rd32be(p: Seq<u8>) -> u32 {
    (p[0] as u32) << 24 | (p[1] as u32) << 16 | (p[2] as u32) << 8 | (p[3] as u32)
}

pub open spec fn leaf_payload(l: LeafM) -> Seq<u8> {
    match l {
        LeafM::U8(x) => seq![x],
        LeafM::U32(x) => be32(x),
        LeafM::Str(s) => s.push(0u8),
        LeafM::Addr(a) => a,
        LeafM::Bytes(b) => b,
    }
}

pub open spec fn dec_leaf(shape: Shape, p: Seq<u8>) -> Option<LeafM> {
    match shape {
        Shape::U8 => if p.len() == 1 { Some(LeafM::U8(p[0])) } else { None },
        Shape::U32 => if p.len() == 4 { Some(LeafM::U32(rd32be(p))) } else { None },
        Shape::Str => if p.len() >= 1 && p.last() == 0 { Some(LeafM::Str(p.drop_last())) } else { None },
        Shape::Addr => Some(LeafM::Addr(p)),
        Shape::Bytes => Some(LeafM::Bytes(p)),
    }
}

pub open spec fn entry_frame(e: (u16, LeafM)) -> (u16, Seq<u8>) {
    (e.0, leaf_payload(e.1))
}

pub open spec fn entries_bytes(es: Seq<(u16, LeafM)>) -> Seq<u8> {
    seq_bytes(es.map_values(|e: (u16, LeafM)| entry_frame(e)))
}

pub open spec fn attr_frame(a: (u16, ValueM)) -> (u16, Seq<u8>) {
    (a.0, match a.1 {
        ValueM::Leaf(l) => leaf_payload(l),
        ValueM::Data(es) => entries_bytes(es),
    })
}

/// The wire form of a bag.
pub open spec fn encode_bag(s: Seq<(u16, ValueM)>) -> Seq<u8> {
    seq_bytes(s.map_values(|a: (u16, ValueM)| attr_frame(a)))
}

/// Reads data attributes from frames, each by its tag's shape.
pub open spec fn dec_entries(fs: Seq<(u16, Seq<u8>)>) -> Option<Seq<(u16, LeafM)>>
    decreases fs.len(),
{
    if fs.len() == 0 {
        Some(Seq::empty())
    } else {
        match (dec_leaf(data_shape(fs[0].0), fs[0].1), dec_entries(fs.drop_first())) {
            (Some(l), Some(rest)) => Some(seq![(fs[0].0, l)] + rest),
            _ => None,
        }
    }
}

/// The data attributes held in a container's payload, when valid.
pub open spec fn decode_entries(p: Seq<u8>) -> Option<Seq<(u16, LeafM)>> {
    match parse_seq(p) {
        Some(fs) => match dec_entries(fs) {
            Some(es) => if entries_ok(es) { Some(es) } else { None },
            None => None,
        },
        None => None,
    }
}

pub open spec fn dec_attr(f: (u16, Seq<u8>)) -> Option<ValueM> {
    if f.0 == ATTR_DATA {
        match decode_entries(f.1) {
            Some(es) => Some(ValueM::Data(es)),
            None => None,
        }
    } else {
        match dec_leaf(top_shape(f.0), f.1) {
            Some(l) => Some(ValueM::Leaf(l)),
            None => None,
        }
    }
}

pub open spec fn dec_attrs(fs: Seq<(u16, Seq<u8>)>) -> Option<Seq<(u16, ValueM)>>
    decreases fs.len(),
{
    if fs.len() == 0 {
        Some(Seq::empty())
    } else {
        match (dec_attr(fs[0]), dec_attrs(fs.drop_first())) {
            (Some(v), Some(rest)) => Some(seq![(fs[0].0, v)] + rest),
            _ => None,
        }
    }
}

/// The bag that `b` holds, or `None` when `b` is not the wire form of a
/// valid bag.
pub open spec fn decode_bag(b: Seq<u8>) -> Option<Seq<(u16, ValueM)>> {
    match parse_seq(b) {
        Some(fs) => match dec_attrs(fs) {
            Some(s) => if bag_ok(s) { Some(s) } else { None },
            None => None,
        },
        None => None,
    }
}

proof fn lemma_be32(x: u32)
    ensures
        rd32be(be32(x)) == x,
{
    let b0 = (x >> 24) as u8;
    let b1 = (x >> 16) as u8;
    let b2 = (x >> 8) as u8;
    let b3 = x as u8;
    assert((b0 as u32) << 24 | (b1 as u32) << 16 | (b2 as u32) << 8 | (b3 as u32) == x) by (bit_vector)
        requires
            b0 == (x >> 24) as u8,
            b1 == (x >> 16) as u8,
            b2 == (x >> 8) as u8,
            b3 == x as u8,
    ;
}

pub proof fn lemma_leaf_round_trip(shape: Shape, l: LeafM)
    requires
        leaf_ok(shape, l),
    ensures
        dec_leaf(shape, leaf_payload(l)) == Some(l),
        leaf_payload(l).len() <= MAX_OPAQUE,
{
    match l {
        LeafM::U32(x) => lemma_be32(x),
        LeafM::Str(s) => assert(s.push(0u8).drop_last() =~= s),
        _ => {},
    }
}

proof fn lemma_frame_len(tag: u16, p: Seq<u8>)
    ensures
        crate::codec::frame_bytes(tag, p).len() == p.len() + 4 + pad_len(p.len()),
{
    reveal(crate::codec::frame_bytes);
}

/// A run of frames whose payloads are each at most `m` bytes takes at most
/// `m + 7` bytes a frame.
proof fn lemma_seq_bytes_len(fs: Seq<(u16, Seq<u8>)>, m: nat)
    requires
        forall|i: int| 0 <= i < fs.len() ==> (#[trigger] fs[i]).1.len() <= m,
    ensures
        seq_bytes(fs).len() <= fs.len() * (m + 7),
    decreases fs.len(),
{
    if fs.len() > 0 {
        let tail = fs.drop_first();
        assert forall|i: int| 0 <= i < tail.len() implies (#[trigger] tail[i]).1.len() <= m by {
            assert(tail[i] == fs[i + 1]);
        }
        lemma_seq_bytes_len(tail, m);
        lemma_frame_len(fs[0].0, fs[0].1);
        assert(fs[0].1.len() <= m);
        assert(fs.len() * (m + 7) == tail.len() * (m + 7) + (m + 7)) by (nonlinear_arith)
            requires
                tail.len() + 1 == fs.len(),
        ;
    }
}

proof fn lemma_dec_entries(es: Seq<(u16, LeafM)>)
    requires
        forall|i: int| 0 <= i < es.len() ==> leaf_ok(data_shape(es[i].0), #[trigger] es[i].1),
    ensures
        dec_entries(es.map_values(|e: (u16, LeafM)| entry_frame(e))) == Some(es),
    decreases es.len(),
{
    let fs = es.map_values(|e: (u16, LeafM)| entry_frame(e));
    if es.len() > 0 {
        let tail = es.drop_first();
        assert forall|i: int| 0 <= i < tail.len() implies leaf_ok(data_shape(tail[i].0), #[trigger] tail[i].1) by {
            assert(tail[i] == es[i + 1]);
        }
        lemma_dec_entries(tail);
        assert(fs.drop_first() =~= tail.map_values(|e: (u16, LeafM)| entry_frame(e)));
        assert(leaf_ok(data_shape(es[0].0), es[0].1));
        lemma_leaf_round_trip(data_shape(es[0].0), es[0].1);
        assert(seq![(fs[0].0, es[0].1)] + tail =~= es);
    } else {
        assert(es =~= Seq::<(u16, LeafM)>::empty());
    }
}

pub proof fn lemma_entries_round_trip(es: Seq<(u16, LeafM)>)
    requires
        entries_ok(es),
    ensures
        decode_entries(entries_bytes(es)) == Some(es),
        entries_bytes(es).len() <= MAX_ATTRS * (MAX_OPAQUE + 7),
{
    let fs = es.map_values(|e: (u16, LeafM)| entry_frame(e));
    assert forall|i: int| 0 <= i < fs.len() implies payload_fits(#[trigger] fs[i].1) && fs[i].1.len() <= MAX_OPAQUE by {
        assert(leaf_ok(data_shape(es[i].0), es[i].1));
        lemma_leaf_round_trip(data_shape(es[i].0), es[i].1);
    }
    assert forall|i: int| 0 <= i < fs.len() implies (#[trigger] fs[i]).1.len() <= MAX_OPAQUE by {}
    crate::codec::lemma_parse_seq_bytes(fs);
    lemma_dec_entries(es);
    lemma_seq_bytes_len(fs, MAX_OPAQUE as nat);
    assert(fs.len() * (MAX_OPAQUE + 7) <= MAX_ATTRS * (MAX_OPAQUE + 7)) by (nonlinear_arith)
        requires
            fs.len() <= MAX_ATTRS,
    ;
}

proof fn lemma_attr_round_trip(a: (u16, ValueM))
    requires
        attr_ok(a),
    ensures
        dec_attr(attr_frame(a)) == Some(a.1),
        payload_fits(attr_frame(a).1),
{
    match a.1 {
        ValueM::Leaf(l) => lemma_leaf_round_trip(top_shape(a.0), l),
        ValueM::Data(es) => lemma_entries_round_trip(es),
    }
}

proof fn lemma_dec_attrs(s: Seq<(u16, ValueM)>)
    requires
        forall|i: int| 0 <= i < s.len() ==> attr_ok(#[trigger] s[i]),
    ensures
        dec_attrs(s.map_values(|a: (u16, ValueM)| attr_frame(a))) == Some(s),
    decreases s.len(),
{
    let fs = s.map_values(|a: (u16, ValueM)| attr_frame(a));
    if s.len() > 0 {
        let tail = s.drop_first();
        assert forall|i: int| 0 <= i < tail.len() implies attr_ok(#[trigger] tail[i]) by {
            assert(tail[i] == s[i + 1]);
        }
        lemma_dec_attrs(tail);
        assert(fs.drop_first() =~= tail.map_values(|a: (u16, ValueM)| attr_frame(a)));
        assert(attr_ok(s[0]));
        lemma_attr_round_trip(s[0]);
        assert(seq![(fs[0].0, s[0].1)] + tail =~= s);
    } else {
        assert(s =~= Seq::<(u16, ValueM)>::empty());
    }
}

/// Decoding the wire form of a valid bag gives back the same bag.
pub proof fn lemma_round_trip(s: Seq<(u16, ValueM)>)
    requires
        bag_ok(s),
    ensures
        decode_bag(encode_bag(s)) == Some(s),
{
    let fs = s.map_values(|a: (u16, ValueM)| attr_frame(a));
    assert forall|i: int| 0 <= i < fs.len() implies payload_fits(#[trigger] fs[i].1) by {
        assert(attr_ok(s[i]));
        lemma_attr_round_trip(s[i]);
    }
    crate::codec::lemma_parse_seq_bytes(fs);
    lemma_dec_attrs(s);
}

/// The wire form of a valid bag stays well inside a 32-bit length.
pub proof fn lemma_encode_len(s: Seq<(u16, ValueM)>)
    requires
        bag_ok(s),
    ensures
        encode_bag(s).len() <= MAX_ATTRS * (0xffff + 7),
{
    let fs = s.map_values(|a: (u16, ValueM)| attr_frame(a));
    assert forall|i: int| 0 <= i < fs.len() implies (#[trigger] fs[i]).1.len() <= 0xffff by {
        assert(attr_ok(s[i]));
        lemma_attr_round_trip(s[i]);
    }
    lemma_seq_bytes_len(fs, 0xffff);
    assert(fs.len() * (0xffff + 7) <= MAX_ATTRS * (0xffff + 7)) by (nonlinear_arith)
        requires
            fs.len() <= MAX_ATTRS,
    ;
}

} // verus!

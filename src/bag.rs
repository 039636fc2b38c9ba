//! Executable attribute bags: building them with validation, and moving them
//! to and from their wire form.
use crate::attr::{
    attr_frame, attrs_view, bag_ok, be32, dec_attr, dec_attrs, dec_entries, dec_leaf, decode_bag,
    decode_entries, encode_bag, entries_bytes, entries_ok, entries_view, entry_frame, leaf_ok,
    leaf_payload, lemma_round_trip, lemma_leaf_round_trip, lemma_entries_round_trip, no_nul, rd32be, top_shape, data_shape, unique_keys, Attr,
    Entry, Leaf, LeafM, Shape, Value, ValueM, ATTR_DATA, MAX_ATTRS, MAX_NAME_LEN, MAX_OPAQUE,
};
use crate::codec::{prepend, frames_from_bytes, frames_to_bytes, frames_view, parse_seq, payload_fits, Frame};
use crate::error::IpsetSysError;
use vstd::prelude::*;

verus! {

pub open spec fn has_key<V>(s: Seq<(u16, V)>, key: u16) -> bool {
    exists|i: int| 0 <= i < s.len() && s[i].0 == key
}

/// What adding `(key, l)` to a level holding `s` gives: a string longer than
/// a name may be is `ArgTooLong`; a value of the wrong shape, a key already
/// there, or a full level is `CommandInvalid`.
pub open spec fn put_outcome<V>(shape: Shape, s: Seq<(u16, V)>, key: u16, l: LeafM) -> Result<(), IpsetSysError> {
    if l matches LeafM::Str(t) && t.len() > MAX_NAME_LEN {
        Err(IpsetSysError::ArgTooLong)
    } else if !leaf_ok(shape, l) || has_key(s, key) || s.len() >= MAX_ATTRS {
        Err(IpsetSysError::CommandInvalid)
    } else {
        Ok(())
    }
}

fn leaf_valid(shape: Shape, l: &Leaf) -> (r: bool)
    ensures
        r == leaf_ok(shape, l@),
{
    match (shape, l) {
        (Shape::U8, Leaf::U8(_)) => true,
        (Shape::U32, Leaf::U32(_)) => true,
        (Shape::Str, Leaf::Str(s)) => {
            if s.len() > MAX_NAME_LEN {
                return false;
            }
            let mut i: usize = 0;
            while i < s.len()
                invariant
                    i <= s@.len(),
                    s@.len() <= MAX_NAME_LEN,
                    shape == Shape::Str,
                    l@ == LeafM::Str(s@),
                    forall|k: int| 0 <= k < i ==> s@[k] != 0,
                decreases s@.len() - i,
            {
                if s[i] == 0 {
                    assert(!no_nul(s@));
                    return false;
                }
                i = i + 1;
            }
            true
        },
        (Shape::Addr, Leaf::Addr(a)) => a.len() == 4 || a.len() == 16,
        (Shape::Bytes, Leaf::Bytes(b)) => b.len() <= MAX_OPAQUE,
        _ => false,
    }
}

fn keys_unique(keys: &Vec<u16>) -> (r: bool)
    ensures
        r == (forall|i: int, j: int| 0 <= i < j < keys@.len() ==> keys@[i] != keys@[j]),
{
    let n: usize = keys.len();
    let mut i: usize = 0;
    while i < n
        invariant
            n == keys@.len(),
            i <= n,
            forall|a: int, b: int| 0 <= a < i && a < b < n ==> keys@[a] != keys@[b],
        decreases n - i,
    {
        let mut j: usize = i + 1;
        while j < n
            invariant
                n == keys@.len(),
                i < n,
                i < j <= n,
                forall|a: int, b: int| 0 <= a < i && a < b < n ==> keys@[a] != keys@[b],
                forall|b: int| i < b < j ==> keys@[i as int] != keys@[b],
            decreases n - j,
        {
            if keys[i] == keys[j] {
                return false;
            }
            j = j + 1;
        }
        i = i + 1;
    }
    true
}

fn entries_valid(es: &Vec<Entry>) -> (r: bool)
    ensures
        r == entries_ok(entries_view(es@)),
{
    let ghost v = entries_view(es@);
    if es.len() > MAX_ATTRS {
        return false;
    }
    let mut keys: Vec<u16> = Vec::new();
    let mut i: usize = 0;
    while i < es.len()
        invariant
            i <= es@.len(),
            v == entries_view(es@),
            keys@.len() == i,
            forall|k: int| 0 <= k < i ==> keys@[k] == v[k].0,
            forall|k: int| 0 <= k < i ==> leaf_ok(data_shape(v[k].0), #[trigger] v[k].1),
        decreases es@.len() - i,
    {
        if !leaf_valid(data_shape_exec(es[i].key), &es[i].leaf) {
            assert(v[i as int] == es@[i as int]@);
            assert(!leaf_ok(data_shape(v[i as int].0), v[i as int].1));
            return false;
        }
        keys.push(es[i].key);
        i = i + 1;
    }
    let u = keys_unique(&keys);
    proof {
        if u != unique_keys(v) {
            if u {
                let (a, b) = choose|a: int, b: int| 0 <= a < b < v.len() && v[a].0 == v[b].0;
                assert(keys@[a] == keys@[b]);
            } else {
                let (a, b) = choose|a: int, b: int| 0 <= a < b < keys@.len() && keys@[a] == keys@[b];
                assert(v[a].0 == v[b].0);
            }
        }
    }
    u
}

fn attrs_valid(v: &Vec<Attr>) -> (r: bool)
    ensures
        r == bag_ok(attrs_view(v@)),
{
    let ghost s = attrs_view(v@);
    if v.len() > MAX_ATTRS {
        return false;
    }
    let mut keys: Vec<u16> = Vec::new();
    let mut i: usize = 0;
    while i < v.len()
        invariant
            i <= v@.len(),
            s == attrs_view(v@),
            keys@.len() == i,
            forall|k: int| 0 <= k < i ==> keys@[k] == s[k].0,
            forall|k: int| 0 <= k < i ==> crate::attr::attr_ok(#[trigger] s[k]),
        decreases v@.len() - i,
    {
        let ok = if v[i].key == ATTR_DATA {
            match &v[i].value {
                Value::Data(es) => entries_valid(es),
                Value::Leaf(_) => false,
            }
        } else {
            match &v[i].value {
                Value::Leaf(l) => leaf_valid(top_shape_exec(v[i].key), l),
                Value::Data(_) => false,
            }
        };
        if !ok {
            assert(s[i as int] == v@[i as int]@);
            assert(!crate::attr::attr_ok(s[i as int]));
            return false;
        }
        keys.push(v[i].key);
        i = i + 1;
    }
    let u = keys_unique(&keys);
    proof {
        if u != unique_keys(s) {
            if u {
                let (a, b) = choose|a: int, b: int| 0 <= a < b < s.len() && s[a].0 == s[b].0;
                assert(keys@[a] == keys@[b]);
            } else {
                let (a, b) = choose|a: int, b: int| 0 <= a < b < keys@.len() && keys@[a] == keys@[b];
                assert(s[a].0 == s[b].0);
            }
        }
    }
    u
}

fn data_shape_exec(tag: u16) -> (r: Shape)
    ensures
        r == data_shape(tag),
{
    if tag == crate::attr::DATA_IP {
        Shape::Addr
    } else if tag == crate::attr::DATA_CIDR {
        Shape::U8
    } else if tag == crate::attr::DATA_TIMEOUT {
        Shape::U32
    } else {
        Shape::Bytes
    }
}

fn top_shape_exec(tag: u16) -> (r: Shape)
    ensures
        r == top_shape(tag),
{
    if tag == crate::attr::ATTR_PROTOCOL || tag == crate::attr::ATTR_REVISION
        || tag == crate::attr::ATTR_FAMILY {
        Shape::U8
    } else if tag == crate::attr::ATTR_SETNAME || tag == crate::attr::ATTR_TYPENAME {
        Shape::Str
    } else if tag == crate::attr::ATTR_FLAGS {
        Shape::U32
    } else {
        Shape::Bytes
    }
}

fn entries_have_key(v: &Vec<Entry>, key: u16) -> (r: bool)
    ensures
        r == has_key(entries_view(v@), key),
{
    let ghost s = entries_view(v@);
    let mut i: usize = 0;
    while i < v.len()
        invariant
            i <= v@.len(),
            s == entries_view(v@),
            forall|k: int| 0 <= k < i ==> s[k].0 != key,
        decreases v@.len() - i,
    {
        if v[i].key == key {
            assert(s[i as int].0 == key);
            return true;
        }
        i = i + 1;
    }
    false
}

fn attrs_have_key(v: &Vec<Attr>, key: u16) -> (r: bool)
    ensures
        r == has_key(attrs_view(v@), key),
{
    let ghost s = attrs_view(v@);
    let mut i: usize = 0;
    while i < v.len()
        invariant
            i <= v@.len(),
            s == attrs_view(v@),
            forall|k: int| 0 <= k < i ==> s[k].0 != key,
        decreases v@.len() - i,
    {
        if v[i].key == key {
            assert(s[i as int].0 == key);
            return true;
        }
        i = i + 1;
    }
    false
}

/// The outcome of adding a leaf attribute at the top level; the container
/// tag takes no leaf.
pub open spec fn top_put_outcome(s: Seq<(u16, ValueM)>, key: u16, l: LeafM) -> Result<(), IpsetSysError> {
    if key == ATTR_DATA {
        Err(IpsetSysError::CommandInvalid)
    } else {
        put_outcome(top_shape(key), s, key, l)
    }
}

/// The attributes of the `DATA` container, valid at every step.
#[derive(Debug, PartialEq, Eq)]
pub struct DataBag {
    entries: Vec<Entry>,
}

impl View for DataBag {
    type V = Seq<(u16, LeafM)>;

    closed spec fn view(&self) -> Seq<(u16, LeafM)> {
        entries_view(self.entries@)
    }
}

impl DataBag {
    pub open spec fn wf(&self) -> bool {
        entries_ok(self@)
    }

    pub fn new() -> (r: DataBag)
        ensures
            r.wf(),
            r@ == Seq::<(u16, LeafM)>::empty(),
    {
        let r = DataBag { entries: Vec::new() };
        assert(r@ =~= Seq::<(u16, LeafM)>::empty());
        r
    }

    /// Adds `(key, leaf)` when the key is new and the leaf has the shape the
    /// key asks; otherwise leaves the bag as it was.
    pub fn put(&mut self, key: u16, leaf: Leaf) -> (r: Result<(), IpsetSysError>)
        requires
            old(self).wf(),
        ensures
            final(self).wf(),
            r == put_outcome(data_shape(key), old(self)@, key, leaf@),
            r is Ok ==> final(self)@ == old(self)@.push((key, leaf@)),
            r is Err ==> final(self)@ == old(self)@,
    {
        if let Leaf::Str(t) = &leaf {
            if t.len() > MAX_NAME_LEN {
                return Err(IpsetSysError::ArgTooLong);
            }
        }
        if !leaf_valid(data_shape_exec(key), &leaf) || entries_have_key(&self.entries, key)
            || self.entries.len() >= MAX_ATTRS {
            return Err(IpsetSysError::CommandInvalid);
        }
        let ghost before = self@;
        self.entries.push(Entry { key, leaf });
        proof {
            assert(self@ =~= before.push((key, leaf@)));
            assert forall|i: int, j: int| 0 <= i < j < self@.len() implies self@[i].0 != self@[j].0 by {
                if j == before.len() {
                    assert(self@[i] == before[i]);
                }
            }
            assert forall|i: int| 0 <= i < self@.len() implies leaf_ok(data_shape(self@[i].0), #[trigger] self@[i].1) by {
                if i < before.len() {
                    assert(self@[i] == before[i]);
                }
            }
        }
        Ok(())
    }
}

/// A bag of top-level attributes, valid at every step.
#[derive(Debug, PartialEq, Eq)]
pub struct AttributeBag {
    attrs: Vec<Attr>,
}

impl View for AttributeBag {
    type V = Seq<(u16, ValueM)>;

    closed spec fn view(&self) -> Seq<(u16, ValueM)> {
        attrs_view(self.attrs@)
    }
}

impl AttributeBag {
    pub open spec fn wf(&self) -> bool {
        bag_ok(self@)
    }

    pub fn new() -> (r: AttributeBag)
        ensures
            r.wf(),
            r@ == Seq::<(u16, ValueM)>::empty(),
    {
        let r = AttributeBag { attrs: Vec::new() };
        assert(r@ =~= Seq::<(u16, ValueM)>::empty());
        r
    }

    proof fn lemma_push_ok(before: Seq<(u16, ValueM)>, a: (u16, ValueM))
        requires
            bag_ok(before),
            !has_key(before, a.0),
            before.len() < MAX_ATTRS,
            crate::attr::attr_ok(a),
        ensures
            bag_ok(before.push(a)),
    {
        let after = before.push(a);
        assert forall|i: int, j: int| 0 <= i < j < after.len() implies after[i].0 != after[j].0 by {
            if j == before.len() {
                assert(after[i] == before[i]);
            }
        }
        assert forall|i: int| 0 <= i < after.len() implies crate::attr::attr_ok(#[trigger] after[i]) by {
            if i < before.len() {
                assert(after[i] == before[i]);
            }
        }
    }

    /// Adds a leaf attribute when the key is new, is not the container tag,
    /// and the leaf has the shape the key asks; otherwise leaves the bag as it
    /// was.
    pub fn put(&mut self, key: u16, leaf: Leaf) -> (r: Result<(), IpsetSysError>)
        requires
            old(self).wf(),
        ensures
            final(self).wf(),
            r == top_put_outcome(old(self)@, key, leaf@),
            r is Ok ==> final(self)@ == old(self)@.push((key, ValueM::Leaf(leaf@))),
            r is Err ==> final(self)@ == old(self)@,
    {
        if key == ATTR_DATA {
            return Err(IpsetSysError::CommandInvalid);
        }
        if let Leaf::Str(t) = &leaf {
            if t.len() > MAX_NAME_LEN {
                return Err(IpsetSysError::ArgTooLong);
            }
        }
        if !leaf_valid(top_shape_exec(key), &leaf) || attrs_have_key(&self.attrs, key)
            || self.attrs.len() >= MAX_ATTRS {
            return Err(IpsetSysError::CommandInvalid);
        }
        let ghost before = self@;
        let ghost lv = leaf@;
        self.attrs.push(Attr { key, value: Value::Leaf(leaf) });
        proof {
            assert(self@ =~= before.push((key, ValueM::Leaf(lv))));
            Self::lemma_push_ok(before, (key, ValueM::Leaf(lv)));
        }
        Ok(())
    }

    /// Adds the `DATA` container, unless the bag has one already or is full.
    pub fn put_data(&mut self, data: DataBag) -> (r: Result<(), IpsetSysError>)
        requires
            old(self).wf(),
            data.wf(),
        ensures
            final(self).wf(),
            r is Ok <==> !has_key(old(self)@, ATTR_DATA) && old(self)@.len() < MAX_ATTRS,
            r is Ok ==> final(self)@ == old(self)@.push((ATTR_DATA, ValueM::Data(data@))),
            r is Err ==> final(self)@ == old(self)@ && r == Err::<(), IpsetSysError>(IpsetSysError::CommandInvalid),
    {
        if attrs_have_key(&self.attrs, ATTR_DATA) || self.attrs.len() >= MAX_ATTRS {
            return Err(IpsetSysError::CommandInvalid);
        }
        let ghost before = self@;
        let ghost dv = data@;
        self.attrs.push(Attr { key: ATTR_DATA, value: Value::Data(data.entries) });
        proof {
            assert(self@ =~= before.push((ATTR_DATA, ValueM::Data(dv))));
            Self::lemma_push_ok(before, (ATTR_DATA, ValueM::Data(dv)));
        }
        Ok(())
    }
}

fn leaf_bytes(l: &Leaf) -> (r: Vec<u8>)
    ensures
        r@ == leaf_payload(l@),
{
    match l {
        Leaf::U8(x) => {
            let r = vec![*x];
            assert(r@ =~= seq![*x]);
            r
        },
        Leaf::U32(x) => {
            let x = *x;
            let r = vec![(x >> 24) as u8, (x >> 16) as u8, (x >> 8) as u8, x as u8];
            assert(r@ =~= be32(x));
            r
        },
        Leaf::Str(t) => {
            let mut r = vstd::slice::slice_to_vec(t.as_slice());
            r.push(0u8);
            r
        },
        Leaf::Addr(t) => vstd::slice::slice_to_vec(t.as_slice()),
        Leaf::Bytes(t) => vstd::slice::slice_to_vec(t.as_slice()),
    }
}

fn entries_to_bytes(es: &Vec<Entry>) -> (r: Vec<u8>)
    requires
        entries_ok(entries_view(es@)),
    ensures
        r@ == entries_bytes(entries_view(es@)),
        payload_fits(r@),
{
    let ghost v = entries_view(es@);
    let ghost target = v.map_values(|e: (u16, LeafM)| entry_frame(e));
    let mut fs: Vec<Frame> = Vec::new();
    let mut i: usize = 0;
    while i < es.len()
        invariant
            i <= es@.len(),
            v == entries_view(es@),
            entries_ok(v),
            target == v.map_values(|e: (u16, LeafM)| entry_frame(e)),
            frames_view(fs@) == target.take(i as int),
            forall|k: int| 0 <= k < fs@.len() ==> payload_fits(#[trigger] fs@[k].payload@),
        decreases es@.len() - i,
    {
        let p = leaf_bytes(&es[i].leaf);
        proof {
            assert(v[i as int] == es@[i as int]@);
            assert(leaf_ok(data_shape(v[i as int].0), v[i as int].1));
            lemma_leaf_round_trip(data_shape(v[i as int].0), v[i as int].1);
        }
        assert(target[i as int] == (es@[i as int].key, p@));
        let ghost old_fs = fs@;
        fs.push(Frame { tag: es[i].key, payload: p });
        i = i + 1;
        proof {
            assert(frames_view(fs@) =~= frames_view(old_fs).push(fs@[i - 1]@));
            assert(target.take(i as int) =~= target.take(i - 1).push(target[i - 1]));
            assert(frames_view(fs@) =~= target.take(i as int));
            assert forall|k: int| 0 <= k < fs@.len() implies payload_fits(#[trigger] fs@[k].payload@) by {
                if k < old_fs.len() {
                    assert(fs@[k] == old_fs[k]);
                }
            }
        }
    }
    assert(target.take(i as int) =~= target);
    let r = frames_to_bytes(&fs);
    proof {
        lemma_entries_round_trip(v);
    }
    r
}

fn leaf_from(shape: Shape, p: &Vec<u8>) -> (r: Option<Leaf>)
    ensures
        match r {
            None => dec_leaf(shape, p@) is None,
            Some(l) => dec_leaf(shape, p@) == Some(l@),
        },
{
    let n: usize = p.len();
    match shape {
        Shape::U8 => if n == 1 {
            Some(Leaf::U8(p[0]))
        } else {
            None
        },
        Shape::U32 => if n == 4 {
            Some(Leaf::U32((p[0] as u32) << 24 | (p[1] as u32) << 16 | (p[2] as u32) << 8 | (p[3] as u32)))
        } else {
            None
        },
        Shape::Str => if n >= 1 && p[n - 1] == 0 {
            let mut t = vstd::slice::slice_to_vec(p.as_slice());
            t.pop();
            assert(t@ =~= p@.drop_last());
            Some(Leaf::Str(t))
        } else {
            None
        },
        Shape::Addr => Some(Leaf::Addr(vstd::slice::slice_to_vec(p.as_slice()))),
        Shape::Bytes => Some(Leaf::Bytes(vstd::slice::slice_to_vec(p.as_slice()))),
    }
}

fn entries_from(fs: &Vec<Frame>) -> (r: Option<Vec<Entry>>)
    ensures
        match r {
            None => dec_entries(frames_view(fs@)) is None,
            Some(es) => dec_entries(frames_view(fs@)) == Some(entries_view(es@)),
        },
{
    let ghost all = frames_view(fs@);
    let mut out: Vec<Entry> = Vec::new();
    let mut i: usize = 0;
    proof {
        assert(all.skip(0) =~= all);
        if let Some(r) = dec_entries(all) {
            assert(Seq::<(u16, LeafM)>::empty() + r =~= r);
        }
    }
    while i < fs.len()
        invariant
            i <= fs@.len(),
            all == frames_view(fs@),
            dec_entries(all) == prepend(entries_view(out@), dec_entries(all.skip(i as int))),
        decreases fs@.len() - i,
    {
        let ghost rest = all.skip(i as int);
        assert(rest[0] == fs@[i as int]@);
        assert(rest.drop_first() =~= all.skip(i + 1));
        match leaf_from(data_shape_exec(fs[i].tag), &fs[i].payload) {
            None => {
                return None;
            },
            Some(l) => {
                proof {
                    crate::codec::lemma_prepend_push(entries_view(out@), (fs@[i as int].tag, l@), dec_entries(all.skip(i + 1)));
                }
                let ghost old_out = out@;
                out.push(Entry { key: fs[i].tag, leaf: l });
                assert(entries_view(out@) =~= entries_view(old_out).push((fs@[i as int].tag, l@)));
                i = i + 1;
            },
        }
    }
    assert(all.skip(i as int) =~= Seq::<(u16, Seq<u8>)>::empty());
    assert(entries_view(out@) + Seq::<(u16, LeafM)>::empty() =~= entries_view(out@));
    Some(out)
}

fn data_from(p: &[u8]) -> (r: Option<Vec<Entry>>)
    ensures
        match r {
            None => decode_entries(p@) is None,
            Some(es) => decode_entries(p@) == Some(entries_view(es@)),
        },
{
    match frames_from_bytes(p) {
        None => None,
        Some(fs) => match entries_from(&fs) {
            None => None,
            Some(es) => if entries_valid(&es) {
                Some(es)
            } else {
                None
            },
        },
    }
}

fn attrs_from(fs: &Vec<Frame>) -> (r: Option<Vec<Attr>>)
    ensures
        match r {
            None => dec_attrs(frames_view(fs@)) is None,
            Some(v) => dec_attrs(frames_view(fs@)) == Some(attrs_view(v@)),
        },
{
    let ghost all = frames_view(fs@);
    let mut out: Vec<Attr> = Vec::new();
    let mut i: usize = 0;
    proof {
        assert(all.skip(0) =~= all);
        if let Some(r) = dec_attrs(all) {
            assert(Seq::<(u16, ValueM)>::empty() + r =~= r);
        }
    }
    while i < fs.len()
        invariant
            i <= fs@.len(),
            all == frames_view(fs@),
            dec_attrs(all) == prepend(attrs_view(out@), dec_attrs(all.skip(i as int))),
        decreases fs@.len() - i,
    {
        let ghost rest = all.skip(i as int);
        assert(rest[0] == fs@[i as int]@);
        assert(rest.drop_first() =~= all.skip(i + 1));
        let value = if fs[i].tag == ATTR_DATA {
            match data_from(fs[i].payload.as_slice()) {
                None => None,
                Some(es) => Some(Value::Data(es)),
            }
        } else {
            match leaf_from(top_shape_exec(fs[i].tag), &fs[i].payload) {
                None => None,
                Some(l) => Some(Value::Leaf(l)),
            }
        };
        match value {
            None => {
                assert(dec_attr(rest[0]) is None);
                return None;
            },
            Some(v) => {
                assert(dec_attr(rest[0]) == Some(v@));
                proof {
                    crate::codec::lemma_prepend_push(attrs_view(out@), (fs@[i as int].tag, v@), dec_attrs(all.skip(i + 1)));
                }
                let ghost old_out = out@;
                out.push(Attr { key: fs[i].tag, value: v });
                assert(attrs_view(out@) =~= attrs_view(old_out).push((fs@[i as int].tag, v@)));
                i = i + 1;
            },
        }
    }
    assert(all.skip(i as int) =~= Seq::<(u16, Seq<u8>)>::empty());
    assert(attrs_view(out@) + Seq::<(u16, ValueM)>::empty() =~= attrs_view(out@));
    Some(out)
}

impl AttributeBag {
    /// The number of top-level attributes.
    pub fn len(&self) -> (r: usize)
        ensures
            r == self@.len(),
    {
        self.attrs.len()
    }

    /// The value stored under `key`, if any.
    pub fn get(&self, key: u16) -> (r: Option<&Value>)
        ensures
            match r {
                None => !has_key(self@, key),
                Some(v) => exists|i: int| 0 <= i < self@.len() && self@[i] == (key, v@),
            },
    {
        let mut i: usize = 0;
        while i < self.attrs.len()
            invariant
                i <= self.attrs@.len(),
                forall|k: int| 0 <= k < i ==> self@[k].0 != key,
            decreases self.attrs@.len() - i,
        {
            if self.attrs[i].key == key {
                assert(self@[i as int] == (key, self.attrs@[i as int].value@));
                return Some(&self.attrs[i].value);
            }
            i = i + 1;
        }
        None
    }

    /// The wire form of the bag.
    pub fn encode(&self) -> (r: Vec<u8>)
        requires
            self.wf(),
        ensures
            r@ == encode_bag(self@),
    {
        let ghost v = self@;
        let ghost target = v.map_values(|a: (u16, ValueM)| attr_frame(a));
        let mut fs: Vec<Frame> = Vec::new();
        let mut i: usize = 0;
        while i < self.attrs.len()
            invariant
                i <= self.attrs@.len(),
                v == self@,
                bag_ok(v),
                target == v.map_values(|a: (u16, ValueM)| attr_frame(a)),
                frames_view(fs@) == target.take(i as int),
                forall|k: int| 0 <= k < fs@.len() ==> payload_fits(#[trigger] fs@[k].payload@),
            decreases self.attrs@.len() - i,
        {
            proof {
                assert(v[i as int] == self.attrs@[i as int]@);
                assert(crate::attr::attr_ok(v[i as int]));
            }
            let p = match &self.attrs[i].value {
                Value::Leaf(l) => {
                    proof {
                        lemma_leaf_round_trip(top_shape(v[i as int].0), l@);
                    }
                    leaf_bytes(l)
                },
                Value::Data(es) => entries_to_bytes(es),
            };
            assert(target[i as int] == (self.attrs@[i as int].key, p@));
            let ghost old_fs = fs@;
            fs.push(Frame { tag: self.attrs[i].key, payload: p });
            i = i + 1;
            proof {
                assert(frames_view(fs@) =~= frames_view(old_fs).push(fs@[i - 1]@));
                assert(target.take(i as int) =~= target.take(i - 1).push(target[i - 1]));
                assert(frames_view(fs@) =~= target.take(i as int));
                assert forall|k: int| 0 <= k < fs@.len() implies payload_fits(#[trigger] fs@[k].payload@) by {
                    if k < old_fs.len() {
                        assert(fs@[k] == old_fs[k]);
                    }
                }
            }
        }
        assert(target.take(i as int) =~= target);
        frames_to_bytes(&fs)
    }

    /// Reads a bag from its wire form. A declared length that runs past the
    /// buffer, bad padding, a payload of the wrong shape, a repeated key or a
    /// level with too many attributes is a malformed reply, reported as
    /// `CantExecuteCommand`.
    pub fn decode(b: &[u8]) -> (r: Result<AttributeBag, IpsetSysError>)
        ensures
            match r {
                Ok(bag) => bag.wf() && decode_bag(b@) == Some(bag@),
                Err(e) => decode_bag(b@) is None && e == IpsetSysError::CantExecuteCommand,
            },
    {
        match frames_from_bytes(b) {
            None => Err(IpsetSysError::CantExecuteCommand),
            Some(fs) => match attrs_from(&fs) {
                None => Err(IpsetSysError::CantExecuteCommand),
                Some(attrs) => if attrs_valid(&attrs) {
                    Ok(AttributeBag { attrs })
                } else {
                    Err(IpsetSysError::CantExecuteCommand)
                },
            },
        }
    }
}

/// Decoding what `encode` produced from a valid bag gives back that bag.
pub proof fn lemma_decode_encode(bag: AttributeBag)
    requires
        bag.wf(),
    ensures
        decode_bag(encode_bag(bag@)) == Some(bag@),
{
    lemma_round_trip(bag@);
}

} // verus!

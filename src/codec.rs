//! Attribute framing: each attribute is a 2-byte length, a 2-byte tag, its
//! payload, and zero padding up to a 4-byte boundary. Header fields are
//! little-endian, as the kernel channel reads them on the hosts it runs on.
use vstd::prelude::*;

verus! {

/// A 16-bit header field, low byte first.
pub open spec fn le16(x: u16) -> Seq<u8> {
    seq![(x % 256) as u8, (x / 256) as u8]
}

/// The 16-bit header field that starts at `i` in `b`.
pub open spec fn rd16(b: Seq<u8>, i: int) -> nat {
    b[i] as nat + 256 * b[i + 1] as nat
}

/// Padding that brings a payload of `n` bytes to a 4-byte boundary.
pub open spec fn pad_len(n: nat) -> nat {
    ((4 - (n % 4) as int) % 4) as nat
}

pub open spec fn zeros(n: nat) -> Seq<u8> {
    Seq::new(n, |i: int| 0u8)
}

#[verifier::opaque]
/// The bytes of one attribute with tag `tag` and payload `p`.
pub open spec fn frame_bytes(tag: u16, p: Seq<u8>) -> Seq<u8> {
    le16((p.len() + 4) as u16) + le16(tag) + p + zeros(pad_len(p.len()))
}

/// The bytes of a sequence of attributes, one after the other.
pub open spec fn seq_bytes(fs: Seq<(u16, Seq<u8>)>) -> Seq<u8>
    decreases fs.len(),
{
    if fs.len() == 0 {
        Seq::empty()
    } else {
        frame_bytes(fs[0].0, fs[0].1) + seq_bytes(fs.drop_first())
    }
}

/// A payload fits in one attribute when its framed length fits the 2-byte
/// length field.
pub open spec fn payload_fits(p: Seq<u8>) -> bool {
    p.len() + 4 + pad_len(p.len()) <= 0xffff
}

#[verifier::opaque]
/// The first attribute of `b`, with the number of bytes it takes, or `None`
/// when its declared length is below the header size, runs past the buffer,
/// or its padding is missing or not zero.
pub open spec fn first_frame(b: Seq<u8>) -> Option<((u16, Seq<u8>), nat)> {
    if b.len() < 4 {
        None
    } else {
        let len = rd16(b, 0);
        let tag = rd16(b, 2) as u16;
        if len < 4 {
            None
        } else {
            let total = len + pad_len((len - 4) as nat);
            if total > b.len() || exists|i: int| len <= i < total && b[i] != 0 {
                None
            } else {
                Some(((tag, b.subrange(4, len as int)), total))
            }
        }
    }
}

/// The attributes that `b` holds, in order, or `None` when `b` is not a
/// well-framed run of attributes.
pub open spec fn parse_seq(b: Seq<u8>) -> Option<Seq<(u16, Seq<u8>)>>
    decreases b.len(),
{
    if b.len() == 0 {
        Some(Seq::empty())
    } else {
        match first_frame(b) {
            None => None,
            Some((f, n)) => if 4 <= n <= b.len() {
                match parse_seq(b.skip(n as int)) {
                    None => None,
                    Some(rest) => Some(seq![f] + rest),
                }
            } else {
                None
            },
        }
    }
}

/// One attribute as it stands on the wire: a tag and raw payload bytes.
pub struct Frame {
    pub tag: u16,
    pub payload: Vec<u8>,
}

impl View for Frame {
    type V = (u16, Seq<u8>);

    open spec fn view(&self) -> (u16, Seq<u8>) {
        (self.tag, self.payload@)
    }
}

pub open spec fn frames_view(fs: Seq<Frame>) -> Seq<(u16, Seq<u8>)> {
    fs.map_values(|f: Frame| f@)
}

proof fn lemma_le16(x: u16)
    ensures
        le16(x).len() == 2,
        rd16(le16(x), 0) == x,
{
    assert(x % 256 + 256 * (x / 256) == x) by (nonlinear_arith);
}

/// Parsing the bytes of one attribute followed by anything gives back that
/// attribute and its length.
proof fn lemma_first_frame(tag: u16, p: Seq<u8>, rest: Seq<u8>)
    requires
        payload_fits(p),
    ensures
        first_frame(frame_bytes(tag, p) + rest) == Some(((tag, p), frame_bytes(tag, p).len())),
        frame_bytes(tag, p).len() == p.len() + 4 + pad_len(p.len()),
{
    reveal(frame_bytes);
    reveal(first_frame);
    let b = frame_bytes(tag, p) + rest;
    let len = (p.len() + 4) as nat;
    lemma_le16(len as u16);
    lemma_le16(tag);
    assert(rd16(b, 0) == rd16(le16(len as u16), 0));
    assert(rd16(b, 2) == rd16(le16(tag), 0));
    assert(b.subrange(4, len as int) =~= p);
    let total = len + pad_len(p.len());
    assert forall|i: int| len <= i < total implies b[i] == 0 by {
        assert(b[i] == zeros(pad_len(p.len()))[i - len]);
    }
}

/// Parsing the bytes of a run of attributes gives back that run.
pub proof fn lemma_parse_seq_bytes(fs: Seq<(u16, Seq<u8>)>)
    requires
        forall|i: int| 0 <= i < fs.len() ==> payload_fits(#[trigger] fs[i].1),
    ensures
        parse_seq(seq_bytes(fs)) == Some(fs),
    decreases fs.len(),
{
    if fs.len() > 0 {
        let head = frame_bytes(fs[0].0, fs[0].1);
        let tail = fs.drop_first();
        assert(payload_fits(fs[0].1));
        assert forall|i: int| 0 <= i < tail.len() implies payload_fits(#[trigger] tail[i].1) by {
            assert(tail[i] == fs[i + 1]);
        }
        lemma_parse_seq_bytes(tail);
        lemma_first_frame(fs[0].0, fs[0].1, seq_bytes(tail));
        let b = seq_bytes(fs);
        assert(b == head + seq_bytes(tail));
        assert(b.skip(head.len() as int) =~= seq_bytes(tail));
        assert(seq![fs[0]] + tail =~= fs);
    } else {
        assert(seq_bytes(fs) =~= Seq::<u8>::empty());
    }
}

/// Appends one attribute to `out`.
pub fn push_frame(out: &mut Vec<u8>, tag: u16, p: &[u8])
    requires
        payload_fits(p@),
    ensures
        final(out)@ == old(out)@ + frame_bytes(tag, p@),
{
    let n: usize = p.len();
    let len: u16 = (n + 4) as u16;
    let ghost start = out@;
    out.push((len % 256) as u8);
    out.push((len / 256) as u8);
    out.push((tag % 256) as u8);
    out.push((tag / 256) as u8);
    let mut i: usize = 0;
    while i < n
        invariant
            n == p@.len(),
            i <= n,
            out@ == start + le16((n + 4) as u16) + le16(tag) + p@.take(i as int),
        decreases n - i,
    {
        out.push(p[i]);
        i = i + 1;
        proof {
            assert(p@.take(i as int) =~= p@.take(i - 1) + seq![p@[i - 1]]);
        }
    }
    assert(p@.take(n as int) =~= p@);
    let padn: usize = (4 - n % 4) % 4;
    let mut j: usize = 0;
    let ghost mid = out@;
    while j < padn
        invariant
            j <= padn,
            out@ == mid + zeros(j as nat),
        decreases padn - j,
    {
        out.push(0u8);
        j = j + 1;
        proof {
            assert(zeros(j as nat) =~= zeros((j - 1) as nat) + seq![0u8]);
        }
    }
    reveal(frame_bytes);
    assert(out@ =~= old(out)@ + frame_bytes(tag, p@));
}

/// The bytes of `fs`, one framed attribute after the other.
pub fn frames_to_bytes(fs: &Vec<Frame>) -> (r: Vec<u8>)
    requires
        forall|i: int| 0 <= i < fs@.len() ==> payload_fits(#[trigger] fs@[i].payload@),
    ensures
        r@ == seq_bytes(frames_view(fs@)),
{
    let mut out: Vec<u8> = Vec::new();
    let mut i: usize = 0;
    while i < fs.len()
        invariant
            i <= fs@.len(),
            forall|k: int| 0 <= k < fs@.len() ==> payload_fits(#[trigger] fs@[k].payload@),
            out@ == seq_bytes(frames_view(fs@.take(i as int))),
        decreases fs@.len() - i,
    {
        proof {
            lemma_seq_bytes_push(frames_view(fs@.take(i as int)), fs@[i as int]@);
            assert(frames_view(fs@.take(i + 1)) =~= frames_view(fs@.take(i as int)).push(fs@[i as int]@));
        }
        push_frame(&mut out, fs[i].tag, fs[i].payload.as_slice());
        i = i + 1;
    }
    assert(fs@.take(i as int) =~= fs@);
    out
}

proof fn lemma_seq_bytes_push(fs: Seq<(u16, Seq<u8>)>, f: (u16, Seq<u8>))
    ensures
        seq_bytes(fs.push(f)) == seq_bytes(fs) + frame_bytes(f.0, f.1),
    decreases fs.len(),
{
    if fs.len() == 0 {
        assert(fs.push(f).drop_first() =~= Seq::<(u16, Seq<u8>)>::empty());
        reveal_with_fuel(seq_bytes, 2);
        assert(seq_bytes(fs.push(f)) =~= frame_bytes(f.0, f.1));
    } else {
        lemma_seq_bytes_push(fs.drop_first(), f);
        assert(fs.push(f).drop_first() =~= fs.drop_first().push(f));
        assert(seq_bytes(fs.push(f)) =~= seq_bytes(fs) + frame_bytes(f.0, f.1));
    }
}

/// Reads the run of attributes in `b`; `None` when a declared length is below
/// the header size or runs past the buffer, or padding is missing or not zero.
pub fn frames_from_bytes(b: &[u8]) -> (r: Option<Vec<Frame>>)
    ensures
        match r {
            None => parse_seq(b@) is None,
            Some(fs) => parse_seq(b@) == Some(frames_view(fs@)),
        },
{
    let n: usize = b.len();
    let mut out: Vec<Frame> = Vec::new();
    let mut pos: usize = 0;
    assert(b@.skip(0) =~= b@);
    proof {
        if let Some(r) = parse_seq(b@) {
            assert(Seq::<(u16, Seq<u8>)>::empty() + r =~= r);
        }
    }
    while pos < n
        invariant
            n == b@.len(),
            pos <= n,
            parse_seq(b@) == prepend(frames_view(out@), parse_seq(b@.skip(pos as int))),
        decreases n - pos,
    {
        let ghost rest = b@.skip(pos as int);
        proof {
            reveal(first_frame);
        }
        if n - pos < 4 {
            assert(parse_seq(rest) is None);
            return None;
        }
        let len: u16 = b[pos] as u16 + 256 * (b[pos + 1] as u16);
        let tag: u16 = b[pos + 2] as u16 + 256 * (b[pos + 3] as u16);
        assert(len as nat == rd16(rest, 0));
        assert(tag as nat == rd16(rest, 2));
        if len < 4 {
            assert(parse_seq(rest) is None);
            return None;
        }
        let plen: usize = (len - 4) as usize;
        let total: usize = len as usize + (4 - plen % 4) % 4;
        if total > n - pos {
            assert(parse_seq(rest) is None);
            return None;
        }
        let mut k: usize = len as usize;
        while k < total
            invariant
                len <= k <= total,
                4 <= len,
                pos + total <= n,
                rest.len() == n - pos,
                rest.len() > 0,
                parse_seq(b@) == prepend(frames_view(out@), parse_seq(rest)),
                rd16(rest, 0) == len,
                total == len + pad_len((len - 4) as nat),
                n == b@.len(),
                rest == b@.skip(pos as int),
                forall|i: int| len <= i < k ==> rest[i] == 0,
            decreases total - k,
        {
            if b[pos + k] != 0 {
                assert(len <= k < total && rest[k as int] != 0);
                reveal(first_frame);
                assert(first_frame(rest) is None);
                assert(parse_seq(rest) is None);
                return None;
            }
            k = k + 1;
        }
        let mut payload: Vec<u8> = Vec::new();
        let mut j: usize = 4;
        while j < len as usize
            invariant
                4 <= j <= len,
                pos + len <= n,
                n == b@.len(),
                rest == b@.skip(pos as int),
                payload@ == rest.subrange(4, j as int),
            decreases len - j,
        {
            payload.push(b[pos + j]);
            j = j + 1;
            proof {
                assert(payload@ =~= rest.subrange(4, j as int));
            }
        }
        let ghost f = (tag, payload@);
        proof {
            reveal(first_frame);
            assert(first_frame(rest) == Some((f, total as nat)));
            assert(rest.skip(total as int) =~= b@.skip(pos + total));
            assert(frames_view(out@.push(Frame { tag, payload })) =~= frames_view(out@).push(f));
            lemma_prepend_push(frames_view(out@), f, parse_seq(b@.skip(pos + total)));
        }
        out.push(Frame { tag, payload });
        pos = pos + total;
    }
    assert(b@.skip(n as int) =~= Seq::<u8>::empty());
    assert(frames_view(out@) + Seq::<(u16, Seq<u8>)>::empty() =~= frames_view(out@));
    Some(out)
}

pub open spec fn prepend<A>(a: Seq<A>, o: Option<Seq<A>>) -> Option<Seq<A>> {
    match o {
        None => None,
        Some(r) => Some(a + r),
    }
}

pub proof fn lemma_prepend_push<A>(a: Seq<A>, f: A, o: Option<Seq<A>>)
    ensures
        prepend(a, prepend(seq![f], o)) == prepend(a.push(f), o),
{
    if let Some(r) = o {
        assert(a + (seq![f] + r) =~= a.push(f) + r);
    }
}

} // verus!

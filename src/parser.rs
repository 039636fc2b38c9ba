//! The command-line front end: `create <name> <type> [timeout <seconds>]`,
//! `destroy <name>`, `add <name> <address>[/<cidr>] [timeout <seconds>]`,
//! `del <name> <address>[/<cidr>]`, `test <name> <address>[/<cidr>]`,
//! `flush [<name>]`, `list [<name>]`, `swap <a> <b>`, `rename <a> <b>`.
//! Tokens are separated by spaces, tabs and newlines; addresses are IPv4.
use crate::command::{Command, CommandM, Op, FAMILY_IPV4};
use crate::error::IpsetSysError;
use crate::registry::same_bytes;
use vstd::prelude::*;
use vstd::string::StringSliceAdditionalSpecFns;

verus! {

/// Most digits in a timeout.
pub const MAX_TIMEOUT_DIGITS: usize = 15;

pub open spec fn is_space(b: u8) -> bool {
    b == 32 || b == 9 || b == 10
}

/// Splitting on white space, left to right: `cur` is the token being read,
/// `acc` the tokens finished before it.
pub open spec fn tokens_from(acc: Seq<Seq<u8>>, cur: Seq<u8>, s: Seq<u8>) -> Seq<Seq<u8>>
    decreases s.len(),
{
    if s.len() == 0 {
        if cur.len() > 0 { acc.push(cur) } else { acc }
    } else if is_space(s[0]) {
        tokens_from(if cur.len() > 0 { acc.push(cur) } else { acc }, Seq::empty(), s.drop_first())
    } else {
        tokens_from(acc, cur.push(s[0]), s.drop_first())
    }
}

/// The white-space separated tokens of `s`.
pub open spec fn tokens(s: Seq<u8>) -> Seq<Seq<u8>> {
    tokens_from(Seq::empty(), Seq::empty(), s)
}

/// Splitting on `sep`, keeping empty pieces.
pub open spec fn pieces_from(acc: Seq<Seq<u8>>, cur: Seq<u8>, s: Seq<u8>, sep: u8) -> Seq<Seq<u8>>
    decreases s.len(),
{
    if s.len() == 0 {
        acc.push(cur)
    } else if s[0] == sep {
        pieces_from(acc.push(cur), Seq::empty(), s.drop_first(), sep)
    } else {
        pieces_from(acc, cur.push(s[0]), s.drop_first(), sep)
    }
}

/// The pieces of `s` between occurrences of `sep`.
pub open spec fn pieces(s: Seq<u8>, sep: u8) -> Seq<Seq<u8>> {
    pieces_from(Seq::empty(), Seq::empty(), s, sep)
}

pub open spec fn is_digit(b: u8) -> bool {
    48 <= b <= 57
}

pub open spec fn all_digits(s: Seq<u8>) -> bool {
    forall|i: int| 0 <= i < s.len() ==> is_digit(s[i])
}

/// The decimal value of a run of digits.
pub open spec fn dec_val(s: Seq<u8>) -> nat
    decreases s.len(),
{
    if s.len() == 0 {
        0
    } else {
        dec_val(s.drop_last()) * 10 + (s.last() - 48) as nat
    }
}

pub open spec fn p10(n: nat) -> nat
    decreases n,
{
    if n == 0 { 1 } else { 10 * p10((n - 1) as nat) }
}

/// A byte-sized decimal number of one to three digits.
pub open spec fn small_num(s: Seq<u8>) -> Option<u8> {
    if 1 <= s.len() <= 3 && all_digits(s) && dec_val(s) <= 255 {
        Some(dec_val(s) as u8)
    } else {
        None
    }
}

/// A dotted-quad IPv4 address, in network byte order.
pub open spec fn ipv4_of(s: Seq<u8>) -> Option<Seq<u8>> {
    let p = pieces(s, 46);
    if p.len() == 4 && small_num(p[0]) is Some && small_num(p[1]) is Some && small_num(p[2]) is Some
        && small_num(p[3]) is Some {
        Some(seq![small_num(p[0])->0, small_num(p[1])->0, small_num(p[2])->0, small_num(p[3])->0])
    } else {
        None
    }
}

/// An element `<address>[/<cidr>]`.
pub open spec fn element_of(s: Seq<u8>) -> Option<(Seq<u8>, Option<u8>)> {
    let p = pieces(s, 47);
    if p.len() == 1 && ipv4_of(p[0]) is Some {
        Some((ipv4_of(p[0])->0, None))
    } else if p.len() == 2 && ipv4_of(p[0]) is Some && small_num(p[1]) is Some {
        Some((ipv4_of(p[0])->0, Some(small_num(p[1])->0)))
    } else {
        None
    }
}

/// A timeout token: an optional minus sign and digits. More digits than a
/// timeout can have is `InvalidTimeout`; anything else that is not a number
/// is `CommandInvalid`.
pub open spec fn timeout_of(s: Seq<u8>) -> Result<i64, IpsetSysError> {
    let neg = s.len() > 0 && s[0] == 45;
    let d = if neg { s.drop_first() } else { s };
    if d.len() == 0 || !all_digits(d) {
        Err(IpsetSysError::CommandInvalid)
    } else if d.len() > MAX_TIMEOUT_DIGITS {
        Err(IpsetSysError::InvalidTimeout)
    } else if neg {
        Ok((-dec_val(d)) as i64)
    } else {
        Ok(dec_val(d) as i64)
    }
}

pub open spec fn word_create() -> Seq<u8> { seq![99u8, 114, 101, 97, 116, 101] }
pub open spec fn word_destroy() -> Seq<u8> { seq![100u8, 101, 115, 116, 114, 111, 121] }
pub open spec fn word_add() -> Seq<u8> { seq![97u8, 100, 100] }
pub open spec fn word_del() -> Seq<u8> { seq![100u8, 101, 108] }
pub open spec fn word_test() -> Seq<u8> { seq![116u8, 101, 115, 116] }
pub open spec fn word_flush() -> Seq<u8> { seq![102u8, 108, 117, 115, 104] }
pub open spec fn word_swap() -> Seq<u8> { seq![115u8, 119, 97, 112] }
pub open spec fn word_rename() -> Seq<u8> { seq![114u8, 101, 110, 97, 109, 101] }
pub open spec fn word_list() -> Seq<u8> { seq![108u8, 105, 115, 116] }
pub open spec fn word_timeout() -> Seq<u8> { seq![116u8, 105, 109, 101, 111, 117, 116] }

/// The operation a command word names.
pub open spec fn op_of(w: Seq<u8>) -> Option<Op> {
    if w == word_create() { Some(Op::Create) }
    else if w == word_destroy() { Some(Op::Destroy) }
    else if w == word_add() { Some(Op::Add) }
    else if w == word_del() { Some(Op::Del) }
    else if w == word_test() { Some(Op::Test) }
    else if w == word_flush() { Some(Op::Flush) }
    else if w == word_swap() { Some(Op::Swap) }
    else if w == word_rename() { Some(Op::Rename) }
    else if w == word_list() { Some(Op::List) }
    else { None }
}

pub open spec fn plain(op: Op, name: Seq<u8>) -> CommandM {
    CommandM {
        op,
        name,
        second: Seq::empty(),
        set_type: Seq::empty(),
        family: FAMILY_IPV4,
        addr: None,
        cidr: None,
        timeout: None,
    }
}

/// The optional `timeout <seconds>` tail that starts at token 3.
pub open spec fn tail_timeout(ts: Seq<Seq<u8>>) -> Result<Option<i64>, IpsetSysError> {
    if ts.len() == 3 {
        Ok(None)
    } else if ts.len() == 5 && ts[3] == word_timeout() {
        match timeout_of(ts[4]) {
            Ok(t) => Ok(Some(t)),
            Err(e) => Err(e),
        }
    } else {
        Err(IpsetSysError::CommandInvalid)
    }
}

/// The command that a token list describes.
pub open spec fn command_of(ts: Seq<Seq<u8>>) -> Result<CommandM, IpsetSysError> {
    if ts.len() == 0 || op_of(ts[0]) is None {
        Err(IpsetSysError::CommandInvalid)
    } else {
        let op = op_of(ts[0])->0;
        match op {
            Op::Create => if ts.len() < 3 {
                Err(IpsetSysError::CommandInvalid)
            } else {
                match tail_timeout(ts) {
                    Err(e) => Err(e),
                    Ok(t) => Ok(CommandM { set_type: ts[2], timeout: t, ..plain(op, ts[1]) }),
                }
            },
            Op::Add | Op::Del | Op::Test => if ts.len() < 3 || element_of(ts[2]) is None {
                Err(IpsetSysError::CommandInvalid)
            } else if op != Op::Add && ts.len() != 3 {
                Err(IpsetSysError::CommandInvalid)
            } else {
                let el = element_of(ts[2])->0;
                match tail_timeout(ts) {
                    Err(e) => Err(e),
                    Ok(t) => Ok(CommandM { addr: Some(el.0), cidr: el.1, timeout: t, ..plain(op, ts[1]) }),
                }
            },
            Op::Destroy => if ts.len() == 2 {
                Ok(plain(op, ts[1]))
            } else {
                Err(IpsetSysError::CommandInvalid)
            },
            Op::Flush | Op::List => if ts.len() == 1 {
                Ok(plain(op, Seq::empty()))
            } else if ts.len() == 2 {
                Ok(plain(op, ts[1]))
            } else {
                Err(IpsetSysError::CommandInvalid)
            },
            Op::Swap | Op::Rename => if ts.len() == 3 {
                Ok(CommandM { second: ts[2], ..plain(op, ts[1]) })
            } else {
                Err(IpsetSysError::CommandInvalid)
            },
        }
    }
}

pub open spec fn seqs_view(v: Seq<Vec<u8>>) -> Seq<Seq<u8>> {
    v.map_values(|x: Vec<u8>| x@)
}

proof fn lemma_seqs_view_push(v: Seq<Vec<u8>>, x: Vec<u8>)
    ensures
        seqs_view(v.push(x)) == seqs_view(v).push(x@),
{
    assert(seqs_view(v.push(x)) =~= seqs_view(v).push(x@));
}

/// The white-space separated tokens of `s`.
pub fn split_tokens(s: &[u8]) -> (r: Vec<Vec<u8>>)
    ensures
        seqs_view(r@) == tokens(s@),
{
    let mut acc: Vec<Vec<u8>> = Vec::new();
    let mut cur: Vec<u8> = Vec::new();
    let mut i: usize = 0;
    assert(s@.skip(0) =~= s@);
    assert(seqs_view(acc@) =~= Seq::<Seq<u8>>::empty());
    while i < s.len()
        invariant
            i <= s@.len(),
            tokens(s@) == tokens_from(seqs_view(acc@), cur@, s@.skip(i as int)),
        decreases s@.len() - i,
    {
        let b = s[i];
        assert(s@.skip(i as int)[0] == b);
        assert(s@.skip(i as int).drop_first() =~= s@.skip(i + 1));
        if b == 32 || b == 9 || b == 10 {
            if cur.len() > 0 {
                proof {
                    lemma_seqs_view_push(acc@, cur);
                }
                acc.push(cur);
            }
            cur = Vec::new();
            assert(cur@ =~= Seq::<u8>::empty());
        } else {
            cur.push(b);
        }
        i = i + 1;
    }
    assert(s@.skip(i as int) =~= Seq::<u8>::empty());
    if cur.len() > 0 {
        proof {
            lemma_seqs_view_push(acc@, cur);
        }
        acc.push(cur);
    }
    acc
}

/// The pieces of `s` between occurrences of `sep`.
pub fn split_pieces(s: &[u8], sep: u8) -> (r: Vec<Vec<u8>>)
    ensures
        seqs_view(r@) == pieces(s@, sep),
{
    let mut acc: Vec<Vec<u8>> = Vec::new();
    let mut cur: Vec<u8> = Vec::new();
    let mut i: usize = 0;
    assert(s@.skip(0) =~= s@);
    assert(seqs_view(acc@) =~= Seq::<Seq<u8>>::empty());
    while i < s.len()
        invariant
            i <= s@.len(),
            pieces(s@, sep) == pieces_from(seqs_view(acc@), cur@, s@.skip(i as int), sep),
        decreases s@.len() - i,
    {
        let b = s[i];
        assert(s@.skip(i as int)[0] == b);
        assert(s@.skip(i as int).drop_first() =~= s@.skip(i + 1));
        if b == sep {
            proof {
                lemma_seqs_view_push(acc@, cur);
            }
            acc.push(cur);
            cur = Vec::new();
            assert(cur@ =~= Seq::<u8>::empty());
        } else {
            cur.push(b);
        }
        i = i + 1;
    }
    assert(s@.skip(i as int) =~= Seq::<u8>::empty());
    proof {
        lemma_seqs_view_push(acc@, cur);
    }
    acc.push(cur);
    acc
}

proof fn lemma_p10_mono(a: nat, b: nat)
    requires
        a <= b,
    ensures
        p10(a) <= p10(b),
    decreases b,
{
    if a < b {
        lemma_p10_mono(a, (b - 1) as nat);
    }
}

fn digits_only(d: &[u8]) -> (r: bool)
    ensures
        r == all_digits(d@),
{
    let mut i: usize = 0;
    while i < d.len()
        invariant
            i <= d@.len(),
            forall|k: int| 0 <= k < i ==> is_digit(d@[k]),
        decreases d@.len() - i,
    {
        if d[i] < 48 || d[i] > 57 {
            return false;
        }
        i = i + 1;
    }
    true
}

/// The value of a run of at most `MAX_TIMEOUT_DIGITS` digits.
fn digits_value(d: &[u8]) -> (r: u64)
    requires
        all_digits(d@),
        d@.len() <= MAX_TIMEOUT_DIGITS,
    ensures
        r as nat == dec_val(d@),
        r < p10(d@.len()),
{
    let mut v: u64 = 0;
    let mut i: usize = 0;
    assert(d@.take(0) =~= Seq::<u8>::empty());
    proof {
        reveal_with_fuel(p10, 16);
    }
    while i < d.len()
        invariant
            i <= d@.len(),
            d@.len() <= MAX_TIMEOUT_DIGITS,
            all_digits(d@),
            v as nat == dec_val(d@.take(i as int)),
            v < p10(i as nat),
            p10(15) == 1_000_000_000_000_000,
        decreases d@.len() - i,
    {
        proof {
            lemma_p10_mono(i as nat, 14);
            assert(is_digit(d@[i as int]));
        }
        let digit = (d[i] - 48) as u64;
        v = v * 10 + digit;
        proof {
            assert(d@.take(i + 1).drop_last() =~= d@.take(i as int));
        }
        i = i + 1;
    }
    assert(d@.take(i as int) =~= d@);
    v
}

fn parse_small(s: &[u8]) -> (r: Option<u8>)
    ensures
        r == small_num(s@),
{
    if s.len() < 1 || s.len() > 3 || !digits_only(s) {
        return None;
    }
    let v = digits_value(s);
    if v > 255 {
        None
    } else {
        Some(v as u8)
    }
}

fn parse_ipv4(s: &[u8]) -> (r: Option<Vec<u8>>)
    ensures
        match r {
            None => ipv4_of(s@) is None,
            Some(a) => ipv4_of(s@) == Some(a@),
        },
{
    let p = split_pieces(s, 46);
    if p.len() != 4 {
        return None;
    }
    proof {
        assert(seqs_view(p@)[0] == p@[0]@);
        assert(seqs_view(p@)[1] == p@[1]@);
        assert(seqs_view(p@)[2] == p@[2]@);
        assert(seqs_view(p@)[3] == p@[3]@);
    }
    let a = parse_small(p[0].as_slice());
    let b = parse_small(p[1].as_slice());
    let c = parse_small(p[2].as_slice());
    let d = parse_small(p[3].as_slice());
    match (a, b, c, d) {
        (Some(a), Some(b), Some(c), Some(d)) => {
            let v = vec![a, b, c, d];
            assert(v@ =~= seq![a, b, c, d]);
            Some(v)
        },
        _ => None,
    }
}

fn parse_element(s: &[u8]) -> (r: Option<(Vec<u8>, Option<u8>)>)
    ensures
        match r {
            None => element_of(s@) is None,
            Some(e) => element_of(s@) == Some((e.0@, e.1)),
        },
{
    let p = split_pieces(s, 47);
    proof {
        if p@.len() > 0 {
            assert(seqs_view(p@)[0] == p@[0]@);
        }
        if p@.len() > 1 {
            assert(seqs_view(p@)[1] == p@[1]@);
        }
    }
    if p.len() == 1 {
        match parse_ipv4(p[0].as_slice()) {
            Some(a) => Some((a, None)),
            None => None,
        }
    } else if p.len() == 2 {
        match (parse_ipv4(p[0].as_slice()), parse_small(p[1].as_slice())) {
            (Some(a), Some(c)) => Some((a, Some(c))),
            _ => None,
        }
    } else {
        None
    }
}

fn parse_timeout(s: &[u8]) -> (r: Result<i64, IpsetSysError>)
    ensures
        r == timeout_of(s@),
{
    let neg = s.len() > 0 && s[0] == 45;
    let d: Vec<u8> = if neg {
        let mut t = vstd::slice::slice_to_vec(s);
        t.remove(0);
        assert(t@ =~= s@.drop_first());
        t
    } else {
        vstd::slice::slice_to_vec(s)
    };
    if d.len() == 0 || !digits_only(d.as_slice()) {
        return Err(IpsetSysError::CommandInvalid);
    }
    if d.len() > MAX_TIMEOUT_DIGITS {
        return Err(IpsetSysError::InvalidTimeout);
    }
    let v = digits_value(d.as_slice());
    proof {
        reveal_with_fuel(p10, 16);
        lemma_p10_mono(d@.len() as nat, 15);
    }
    if neg {
        Ok(-(v as i64))
    } else {
        Ok(v as i64)
    }
}

fn is_word(w: &[u8], k: Vec<u8>, spec_k: Ghost<Seq<u8>>) -> (r: bool)
    requires
        k@ == spec_k@,
    ensures
        r == (w@ == spec_k@),
{
    same_bytes(w, k.as_slice())
}

fn op_word(w: &[u8]) -> (r: Option<Op>)
    ensures
        r == op_of(w@),
{
    let k = vec![99u8, 114, 101, 97, 116, 101];
    assert(k@ =~= word_create());
    if is_word(w, k, Ghost(word_create())) {
        return Some(Op::Create);
    }
    let k = vec![100u8, 101, 115, 116, 114, 111, 121];
    assert(k@ =~= word_destroy());
    if is_word(w, k, Ghost(word_destroy())) {
        return Some(Op::Destroy);
    }
    let k = vec![97u8, 100, 100];
    assert(k@ =~= word_add());
    if is_word(w, k, Ghost(word_add())) {
        return Some(Op::Add);
    }
    let k = vec![100u8, 101, 108];
    assert(k@ =~= word_del());
    if is_word(w, k, Ghost(word_del())) {
        return Some(Op::Del);
    }
    let k = vec![116u8, 101, 115, 116];
    assert(k@ =~= word_test());
    if is_word(w, k, Ghost(word_test())) {
        return Some(Op::Test);
    }
    let k = vec![102u8, 108, 117, 115, 104];
    assert(k@ =~= word_flush());
    if is_word(w, k, Ghost(word_flush())) {
        return Some(Op::Flush);
    }
    let k = vec![115u8, 119, 97, 112];
    assert(k@ =~= word_swap());
    if is_word(w, k, Ghost(word_swap())) {
        return Some(Op::Swap);
    }
    let k = vec![114u8, 101, 110, 97, 109, 101];
    assert(k@ =~= word_rename());
    if is_word(w, k, Ghost(word_rename())) {
        return Some(Op::Rename);
    }
    let k = vec![108u8, 105, 115, 116];
    assert(k@ =~= word_list());
    if is_word(w, k, Ghost(word_list())) {
        return Some(Op::List);
    }
    None
}

fn copy_token(t: &Vec<u8>) -> (r: Vec<u8>)
    ensures
        r@ == t@,
{
    vstd::slice::slice_to_vec(t.as_slice())
}

fn parse_tail(ts: &Vec<Vec<u8>>) -> (r: Result<Option<i64>, IpsetSysError>)
    requires
        ts@.len() >= 3,
    ensures
        r == tail_timeout(seqs_view(ts@)),
{
    let ghost tv = seqs_view(ts@);
    if ts.len() == 3 {
        return Ok(None);
    }
    if ts.len() == 5 {
        assert(tv[3] == ts@[3]@ && tv[4] == ts@[4]@);
        let k = vec![116u8, 105, 109, 101, 111, 117, 116];
        assert(k@ =~= word_timeout());
        if is_word(ts[3].as_slice(), k, Ghost(word_timeout())) {
            return match parse_timeout(ts[4].as_slice()) {
                Ok(t) => Ok(Some(t)),
                Err(e) => Err(e),
            };
        }
    }
    Err(IpsetSysError::CommandInvalid)
}

fn plain_command(op: Op, name: Vec<u8>) -> (r: Command)
    ensures
        r@ == plain(op, name@),
{
    let r = Command {
        op,
        name,
        second: Vec::new(),
        set_type: Vec::new(),
        family: FAMILY_IPV4,
        addr: None,
        cidr: None,
        timeout: None,
    };
    assert(r@.second =~= Seq::<u8>::empty());
    assert(r@.set_type =~= Seq::<u8>::empty());
    r
}

/// The command that a command line describes.
pub fn parse_line(line: &str) -> (r: Result<Command, IpsetSysError>)
    ensures
        match r {
            Ok(c) => command_of(tokens(line.spec_bytes())) == Ok::<CommandM, IpsetSysError>(c@),
            Err(e) => command_of(tokens(line.spec_bytes())) == Err::<CommandM, IpsetSysError>(e),
        },
{
    let ts = split_tokens(line.as_bytes());
    let ghost tv = seqs_view(ts@);
    if ts.len() == 0 {
        return Err(IpsetSysError::CommandInvalid);
    }
    assert(tv[0] == ts@[0]@);
    let op = match op_word(ts[0].as_slice()) {
        None => {
            return Err(IpsetSysError::CommandInvalid);
        },
        Some(op) => op,
    };
    proof {
        if ts@.len() > 1 {
            assert(tv[1] == ts@[1]@);
        }
        if ts@.len() > 2 {
            assert(tv[2] == ts@[2]@);
        }
    }
    match op {
        Op::Create => {
            if ts.len() < 3 {
                return Err(IpsetSysError::CommandInvalid);
            }
            let t = match parse_tail(&ts) {
                Ok(t) => t,
                Err(e) => {
                    return Err(e);
                },
            };
            let mut c = plain_command(op, copy_token(&ts[1]));
            c.set_type = copy_token(&ts[2]);
            c.timeout = t;
            Ok(c)
        },
        Op::Add | Op::Del | Op::Test => {
            if ts.len() < 3 {
                return Err(IpsetSysError::CommandInvalid);
            }
            let el = match parse_element(ts[2].as_slice()) {
                None => {
                    return Err(IpsetSysError::CommandInvalid);
                },
                Some(el) => el,
            };
            if op != Op::Add && ts.len() != 3 {
                return Err(IpsetSysError::CommandInvalid);
            }
            let t = match parse_tail(&ts) {
                Ok(t) => t,
                Err(e) => {
                    return Err(e);
                },
            };
            let mut c = plain_command(op, copy_token(&ts[1]));
            c.addr = Some(el.0);
            c.cidr = el.1;
            c.timeout = t;
            Ok(c)
        },
        Op::Destroy => {
            if ts.len() != 2 {
                return Err(IpsetSysError::CommandInvalid);
            }
            Ok(plain_command(op, copy_token(&ts[1])))
        },
        Op::Flush | Op::List => {
            if ts.len() == 1 {
                Ok(plain_command(op, Vec::new()))
            } else if ts.len() == 2 {
                Ok(plain_command(op, copy_token(&ts[1])))
            } else {
                Err(IpsetSysError::CommandInvalid)
            }
        },
        Op::Swap | Op::Rename => {
            if ts.len() != 3 {
                return Err(IpsetSysError::CommandInvalid);
            }
            let mut c = plain_command(op, copy_token(&ts[1]));
            c.second = copy_token(&ts[2]);
            Ok(c)
        },
    }
}

} // verus!

//! Typed commands, their validation, and the request messages built from
//! them.
use crate::attr::{lemma_encode_len, 
    no_nul, LeafM, Leaf, ValueM, encode_bag, ATTR_DATA, ATTR_FAMILY, ATTR_PROTOCOL,
    ATTR_REVISION, ATTR_SETNAME, ATTR_TYPENAME, DATA_CIDR, DATA_IP, DATA_TIMEOUT, MAX_NAME_LEN,
};
use crate::bag::{AttributeBag, DataBag};
use crate::codec::le16;
use crate::error::IpsetSysError;
use crate::registry::{find_type, SetTypeM, TypeRegistry};
use vstd::bytes::{lemma_auto_spec_u32_to_from_le_bytes, spec_u32_to_le_bytes, u32_to_le_bytes};
use vstd::prelude::*;

verus! {

/// The family of IPv4 sets and addresses.
pub const FAMILY_IPV4: u8 = 2;
/// The family of IPv6 sets and addresses.
pub const FAMILY_IPV6: u8 = 10;
/// The protocol version carried in every request.
pub const PROTOCOL_VERSION: u8 = 6;
/// The largest timeout, in seconds; zero means no expiry.
pub const MAX_TIMEOUT: i64 = 2147483;
/// Message type high byte of the set subsystem.
pub const SUBSYS_IPSET: u16 = 6;
/// Request flags: a request that asks for an acknowledgement.
pub const REQUEST_FLAGS: u16 = 5;
/// Bytes of message header before the attributes.
pub const HEADER_LEN: usize = 20;

/// The operation of a command.
#[derive(Debug, Clone, Copy, PartialEq, Eq, Structural)]
pub enum Op {
    Create,
    Destroy,
    Add,
    Del,
    Test,
    Flush,
    Swap,
    Rename,
    List,
}

/// The kernel's code for each operation.
pub open spec fn opcode(op: Op) -> u8 {
    match op {
        Op::Create => 2,
        Op::Destroy => 3,
        Op::Flush => 4,
        Op::Rename => 5,
        Op::Swap => 6,
        Op::List => 7,
        Op::Add => 9,
        Op::Del => 10,
        Op::Test => 11,
    }
}

fn opcode_of(op: Op) -> (r: u8)
    ensures
        r == opcode(op),
{
    match op {
        Op::Create => 2,
        Op::Destroy => 3,
        Op::Flush => 4,
        Op::Rename => 5,
        Op::Swap => 6,
        Op::List => 7,
        Op::Add => 9,
        Op::Del => 10,
        Op::Test => 11,
    }
}

/// A typed request. Empty `second` and `set_type` stand for absent ones.
#[derive(Debug, PartialEq, Eq)]
pub struct Command {
    pub op: Op,
    /// The target set; empty for a flush or list of every set.
    pub name: Vec<u8>,
    /// The other set of a swap, or the new name of a rename.
    pub second: Vec<u8>,
    /// The set type of a create.
    pub set_type: Vec<u8>,
    pub family: u8,
    /// The element of an add, del or test, in network byte order.
    pub addr: Option<Vec<u8>>,
    pub cidr: Option<u8>,
    /// Seconds; checked against `0..=MAX_TIMEOUT`.
    pub timeout: Option<i64>,
}

pub struct CommandM {
    pub op: Op,
    pub name: Seq<u8>,
    pub second: Seq<u8>,
    pub set_type: Seq<u8>,
    pub family: u8,
    pub addr: Option<Seq<u8>>,
    pub cidr: Option<u8>,
    pub timeout: Option<i64>,
}

impl View for Command {
    type V = CommandM;

    open spec fn view(&self) -> CommandM {
        CommandM {
            op: self.op,
            name: self.name@,
            second: self.second@,
            set_type: self.set_type@,
            family: self.family,
            addr: match self.addr {
                Some(a) => Some(a@),
                None => None,
            },
            cidr: self.cidr,
            timeout: self.timeout,
        }
    }
}

pub open spec fn needs_name(op: Op) -> bool {
    !(op == Op::Flush || op == Op::List)
}

pub open spec fn needs_second(op: Op) -> bool {
    op == Op::Swap || op == Op::Rename
}

pub open spec fn needs_addr(op: Op) -> bool {
    op == Op::Add || op == Op::Del || op == Op::Test
}

pub open spec fn addr_len(family: u8) -> nat {
    if family == FAMILY_IPV4 { 4 } else { 16 }
}

/// The fields a command of its operation must, and must not, have.
pub open spec fn well_shaped(c: CommandM, reg: Seq<SetTypeM>) -> bool {
    &&& c.family == FAMILY_IPV4 || c.family == FAMILY_IPV6
    &&& needs_name(c.op) ==> c.name.len() > 0
    &&& needs_second(c.op) <==> c.second.len() > 0
    &&& (c.op == Op::Create) <==> c.set_type.len() > 0
    &&& c.op == Op::Create ==> (find_type(reg, c.set_type) matches Some(t)
        && (c.timeout is Some ==> t.timeout))
    &&& needs_addr(c.op) <==> c.addr is Some
    &&& c.addr is Some ==> c.addr->0.len() == addr_len(c.family)
    &&& c.cidr is Some ==> needs_addr(c.op) && c.cidr->0 <= 8 * addr_len(c.family)
    &&& c.timeout is Some ==> c.op == Op::Create || c.op == Op::Add
}

/// Why a command is refused before anything is sent, if it is: an over-long
/// name first, then a NUL inside a name, then a wrong combination of fields,
/// then a timeout out of range.
pub open spec fn command_error(c: CommandM, reg: Seq<SetTypeM>) -> Option<IpsetSysError> {
    if c.name.len() > MAX_NAME_LEN || c.second.len() > MAX_NAME_LEN || c.set_type.len()
        > MAX_NAME_LEN {
        Some(IpsetSysError::ArgTooLong)
    } else if !no_nul(c.name) || !no_nul(c.second) || !no_nul(c.set_type) {
        Some(IpsetSysError::InvalidCommand)
    } else if !well_shaped(c, reg) {
        Some(IpsetSysError::CommandInvalid)
    } else if c.timeout is Some && !(0 <= c.timeout->0 <= MAX_TIMEOUT) {
        Some(IpsetSysError::InvalidTimeout)
    } else {
        None
    }
}

pub open spec fn opt_seq<A>(b: bool, a: A) -> Seq<A> {
    if b { seq![a] } else { Seq::empty() }
}

/// The attributes of the `DATA` container of a command.
pub open spec fn data_entries(c: CommandM) -> Seq<(u16, LeafM)> {
    opt_seq(c.addr is Some, (DATA_IP, LeafM::Addr(c.addr->0)))
        + opt_seq(c.cidr is Some, (DATA_CIDR, LeafM::U8(c.cidr->0)))
        + opt_seq(c.timeout is Some, (DATA_TIMEOUT, LeafM::U32(c.timeout->0 as u32)))
}

/// The attributes of the request for a valid command.
pub open spec fn request_bag(c: CommandM, reg: Seq<SetTypeM>) -> Seq<(u16, ValueM)> {
    let base = seq![(ATTR_PROTOCOL, ValueM::Leaf(LeafM::U8(PROTOCOL_VERSION)))]
        + opt_seq(c.name.len() > 0, (ATTR_SETNAME, ValueM::Leaf(LeafM::Str(c.name))));
    let data = opt_seq(data_entries(c).len() > 0, (ATTR_DATA, ValueM::Data(data_entries(c))));
    match c.op {
        Op::Create => base + seq![
            (ATTR_TYPENAME, ValueM::Leaf(LeafM::Str(c.set_type))),
            (ATTR_REVISION, ValueM::Leaf(LeafM::U8(find_type(reg, c.set_type)->0.revision))),
            (ATTR_FAMILY, ValueM::Leaf(LeafM::U8(c.family))),
        ] + data,
        Op::Add | Op::Del | Op::Test => base + data,
        Op::Swap | Op::Rename => base + seq![(ATTR_TYPENAME, ValueM::Leaf(LeafM::Str(c.second)))],
        _ => base,
    }
}

/// The message header: total length, message type, flags, sequence number,
/// port id zero, then the family, the version byte and a zero resource id.
pub open spec fn message_header(op: Op, family: u8, seq: u32, body_len: nat) -> Seq<u8> {
    spec_u32_to_le_bytes((HEADER_LEN + body_len) as u32) + le16((SUBSYS_IPSET * 256 + opcode(op)) as u16)
        + le16(REQUEST_FLAGS) + spec_u32_to_le_bytes(seq) + spec_u32_to_le_bytes(0) + seq![family, 0u8, 0u8, 0u8]
}

/// The whole request message for a valid command.
pub open spec fn request_message(c: CommandM, reg: Seq<SetTypeM>, seq: u32) -> Seq<u8> {
    let body = encode_bag(request_bag(c, reg));
    message_header(c.op, c.family, seq, body.len()) + body
}

fn bytes_no_nul(v: &Vec<u8>) -> (r: bool)
    ensures
        r == no_nul(v@),
{
    let mut i: usize = 0;
    while i < v.len()
        invariant
            i <= v@.len(),
            forall|k: int| 0 <= k < i ==> v@[k] != 0,
        decreases v@.len() - i,
    {
        if v[i] == 0 {
            return false;
        }
        i = i + 1;
    }
    true
}

fn copy_bytes(v: &Vec<u8>) -> (r: Vec<u8>)
    ensures
        r@ == v@,
{
    vstd::slice::slice_to_vec(v.as_slice())
}

fn push_u32_le(out: &mut Vec<u8>, x: u32)
    ensures
        final(out)@ == old(out)@ + spec_u32_to_le_bytes(x),
{
    proof {
        lemma_auto_spec_u32_to_from_le_bytes();
    }
    let mut b = u32_to_le_bytes(x);
    out.append(&mut b);
}

/// Checks `c` against the registry and, when it is valid, builds its request
/// message with sequence number `seq`. Nothing is encoded for a refused
/// command.
pub fn build(c: &Command, reg: &TypeRegistry, seq: u32) -> (r: Result<Vec<u8>, IpsetSysError>)
    requires
        reg.wf(),
    ensures
        match r {
            Ok(m) => command_error(c@, reg@) is None && m@ == request_message(c@, reg@, seq),
            Err(e) => command_error(c@, reg@) == Some(e),
        },
{
    let ghost cm = c@;
    if c.name.len() > MAX_NAME_LEN || c.second.len() > MAX_NAME_LEN || c.set_type.len() > MAX_NAME_LEN {
        return Err(IpsetSysError::ArgTooLong);
    }
    if !bytes_no_nul(&c.name) || !bytes_no_nul(&c.second) || !bytes_no_nul(&c.set_type) {
        return Err(IpsetSysError::InvalidCommand);
    }
    let is_create = c.op == Op::Create;
    let want_name = !(c.op == Op::Flush || c.op == Op::List);
    let want_second = c.op == Op::Swap || c.op == Op::Rename;
    let want_addr = c.op == Op::Add || c.op == Op::Del || c.op == Op::Test;
    let alen: usize = if c.family == FAMILY_IPV4 { 4 } else { 16 };
    let mut shaped = (c.family == FAMILY_IPV4 || c.family == FAMILY_IPV6)
        && (!want_name || c.name.len() > 0)
        && (want_second == (c.second.len() > 0))
        && (is_create == (c.set_type.len() > 0))
        && (want_addr == c.addr.is_some())
        && (c.timeout.is_none() || c.op == Op::Create || c.op == Op::Add);
    match &c.addr {
        Some(a) => {
            if a.len() != alen {
                shaped = false;
            }
        },
        None => {},
    }
    match c.cidr {
        Some(p) => {
            if !want_addr || p as usize > 8 * alen {
                shaped = false;
            }
        },
        None => {},
    }
    let mut revision: u8 = 0;
    if is_create {
        match reg.lookup(c.set_type.as_slice()) {
            None => {
                shaped = false;
            },
            Some(t) => {
                if c.timeout.is_some() && !t.timeout {
                    shaped = false;
                }
                revision = t.revision;
            },
        }
    }
    if !shaped {
        return Err(IpsetSysError::CommandInvalid);
    }
    assert(well_shaped(cm, reg@));
    if let Some(t) = c.timeout {
        if t < 0 || t > MAX_TIMEOUT {
            return Err(IpsetSysError::InvalidTimeout);
        }
    }
    assert(command_error(cm, reg@) is None);

    let mut data = DataBag::new();
    if let Some(a) = &c.addr {
        let r = data.put(DATA_IP, Leaf::Addr(copy_bytes(a)));
        assert(r is Ok);
    }
    if let Some(p) = c.cidr {
        let r = data.put(DATA_CIDR, Leaf::U8(p));
        assert(r is Ok);
    }
    if let Some(t) = c.timeout {
        let r = data.put(DATA_TIMEOUT, Leaf::U32(t as u32));
        assert(r is Ok);
    }
    assert(data@ =~= data_entries(cm));
    let ghost data_view = data@;
    let has_data = c.addr.is_some() || c.cidr.is_some() || c.timeout.is_some();
    assert(has_data == (data_entries(cm).len() > 0));

    let mut bag = AttributeBag::new();
    let r = bag.put(ATTR_PROTOCOL, Leaf::U8(PROTOCOL_VERSION));
    assert(r is Ok);
    if c.name.len() > 0 {
        let r = bag.put(ATTR_SETNAME, Leaf::Str(copy_bytes(&c.name)));
        assert(r is Ok);
    }
    if is_create {
        let r = bag.put(ATTR_TYPENAME, Leaf::Str(copy_bytes(&c.set_type)));
        assert(r is Ok);
        let r = bag.put(ATTR_REVISION, Leaf::U8(revision));
        assert(r is Ok);
        let r = bag.put(ATTR_FAMILY, Leaf::U8(c.family));
        assert(r is Ok);
    }
    if want_second {
        let r = bag.put(ATTR_TYPENAME, Leaf::Str(copy_bytes(&c.second)));
        assert(r is Ok);
    }
    if (is_create || want_addr) && has_data {
        let r = bag.put_data(data);
        assert(r is Ok);
    }
    assert(bag@ =~= request_bag(cm, reg@));
    let mut body = bag.encode();
    proof {
        lemma_encode_len(bag@);
    }
    let total: u32 = (HEADER_LEN + body.len()) as u32;
    let mut out: Vec<u8> = Vec::new();
    push_u32_le(&mut out, total);
    let mtype: u16 = SUBSYS_IPSET * 256 + opcode_of(c.op) as u16;
    out.push((mtype % 256) as u8);
    out.push((mtype / 256) as u8);
    out.push((REQUEST_FLAGS % 256) as u8);
    out.push((REQUEST_FLAGS / 256) as u8);
    push_u32_le(&mut out, seq);
    push_u32_le(&mut out, 0);
    out.push(c.family);
    out.push(0u8);
    out.push(0u8);
    out.push(0u8);
    assert(out@ =~= message_header(c.op, c.family, seq, body@.len()));
    out.append(&mut body);
    Ok(out)
}

/// Every timeout in `0..=MAX_TIMEOUT` is accepted, and every other one is
/// refused with `InvalidTimeout`, on a command that is otherwise valid.
pub proof fn lemma_timeout_range(c: CommandM, reg: Seq<SetTypeM>, t: i64)
    requires
        c.name.len() <= MAX_NAME_LEN,
        c.second.len() <= MAX_NAME_LEN,
        c.set_type.len() <= MAX_NAME_LEN,
        no_nul(c.name),
        no_nul(c.second),
        no_nul(c.set_type),
        well_shaped(c, reg),
        c.timeout == Some(t),
    ensures
        0 <= t <= MAX_TIMEOUT ==> command_error(c, reg) is None,
        !(0 <= t <= MAX_TIMEOUT) ==> command_error(c, reg) == Some(IpsetSysError::InvalidTimeout),
{
}

/// A set name longer than the protocol allows is refused with `ArgTooLong`,
/// whatever else the command holds.
pub proof fn lemma_long_name(c: CommandM, reg: Seq<SetTypeM>)
    requires
        c.name.len() > MAX_NAME_LEN,
    ensures
        command_error(c, reg) == Some(IpsetSysError::ArgTooLong),
{
}

} // verus!

//! The session: one kernel channel, one request in flight at a time, closed
//! exactly once. The library decides what to send and what a reply means;
//! the caller moves the bytes.
use crate::attr::{be32, MAX_NAME_LEN};
use crate::command::{build, command_error, request_message, Command, CommandM, Op, FAMILY_IPV4};
use crate::parser::{command_of, parse_line, plain, tokens};
use crate::error::IpsetSysError;
use crate::registry::{names_unique, SetType, SetTypeM, TypeRegistry};
use vstd::prelude::*;
use vstd::string::StringSliceAdditionalSpecFns;

verus! {

/// Message type of an acknowledgement or error reply.
pub const REPLY_ERROR_TYPE: u16 = 2;
/// Bytes of a reply up to and including its status word.
pub const REPLY_MIN_LEN: usize = 20;

/// The abstract state of a session.
pub struct SessionM {
    pub active: bool,
    /// Sequence number of the next request.
    pub next_seq: u32,
    /// Sequence number of the request awaiting its reply.
    pub pending: Option<u32>,
    pub types: Seq<SetTypeM>,
}

/// A 32-bit little-endian header field at `i`.
pub open spec fn rd32(b: Seq<u8>, i: int) -> nat {
    b[i] as nat + 256 * b[i + 1] as nat + 65536 * b[i + 2] as nat + 16777216 * b[i + 3] as nat
}

/// The status word of a reply to request `seq`, or `None` when the bytes are
/// not such a reply: too short, a declared length below the minimum or past
/// the buffer, another message type, or another sequence number.
pub open spec fn reply_status(b: Seq<u8>, seq: u32) -> Option<nat> {
    if b.len() >= REPLY_MIN_LEN && REPLY_MIN_LEN <= rd32(b, 0) <= b.len()
        && crate::codec::rd16(b, 4) == REPLY_ERROR_TYPE as nat && rd32(b, 8) == seq as nat {
        Some(rd32(b, 16))
    } else {
        None
    }
}

/// A zero status is success; a kernel error, or a reply that cannot be read,
/// is `CantExecuteCommand`.
pub open spec fn reply_outcome(b: Seq<u8>, seq: u32) -> Result<(), IpsetSysError> {
    if reply_status(b, seq) == Some(0nat) {
        Ok(())
    } else {
        Err(IpsetSysError::CantExecuteCommand)
    }
}

/// Sequence numbers count up and wrap around.
pub open spec fn next_seq_after(q: u32) -> u32 {
    if q == u32::MAX {
        0
    } else {
        (q + 1) as u32
    }
}

/// What sending command `c` does to session `s`, and what it hands back.
pub open spec fn execute_step(s: SessionM, c: CommandM) -> (SessionM, Result<Seq<u8>, IpsetSysError>) {
    if !s.active {
        (s, Err(IpsetSysError::UseAfterClose))
    } else if s.pending is Some {
        (s, Err(IpsetSysError::CantExecuteCommand))
    } else if command_error(c, s.types) is Some {
        (s, Err(command_error(c, s.types)->0))
    } else {
        (
            SessionM { next_seq: next_seq_after(s.next_seq), pending: Some(s.next_seq), ..s },
            Ok(request_message(c, s.types, s.next_seq)),
        )
    }
}

/// What reply `b` does to session `s`.
pub open spec fn complete_step(s: SessionM, b: Seq<u8>) -> (SessionM, Result<(), IpsetSysError>) {
    if !s.active {
        (s, Err(IpsetSysError::UseAfterClose))
    } else if s.pending is None {
        (s, Err(IpsetSysError::CantExecuteCommand))
    } else {
        (SessionM { pending: None, ..s }, reply_outcome(b, s.pending->0))
    }
}

/// What command line `line` does to session `s`.
pub open spec fn run_step(s: SessionM, line: Seq<u8>) -> (SessionM, Result<Seq<u8>, IpsetSysError>) {
    if !s.active {
        (s, Err(IpsetSysError::UseAfterClose))
    } else {
        match command_of(tokens(line)) {
            Err(e) => (s, Err(e)),
            Ok(c) => execute_step(s, c),
        }
    }
}

/// The command that adds IPv4 address `target` to set `set`.
pub open spec fn add_v4_command(set: Seq<u8>, target: u32) -> CommandM {
    CommandM { addr: Some(be32(target)), ..plain(Op::Add, set) }
}

/// A session with the kernel's set subsystem.
pub struct IpsetSys {
    registry: TypeRegistry,
    open: bool,
    next_seq: u32,
    pending: Option<u32>,
}

impl View for IpsetSys {
    type V = SessionM;

    closed spec fn view(&self) -> SessionM {
        SessionM { active: self.open, next_seq: self.next_seq, pending: self.pending, types: self.registry@ }
    }
}

impl IpsetSys {
    pub closed spec fn wf(&self) -> bool {
        self.registry.wf()
    }

    /// Opens a session over the types the kernel reported, once the caller
    /// has opened the kernel channel. A channel that could not be opened, or
    /// two types of one name, is `CantInit`.
    pub fn init(types: Vec<SetType>, channel_open: bool) -> (r: Result<IpsetSys, IpsetSysError>)
        ensures
            match r {
                Ok(s) => {
                    &&& channel_open
                    &&& s.wf()
                    &&& s@ == SessionM {
                        active: true,
                        next_seq: 1,
                        pending: None,
                        types: types@.map_values(|t: SetType| t@),
                    }
                },
                Err(e) => e == IpsetSysError::CantInit && (!channel_open || !names_unique(
                    types@.map_values(|t: SetType| t@),
                )),
            },
    {
        if !channel_open {
            return Err(IpsetSysError::CantInit);
        }
        match TypeRegistry::load(types) {
            Ok(registry) => Ok(IpsetSys { registry, open: true, next_seq: 1, pending: None }),
            Err(e) => Err(e),
        }
    }

    /// Validates `c` and returns the request to send for it; the session then
    /// waits for the reply, which goes to `complete`.
    pub fn execute(&mut self, c: &Command) -> (r: Result<Vec<u8>, IpsetSysError>)
        requires
            old(self).wf(),
        ensures
            final(self).wf(),
            (final(self)@, match r {
                Ok(m) => Ok(m@),
                Err(e) => Err(e),
            }) == execute_step(old(self)@, c@),
    {
        if !self.open {
            return Err(IpsetSysError::UseAfterClose);
        }
        if self.pending.is_some() {
            return Err(IpsetSysError::CantExecuteCommand);
        }
        match build(c, &self.registry, self.next_seq) {
            Ok(m) => {
                self.pending = Some(self.next_seq);
                self.next_seq = if self.next_seq == u32::MAX {
                    0
                } else {
                    self.next_seq + 1
                };
                Ok(m)
            },
            Err(e) => Err(e),
        }
    }

    /// Reads the reply to the request in flight.
    pub fn complete(&mut self, reply: &[u8]) -> (r: Result<(), IpsetSysError>)
        requires
            old(self).wf(),
        ensures
            final(self).wf(),
            (final(self)@, r) == complete_step(old(self)@, reply@),
    {
        if !self.open {
            return Err(IpsetSysError::UseAfterClose);
        }
        let seq = match self.pending {
            None => {
                return Err(IpsetSysError::CantExecuteCommand);
            },
            Some(q) => q,
        };
        self.pending = None;
        let n: usize = reply.len();
        if n < REPLY_MIN_LEN {
            return Err(IpsetSysError::CantExecuteCommand);
        }
        let len: u32 = read_u32(reply, 0);
        let mtype: u16 = reply[4] as u16 + 256 * (reply[5] as u16);
        let rseq: u32 = read_u32(reply, 8);
        let status: u32 = read_u32(reply, 16);
        if (len as usize) < REPLY_MIN_LEN || len as usize > n || mtype != REPLY_ERROR_TYPE || rseq != seq {
            return Err(IpsetSysError::CantExecuteCommand);
        }
        if status == 0 {
            Ok(())
        } else {
            Err(IpsetSysError::CantExecuteCommand)
        }
    }

    /// Closes the session; a second close is `UseAfterClose`.
    pub fn close(&mut self) -> (r: Result<(), IpsetSysError>)
        requires
            old(self).wf(),
        ensures
            final(self).wf(),
            r is Ok <==> old(self)@.active,
            r is Err ==> r == Err::<(), IpsetSysError>(IpsetSysError::UseAfterClose),
            (final(self)@ == SessionM { active: false, pending: None, ..old(self)@ }) || (!old(self)@.active && final(self)@ == old(self)@),
    {
        if !self.open {
            return Err(IpsetSysError::UseAfterClose);
        }
        self.open = false;
        self.pending = None;
        Ok(())
    }

    /// Parses a command line and returns the request to send for it.
    pub fn run(&mut self, cmd: &str) -> (r: Result<Vec<u8>, IpsetSysError>)
        requires
            old(self).wf(),
        ensures
            final(self).wf(),
            (final(self)@, match r {
                Ok(m) => Ok(m@),
                Err(e) => Err(e),
            }) == run_step(old(self)@, cmd.spec_bytes()),
    {
        if !self.open {
            return Err(IpsetSysError::UseAfterClose);
        }
        match parse_line(cmd) {
            Err(e) => Err(e),
            Ok(c) => self.execute(&c),
        }
    }

    /// Returns the request that adds IPv4 address `target` (as a number,
    /// most significant octet first) to set `set`, without going through the
    /// command-line parser.
    pub fn add_v4(&mut self, set: &str, target: u32) -> (r: Result<Vec<u8>, IpsetSysError>)
        requires
            old(self).wf(),
        ensures
            final(self).wf(),
            (final(self)@, match r {
                Ok(m) => Ok(m@),
                Err(e) => Err(e),
            }) == execute_step(old(self)@, add_v4_command(set.spec_bytes(), target)),
    {
        let name = vstd::slice::slice_to_vec(set.as_bytes());
        let addr = vec![(target >> 24) as u8, (target >> 16) as u8, (target >> 8) as u8, target as u8];
        assert(addr@ =~= be32(target));
        let c = Command {
            op: Op::Add,
            name,
            second: Vec::new(),
            set_type: Vec::new(),
            family: FAMILY_IPV4,
            addr: Some(addr),
            cidr: None,
            timeout: None,
        };
        assert(c@ =~= add_v4_command(set.spec_bytes(), target));
        self.execute(&c)
    }

    pub fn is_open(&self) -> (r: bool)
        ensures
            r == self@.active,
    {
        self.open
    }
}

fn read_u32(b: &[u8], i: usize) -> (r: u32)
    requires
        i + 4 <= b@.len(),
    ensures
        r as nat == rd32(b@, i as int),
{
    b[i] as u32 + 256 * (b[i + 1] as u32) + 65536 * (b[i + 2] as u32) + 16777216 * (b[i + 3] as u32)
}

/// A set name longer than the protocol allows is refused with `ArgTooLong`
/// and no request: the session is left as it was.
pub proof fn lemma_long_name_no_request(s: SessionM, c: CommandM)
    requires
        s.active,
        s.pending is None,
        c.name.len() > MAX_NAME_LEN,
    ensures
        execute_step(s, c) == (s, Err::<Seq<u8>, IpsetSysError>(IpsetSysError::ArgTooLong)),
{
}

/// Destroying a set the kernel does not have fails with `CantExecuteCommand`
/// every time: whatever error status the kernel replies with, the session
/// comes back open, with nothing in flight and its type registry untouched,
/// so the same destroy can be sent again and fails the same way.
pub proof fn lemma_failed_destroy(s: SessionM, name: Seq<u8>, reply: Seq<u8>)
    requires
        s.active,
        s.pending is None,
        command_error(plain(Op::Destroy, name), s.types) is None,
        reply_status(reply, s.next_seq) != Some(0nat),
    ensures
        execute_step(s, plain(Op::Destroy, name)).1 is Ok,
        complete_step(execute_step(s, plain(Op::Destroy, name)).0, reply) == (
            SessionM { next_seq: next_seq_after(s.next_seq), ..s },
            Err::<(), IpsetSysError>(IpsetSysError::CantExecuteCommand),
        ),
{
}

} // verus!

//! A userspace client library for the kernel's IP set subsystem.
//!
//! The library builds the attribute-framed request messages that the kernel
//! expects, validates commands before anything is sent, decodes replies, and
//! keeps the state machine of a session. Moving bytes to and from the kernel
//! channel is left to the caller.
pub mod attr;
pub mod bag;
pub mod codec;
pub mod command;
pub mod error;
pub mod parser;
pub mod registry;
pub mod session;

pub use attr::{Leaf, Value, MAX_NAME_LEN};
pub use bag::{AttributeBag, DataBag};
pub use codec::{frames_from_bytes, frames_to_bytes, Frame};
pub use command::{build, Command, Op, FAMILY_IPV4, FAMILY_IPV6, MAX_TIMEOUT};
pub use error::IpsetSysError;
pub use parser::parse_line;
pub use registry::{SetType, TypeRegistry};
pub use session::IpsetSys;

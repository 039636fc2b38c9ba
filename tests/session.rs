use ipset_sys::{IpsetSys, IpsetSysError, SetType};

fn known_types() -> Vec<SetType> {
    vec![
        SetType { name: b"hash:ip".to_vec(), revision: 4, timeout: true, net: false },
        SetType { name: b"hash:net".to_vec(), revision: 6, timeout: true, net: true },
        SetType { name: b"bitmap:port".to_vec(), revision: 3, timeout: false, net: false },
    ]
}

fn open_session() -> IpsetSys {
    IpsetSys::init(known_types(), true).unwrap()
}

/// An acknowledgement (status 0) or an error reply (negative errno) to `seq`.
fn reply(seq: u32, status: i32) -> Vec<u8> {
    let mut v = Vec::new();
    v.extend_from_slice(&36u32.to_le_bytes());
    v.extend_from_slice(&2u16.to_le_bytes());
    v.extend_from_slice(&0u16.to_le_bytes());
    v.extend_from_slice(&seq.to_le_bytes());
    v.extend_from_slice(&0u32.to_le_bytes());
    v.extend_from_slice(&status.to_le_bytes());
    v.extend_from_slice(&[0u8; 16]);
    v
}

fn seq_of(req: &[u8]) -> u32 {
    u32::from_le_bytes([req[8], req[9], req[10], req[11]])
}

const ENOENT: i32 = -2;
const IPSET_ERR_EXIST: i32 = -4103;
const IPSET_ERR_TYPE_MISMATCH: i32 = -4098;

#[test]
fn init_fails_without_channel() {
    assert_eq!(IpsetSys::init(known_types(), false).err(), Some(IpsetSysError::CantInit));
}

#[test]
fn init_fails_on_duplicate_type() {
    let mut types = known_types();
    types.push(SetType { name: b"hash:ip".to_vec(), revision: 5, timeout: true, net: false });
    assert_eq!(IpsetSys::init(types, true).err(), Some(IpsetSysError::CantInit));
}

#[test]
fn create_then_duplicate_create() {
    let mut is = open_session();
    let req = is.run("create bob hash:ip timeout 0").unwrap();
    assert_eq!(is.complete(&reply(seq_of(&req), 0)), Ok(()));
    let req2 = is.run("create bob hash:ip timeout 0").unwrap();
    assert_eq!(seq_of(&req2), seq_of(&req) + 1);
    assert_eq!(
        is.complete(&reply(seq_of(&req2), IPSET_ERR_EXIST)),
        Err(IpsetSysError::CantExecuteCommand)
    );
}

#[test]
fn create_add_destroy() {
    let mut is = open_session();
    let req = is.run("create bob hash:ip timeout 3600").unwrap();
    assert_eq!(is.complete(&reply(seq_of(&req), 0)), Ok(()));
    let req = is.add_v4("bob", u32::from_be_bytes([1, 4, 4, 4])).unwrap();
    assert_eq!(is.complete(&reply(seq_of(&req), 0)), Ok(()));
    let req = is.run("destroy bob").unwrap();
    assert_eq!(is.complete(&reply(seq_of(&req), 0)), Ok(()));
}

#[test]
fn add_to_set_of_other_family_fails() {
    let mut is = open_session();
    let req = is.run("create bob hash:net").unwrap();
    assert_eq!(is.complete(&reply(seq_of(&req), 0)), Ok(()));
    let req = is.add_v4("bob", u32::from_be_bytes([1, 4, 4, 4])).unwrap();
    assert_eq!(
        is.complete(&reply(seq_of(&req), IPSET_ERR_TYPE_MISMATCH)),
        Err(IpsetSysError::CantExecuteCommand)
    );
}

#[test]
fn long_name_refused_before_any_request() {
    let mut is = open_session();
    let name = "a".repeat(33);
    assert_eq!(
        is.run(&format!("create {} hash:ip", name)),
        Err(IpsetSysError::ArgTooLong)
    );
    assert_eq!(is.add_v4(&name, 1), Err(IpsetSysError::ArgTooLong));
    // nothing is in flight: a reply now has nothing to answer
    assert_eq!(is.complete(&reply(1, 0)), Err(IpsetSysError::CantExecuteCommand));
    // a name of exactly the maximum length is fine
    let req = is.run(&format!("create {} hash:ip", "a".repeat(32))).unwrap();
    assert_eq!(seq_of(&req), 1);
}

#[test]
fn destroy_missing_set_fails_every_time() {
    let mut is = open_session();
    for _ in 0..3 {
        let req = is.run("destroy nosuchset").unwrap();
        assert_eq!(
            is.complete(&reply(seq_of(&req), ENOENT)),
            Err(IpsetSysError::CantExecuteCommand)
        );
    }
    // the registry still resolves types afterwards
    let req = is.run("create bob hash:ip").unwrap();
    assert_eq!(is.complete(&reply(seq_of(&req), 0)), Ok(()));
}

#[test]
fn timeout_bounds() {
    let mut is = open_session();
    for t in ["0", "1", "3600", "2147483"] {
        let req = is.run(&format!("create bob hash:ip timeout {}", t)).unwrap();
        assert_eq!(is.complete(&reply(seq_of(&req), 0)), Ok(()));
    }
    for t in ["-1", "2147484", "2147483648", "9999999999999999999"] {
        assert_eq!(
            is.run(&format!("create bob hash:ip timeout {}", t)),
            Err(IpsetSysError::InvalidTimeout)
        );
    }
}

#[test]
fn timeout_on_type_without_timeout_is_invalid() {
    let mut is = open_session();
    assert_eq!(
        is.run("create ports bitmap:port timeout 5"),
        Err(IpsetSysError::CommandInvalid)
    );
}

#[test]
fn one_request_in_flight() {
    let mut is = open_session();
    let req = is.run("flush").unwrap();
    assert_eq!(is.run("flush"), Err(IpsetSysError::CantExecuteCommand));
    assert_eq!(is.complete(&reply(seq_of(&req), 0)), Ok(()));
    assert!(is.run("flush").is_ok());
}

#[test]
fn reply_with_wrong_sequence_is_rejected() {
    let mut is = open_session();
    let req = is.run("destroy bob").unwrap();
    assert_eq!(
        is.complete(&reply(seq_of(&req) + 7, 0)),
        Err(IpsetSysError::CantExecuteCommand)
    );
}

#[test]
fn short_reply_is_rejected() {
    let mut is = open_session();
    let req = is.run("destroy bob").unwrap();
    let r = reply(seq_of(&req), 0);
    assert_eq!(is.complete(&r[..12]), Err(IpsetSysError::CantExecuteCommand));
}

#[test]
fn use_after_close() {
    let mut is = open_session();
    assert!(is.is_open());
    assert_eq!(is.close(), Ok(()));
    assert!(!is.is_open());
    assert_eq!(is.close(), Err(IpsetSysError::UseAfterClose));
    assert_eq!(is.run("destroy bob"), Err(IpsetSysError::UseAfterClose));
    assert_eq!(is.add_v4("bob", 1), Err(IpsetSysError::UseAfterClose));
    assert_eq!(is.complete(&reply(1, 0)), Err(IpsetSysError::UseAfterClose));
}

#[test]
fn invalid_commands() {
    let mut is = open_session();
    assert_eq!(is.run(""), Err(IpsetSysError::CommandInvalid));
    assert_eq!(is.run("frobnicate bob"), Err(IpsetSysError::CommandInvalid));
    assert_eq!(is.run("create bob"), Err(IpsetSysError::CommandInvalid));
    assert_eq!(is.run("create bob hash:nothing"), Err(IpsetSysError::CommandInvalid));
    assert_eq!(is.run("add bob 1.2.3"), Err(IpsetSysError::CommandInvalid));
    assert_eq!(is.run("add bob 1.2.3.256"), Err(IpsetSysError::CommandInvalid));
    assert_eq!(is.run("add bob 1.2.3.4/33"), Err(IpsetSysError::CommandInvalid));
    assert_eq!(is.run("del bob 1.2.3.4 timeout 5"), Err(IpsetSysError::CommandInvalid));
    assert_eq!(is.run("destroy"), Err(IpsetSysError::CommandInvalid));
    assert_eq!(is.run("create bob hash:ip timeout x"), Err(IpsetSysError::CommandInvalid));
}

#[test]
fn nul_in_name_is_invalid_command() {
    let mut is = open_session();
    assert_eq!(is.run("destroy b\0b"), Err(IpsetSysError::InvalidCommand));
    assert_eq!(is.add_v4("b\0b", 1), Err(IpsetSysError::InvalidCommand));
}

#[test]
fn destroy_request_bytes() {
    let mut is = open_session();
    let req = is.run("destroy bob").unwrap();
    assert_eq!(
        req,
        vec![
            36, 0, 0, 0, 3, 6, 5, 0, 1, 0, 0, 0, 0, 0, 0, 0, 2, 0, 0, 0, // header
            5, 0, 1, 0, 6, 0, 0, 0, // protocol version
            8, 0, 2, 0, b'b', b'o', b'b', 0, // set name
        ]
    );
}

#[test]
fn add_v4_request_bytes() {
    let mut is = open_session();
    let req = is.add_v4("bob", u32::from_be_bytes([1, 4, 4, 4])).unwrap();
    assert_eq!(
        req,
        vec![
            48, 0, 0, 0, 9, 6, 5, 0, 1, 0, 0, 0, 0, 0, 0, 0, 2, 0, 0, 0, // header
            5, 0, 1, 0, 6, 0, 0, 0, // protocol version
            8, 0, 2, 0, b'b', b'o', b'b', 0, // set name
            12, 0, 7, 0, 8, 0, 1, 0, 1, 4, 4, 4, // data: the address
        ]
    );
}

#[test]
fn create_request_bytes() {
    let mut is = open_session();
    let req = is.run("create bob hash:ip timeout 3600").unwrap();
    let mut want = vec![76, 0, 0, 0, 2, 6, 5, 0, 1, 0, 0, 0, 0, 0, 0, 0, 2, 0, 0, 0];
    want.extend_from_slice(&[5, 0, 1, 0, 6, 0, 0, 0]);
    want.extend_from_slice(&[8, 0, 2, 0, b'b', b'o', b'b', 0]);
    want.extend_from_slice(&[12, 0, 3, 0]);
    want.extend_from_slice(b"hash:ip\0");
    want.extend_from_slice(&[5, 0, 4, 0, 4, 0, 0, 0]);
    want.extend_from_slice(&[5, 0, 5, 0, 2, 0, 0, 0]);
    want.extend_from_slice(&[12, 0, 7, 0, 8, 0, 6, 0, 0, 0, 0x0e, 0x10]);
    assert_eq!(req, want);
}

#[test]
fn swap_request_carries_second_name() {
    let mut is = open_session();
    let req = is.run("swap a b").unwrap();
    assert_eq!(&req[4..6], &[6, 6]);
    assert_eq!(&req[req.len() - 8..], &[6, 0, 3, 0, b'b', 0, 0, 0]);
}

use ipset_sys::{parse_line, Command, IpsetSysError, Op, FAMILY_IPV4};

#[test]
fn parses_add_with_cidr_and_timeout() {
    let c = parse_line("add  bob\t10.1.2.0/24 timeout 60\n").unwrap();
    assert_eq!(
        c,
        Command {
            op: Op::Add,
            name: b"bob".to_vec(),
            second: vec![],
            set_type: vec![],
            family: FAMILY_IPV4,
            addr: Some(vec![10, 1, 2, 0]),
            cidr: Some(24),
            timeout: Some(60),
        }
    );
}

#[test]
fn parses_flush_all_and_negative_timeout() {
    let c = parse_line("flush").unwrap();
    assert_eq!(c.op, Op::Flush);
    assert!(c.name.is_empty());
    let c = parse_line("create bob hash:ip timeout -1").unwrap();
    assert_eq!(c.timeout, Some(-1));
    assert_eq!(c.set_type, b"hash:ip".to_vec());
}

#[test]
fn rejects_unknown_words_and_bad_numbers() {
    assert_eq!(parse_line("CREATE bob hash:ip").err(), Some(IpsetSysError::CommandInvalid));
    assert_eq!(parse_line("create bob hash:ip ttl 5").err(), Some(IpsetSysError::CommandInvalid));
    assert_eq!(parse_line("create bob hash:ip timeout -").err(), Some(IpsetSysError::CommandInvalid));
    assert_eq!(
        parse_line("create bob hash:ip timeout 1234567890123456").err(),
        Some(IpsetSysError::InvalidTimeout)
    );
    assert_eq!(parse_line("rename a").err(), Some(IpsetSysError::CommandInvalid));
}

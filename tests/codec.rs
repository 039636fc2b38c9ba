use ipset_sys::attr::{ATTR_FLAGS, ATTR_SETNAME, DATA_CIDR, DATA_IP, DATA_TIMEOUT};
use ipset_sys::{frames_from_bytes, frames_to_bytes, AttributeBag, DataBag, Frame, IpsetSysError, Leaf, Value};

fn sample_bag() -> AttributeBag {
    let mut bag = AttributeBag::new();
    bag.put(ATTR_SETNAME, Leaf::Str(b"bob".to_vec())).unwrap();
    bag.put(ATTR_FLAGS, Leaf::U32(0x0102_0304)).unwrap();
    bag.put(99, Leaf::Bytes(vec![7, 7, 7, 7, 7])).unwrap();
    let mut data = DataBag::new();
    data.put(DATA_IP, Leaf::Addr(vec![10, 0, 0, 1])).unwrap();
    data.put(DATA_CIDR, Leaf::U8(24)).unwrap();
    data.put(DATA_TIMEOUT, Leaf::U32(600)).unwrap();
    bag.put_data(data).unwrap();
    bag
}

#[test]
fn bag_round_trip() {
    let bag = sample_bag();
    let bytes = bag.encode();
    assert_eq!(bytes.len() % 4, 0);
    let back = AttributeBag::decode(&bytes).unwrap();
    assert_eq!(back, bag);
    assert_eq!(back.encode(), bytes);
}

#[test]
fn empty_bag_round_trip() {
    let bag = AttributeBag::new();
    assert!(bag.encode().is_empty());
    assert_eq!(AttributeBag::decode(&[]).unwrap(), bag);
}

#[test]
fn numbers_go_in_network_order() {
    let mut bag = AttributeBag::new();
    bag.put(ATTR_FLAGS, Leaf::U32(0x0102_0304)).unwrap();
    assert_eq!(bag.encode(), vec![8, 0, 6, 0, 1, 2, 3, 4]);
}

#[test]
fn strings_are_nul_terminated_and_padded() {
    let mut bag = AttributeBag::new();
    bag.put(ATTR_SETNAME, Leaf::Str(b"abcd".to_vec())).unwrap();
    assert_eq!(bag.encode(), vec![9, 0, 2, 0, b'a', b'b', b'c', b'd', 0, 0, 0, 0]);
}

#[test]
fn put_checks() {
    let mut bag = AttributeBag::new();
    assert_eq!(bag.put(ATTR_SETNAME, Leaf::Str(vec![b'x'; 33])), Err(IpsetSysError::ArgTooLong));
    assert_eq!(bag.put(ATTR_SETNAME, Leaf::Str(vec![b'x'; 32])), Ok(()));
    assert_eq!(bag.put(ATTR_SETNAME, Leaf::Str(b"y".to_vec())), Err(IpsetSysError::CommandInvalid));
    assert_eq!(bag.put(ATTR_FLAGS, Leaf::U8(1)), Err(IpsetSysError::CommandInvalid));
    assert_eq!(bag.put(7, Leaf::Bytes(vec![])), Err(IpsetSysError::CommandInvalid));
    assert_eq!(bag.len(), 1);
    let mut data = DataBag::new();
    assert_eq!(data.put(DATA_IP, Leaf::Addr(vec![1, 2, 3])), Err(IpsetSysError::CommandInvalid));
    assert_eq!(data.put(DATA_IP, Leaf::Addr(vec![0; 16])), Ok(()));
    assert!(matches!(bag.get(ATTR_SETNAME), Some(Value::Leaf(Leaf::Str(s))) if s.len() == 32));
}

#[test]
fn decode_rejects_length_past_buffer() {
    assert_eq!(AttributeBag::decode(&[12, 0, 2, 0, b'a', 0, 0, 0]), Err(IpsetSysError::CantExecuteCommand));
}

#[test]
fn decode_rejects_bad_padding() {
    assert_eq!(AttributeBag::decode(&[6, 0, 2, 0, b'a', 0, 1, 0]), Err(IpsetSysError::CantExecuteCommand));
    assert_eq!(AttributeBag::decode(&[6, 0, 2, 0, b'a', 0]), Err(IpsetSysError::CantExecuteCommand));
}

#[test]
fn decode_rejects_short_header_and_repeated_key() {
    assert_eq!(AttributeBag::decode(&[2, 0, 2, 0]), Err(IpsetSysError::CantExecuteCommand));
    let one = [6u8, 0, 2, 0, b'a', 0, 0, 0];
    let mut two = one.to_vec();
    two.extend_from_slice(&one);
    assert!(AttributeBag::decode(&one).is_ok());
    assert_eq!(AttributeBag::decode(&two), Err(IpsetSysError::CantExecuteCommand));
}

#[test]
fn frames_round_trip() {
    let fs = vec![
        Frame { tag: 1, payload: vec![1, 2, 3] },
        Frame { tag: 300, payload: vec![] },
    ];
    let bytes = frames_to_bytes(&fs);
    assert_eq!(bytes, vec![7, 0, 1, 0, 1, 2, 3, 0, 4, 0, 44, 1]);
    let back = frames_from_bytes(&bytes).unwrap();
    assert_eq!(back.len(), 2);
    assert_eq!(back[0].tag, 1);
    assert_eq!(back[0].payload, vec![1, 2, 3]);
    assert_eq!(back[1].tag, 300);
    assert!(back[1].payload.is_empty());
}

use scheduler::message::{
    assigned_slave, assignment_reply, drop_zero_bytes, parse_assignment, parse_request,
    read_message, rejection_reply, AssignmentError, Request,
};

fn padded(text: &[u8]) -> [u8; 256] {
    let mut buf = [0u8; 256];
    buf[..text.len()].copy_from_slice(text);
    buf
}

#[test]
fn drop_zero_bytes_keeps_order() {
    assert_eq!(drop_zero_bytes(&[0, 1, 0, 2, 3, 0]), vec![1, 2, 3]);
    assert!(drop_zero_bytes(&[0, 0]).is_empty());
}

#[test]
fn read_message_strips_padding_and_newline() {
    assert_eq!(read_message(&padded(b"resnet18\n")), Some("resnet18".to_string()));
    assert_eq!(read_message(&padded(b"a\n\n")), Some("a\n".to_string()));
    assert_eq!(read_message(&[0xff, 0xfe]), None);
}

#[test]
fn parse_request_classifies() {
    assert_eq!(parse_request(&padded(b"")), Some(Request::Release));
    assert_eq!(parse_request(&padded(b"\n")), Some(Request::Release));
    assert_eq!(
        parse_request(&padded(b"resnet18|127.0.0.1\n")),
        Some(Request::Model("resnet18|127.0.0.1".to_string()))
    );
    assert_eq!(
        parse_request(&padded(b"mobilenetv1")),
        Some(Request::Model("mobilenetv1".to_string()))
    );
    assert_eq!(
        parse_request(&padded(b"attestation")),
        Some(Request::Unknown("attestation".to_string()))
    );
    assert_eq!(parse_request(&padded(&[0xc3, 0x28])), None);
}

#[test]
fn replies() {
    assert_eq!(rejection_reply(), "wrong message!!!");
    assert_eq!(assignment_reply("127.0.0.1:4242,127.0.0.1:4243"), "127.0.0.1:4242,127.0.0.1:4243,key");
    assert_eq!(assignment_reply(""), ",key");
}

#[test]
fn assigned_slave_reads_address() {
    assert_eq!(assigned_slave(",127.0.0.1:4243"), Some("127.0.0.1:4243"));
    assert_eq!(assigned_slave("127.0.0.1:4242,127.0.0.1:4243,x"), Some("127.0.0.1:4243"));
    assert_eq!(assigned_slave(","), Some(""));
    assert_eq!(assigned_slave("127.0.0.1:4242"), None);
}

#[test]
fn parse_assignment_reads_fields() {
    let key: Vec<u8> = (1u8..=33).collect();
    let mut raw = b"next|127.0.0.1:4242|x\n".to_vec();
    raw.extend_from_slice(&key);
    let a = parse_assignment(&padded(&raw)).unwrap();
    assert!(!a.finished);
    assert_eq!(a.slave_address, "127.0.0.1:4242");
    assert_eq!(a.public_key, key);

    let mut raw = b"finished|10.1.1.1:1".to_vec();
    raw.extend_from_slice(&key);
    let a = parse_assignment(&padded(&raw)).unwrap();
    assert!(a.finished);
    assert_eq!(a.slave_address, "10.1.1.1:1");
}

#[test]
fn parse_assignment_errors() {
    assert!(matches!(parse_assignment(&padded(&[5u8; 32])), Err(AssignmentError::TooShort)));
    let key = [7u8; 33];
    let mut raw = b"no-address".to_vec();
    raw.extend_from_slice(&key);
    assert!(matches!(parse_assignment(&padded(&raw)), Err(AssignmentError::NoAddress)));
    let mut raw = vec![0xffu8, 0xfe];
    raw.extend_from_slice(&key);
    assert!(matches!(parse_assignment(&padded(&raw)), Err(AssignmentError::NotUtf8)));
}

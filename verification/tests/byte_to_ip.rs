use bytes::Bytes;
use workload::workload::{byte_to_ip, WorkloadError};

#[test]
fn byte_to_ipaddr_garbage() {
    let garbage = "not_an_ip";
    let bytes = Bytes::from(garbage);
    let result = byte_to_ip(&bytes);
    assert!(result.is_err());
    let actual_error: WorkloadError = result.unwrap_err();
    let expected_error = WorkloadError::ByteAddressParse(garbage.len());
    assert_eq!(actual_error, expected_error);
}

#[test]
fn byte_to_ipaddr_empty() {
    let empty = "";
    let bytes = Bytes::from(empty);
    let result = byte_to_ip(&bytes);
    assert!(result.is_ok());
    let maybe_ip_addr = result.unwrap();
    assert!(maybe_ip_addr.is_none());
}

#[test]
fn byte_to_ipaddr_unspecified() {
    let unspecified: Vec<u8> = vec![0, 0, 0, 0];
    let bytes = Bytes::from(unspecified);
    let result = byte_to_ip(&bytes);
    assert!(result.is_ok());
    let maybe_ip_addr = result.unwrap();
    assert!(maybe_ip_addr.is_some());
    let ip_addr = maybe_ip_addr.unwrap();
    assert!(ip_addr.is_unspecified(), "was not unspecified")
}

#[test]
fn byte_to_ipaddr_v4_loopback() {
    let loopback: Vec<u8> = vec![127, 0, 0, 1];
    let bytes = Bytes::from(loopback);
    let result = byte_to_ip(&bytes);
    assert!(result.is_ok());
    let maybe_loopback_ip = result.unwrap();
    assert!(maybe_loopback_ip.is_some());
    assert_eq!(maybe_loopback_ip.unwrap().to_string(), "127.0.0.1");
}

#[test]
fn byte_to_ipaddr_v4_happy() {
    let addr_vec: Vec<u8> = Vec::from([1, 1, 1, 1]);
    let bytes = &Bytes::from(addr_vec);
    let result = byte_to_ip(bytes);
    assert!(result.is_ok());
    let maybe_ip_addr = result.unwrap();
    assert!(maybe_ip_addr.is_some());
    let ip_addr = maybe_ip_addr.unwrap();
    assert!(ip_addr.is_ipv4(), "was not ipv4");
    assert!(!ip_addr.is_ipv6(), "was ipv6");
    assert!(!ip_addr.is_unspecified(), "was unspecified");
    assert_eq!(ip_addr.to_string(), "1.1.1.1");
}

#[test]
fn byte_to_ipaddr_v6_happy() {
    let addr: Vec<u8> = Vec::from([
        32, 1, 13, 184, 133, 163, 0, 0, 0, 0, 138, 46, 3, 112, 115, 52,
    ]);
    let bytes = &Bytes::from(addr);
    let result = byte_to_ip(bytes);
    assert!(result.is_ok());
    let maybe_ip_addr = result.unwrap();
    assert!(maybe_ip_addr.is_some());
    let ip_addr = maybe_ip_addr.unwrap();
    assert!(ip_addr.is_ipv6(), "was not ipv6");
    assert!(!ip_addr.is_ipv4(), "was ipv4");
    assert!(!ip_addr.is_unspecified());
    assert_eq!(ip_addr.to_string(), "2001:db8:85a3::8a2e:370:7334");
}

#[test]
fn byte_to_ipaddr_v6_loopback() {
    let addr_vec: Vec<u8> = Vec::from([0, 0, 0, 0, 0, 0, 0, 0, 0, 0, 0, 0, 0, 0, 0, 1]);
    let bytes = &Bytes::from(addr_vec);
    let result = byte_to_ip(bytes);
    assert!(result.is_ok());
    let maybe_loopback_ip = result.unwrap();
    assert!(maybe_loopback_ip.is_some());
    assert_eq!(maybe_loopback_ip.unwrap().to_string(), "::1");
}

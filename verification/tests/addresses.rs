use workload::net::{AddrParseError, IpAddr, SocketAddr, SocketAddrV6};

fn reads(text: &str, ip: IpAddr) {
    assert_eq!(IpAddr::parse(text), Ok(ip), "{}", text);
}

fn refuses(text: &str) {
    assert_eq!(IpAddr::parse(text), Err(AddrParseError), "{}", text);
}

#[test]
fn dotted_addresses_are_read() {
    reads("0.0.0.0", IpAddr::V4(0));
    reads("127.0.0.1", IpAddr::V4(0x7f00_0001));
    reads("255.255.255.255", IpAddr::V4(0xffff_ffff));
    reads("10.1.20.3", IpAddr::V4(0x0a01_1403));
}

#[test]
fn malformed_dotted_addresses_are_refused() {
    for text in [
        "", ".", "1", "1.2.3", "1.2.3.4.5", "1.2.3.", ".1.2.3", "1..2.3", "256.0.0.1", "1.2.3.999",
        "01.2.3.4", "1.2.3.00", "1.2.3.4444", "a.2.3.4", "1.2.3.4 ", " 1.2.3.4", "+1.2.3.4",
        "1.2.3.4/8", "1.2.3.4:80", "localhost", "1.2.3.\u{661}",
    ] {
        refuses(text);
    }
}

#[test]
fn colon_addresses_are_read() {
    reads("::", IpAddr::V6(0));
    reads("::1", IpAddr::V6(1));
    reads("1::", IpAddr::V6(1 << 112));
    reads("1:2:3:4:5:6:7:8", IpAddr::V6(0x0001_0002_0003_0004_0005_0006_0007_0008));
    reads("1:2:3:4:5:6:7::", IpAddr::V6(0x0001_0002_0003_0004_0005_0006_0007_0000));
    reads("::2:3:4:5:6:7:8", IpAddr::V6(0x0000_0002_0003_0004_0005_0006_0007_0008));
    reads("2001:DB8::ff00:42:8329", IpAddr::V6(0x2001_0db8_0000_0000_0000_ff00_0042_8329));
    reads("0001::000a", IpAddr::V6((1 << 112) + 10));
    reads("::1.2.3.4", IpAddr::V6(0x0102_0304));
    reads("::ffff:1.2.3.4", IpAddr::V6(0xffff_0102_0304));
    reads("1:2:3:4:5:6:1.2.3.4", IpAddr::V6(0x0001_0002_0003_0004_0005_0006_0102_0304));
    reads("1::5:1.2.3.4", IpAddr::V6(0x0001_0000_0000_0000_0000_0005_0102_0304));
}

#[test]
fn malformed_colon_addresses_are_refused() {
    for text in [
        ":", ":::", "1:2:3:4:5:6:7", "1:2:3:4:5:6:7:8:9", "1:2:3:4:5:6:7:8::", "::1:2:3:4:5:6:7:8",
        "1::2::3", ":1::2", "1::2:", "1:::2", "12345::", "g::", "::1%1", "[::1]", "1.2.3.4::",
        "::1.2.3.4:5", "::1.2.3", "::1.2.3.256", "1:2:3:4:5:6:7:1.2.3.4", "::1.2.3.4.5", "::-1",
    ] {
        refuses(text);
    }
}

#[test]
fn addresses_are_written() {
    assert_eq!(IpAddr::V4(0x0a00_ff07).to_string(), "10.0.255.7");
    assert_eq!(IpAddr::V6(0).to_string(), "::");
    assert_eq!(IpAddr::V6(0x0102_0304).to_string(), "::102:304");
    assert_eq!(IpAddr::V6(0xffff_0102_0304).to_string(), "::ffff:1.2.3.4");
    assert_eq!(IpAddr::V6(1 << 112).to_string(), "1::");
    // The first of two runs of the same length is shortened.
    assert_eq!(IpAddr::V6(0x0001_0000_0000_0002_0003_0000_0000_0004).to_string(), "1::2:3:0:0:4");
    // The longest run is shortened, wherever it stands.
    assert_eq!(IpAddr::V6(0x0001_0000_0000_0002_0000_0000_0000_0003).to_string(), "1:0:0:2::3");
    // One zero alone is not.
    assert_eq!(
        IpAddr::V6(0x0001_0000_0003_0004_0005_0006_0007_abcd).to_string(),
        "1:0:3:4:5:6:7:abcd"
    );
}

#[test]
fn text_reads_back() {
    for ip in [
        IpAddr::V4(0),
        IpAddr::V4(0xc0a8_0a64),
        IpAddr::V4(u32::MAX),
        IpAddr::V6(0),
        IpAddr::V6(1),
        IpAddr::V6(0xffff_0102_0304),
        IpAddr::V6(0xfffe_0102_0304),
        IpAddr::V6(1 << 127),
        IpAddr::V6(0x0001_0000_0000_0002_0003_0000_0000_0004),
        IpAddr::V6(u128::MAX),
    ] {
        assert_eq!(IpAddr::parse(&ip.to_string()), Ok(ip));
    }
}

#[test]
fn socket_addresses() {
    let v4 = SocketAddr::new(IpAddr::V4(0x7f00_0001), 80);
    assert_eq!(v4.ip(), IpAddr::V4(0x7f00_0001));
    assert_eq!(v4.port(), 80);
    assert_eq!(v4.to_string(), "127.0.0.1:80");
    let v6 = SocketAddr::new(IpAddr::V6(1), 15008);
    assert_eq!(v6.ip(), IpAddr::V6(1));
    assert_eq!(v6.port(), 15008);
    assert_eq!(v6.to_string(), "[::1]:15008");
    let scoped = SocketAddr::V6(SocketAddrV6 { ip: 1, port: 0, flowinfo: 9, scope_id: 12 });
    assert_eq!(scoped.to_string(), "[::1%12]:0");
    assert_ne!(scoped, SocketAddr::new(IpAddr::V6(1), 0));
}

#[test]
fn parse_error_text() {
    assert_eq!(AddrParseError.to_string(), "invalid IP address syntax");
}

use chronik_lib::addr::{AddrParseError, IpAddress, ResolvedAddress};

fn v4(a: u8, b: u8, c: u8, d: u8) -> Result<IpAddress, AddrParseError> {
    Ok(IpAddress::V4([a, b, c, d]))
}

fn v6(segments: [u16; 8]) -> Result<IpAddress, AddrParseError> {
    Ok(IpAddress::V6(segments))
}

fn sock4(octets: [u8; 4], port: u16) -> Result<ResolvedAddress, AddrParseError> {
    Ok(ResolvedAddress::V4 { octets, port })
}

fn sock6(segments: [u16; 8], port: u16, scope_id: u32) -> Result<ResolvedAddress, AddrParseError> {
    Ok(ResolvedAddress::V6 { segments, port, scope_id })
}

#[test]
fn dotted_quads_parse() {
    assert_eq!(IpAddress::parse("127.0.0.1"), v4(127, 0, 0, 1));
    assert_eq!(IpAddress::parse("0.0.0.0"), v4(0, 0, 0, 0));
    assert_eq!(IpAddress::parse("255.255.255.255"), v4(255, 255, 255, 255));
    assert_eq!(IpAddress::parse("1.20.255.9"), v4(1, 20, 255, 9));
    assert_eq!(IpAddress::parse("10.0.100.200"), v4(10, 0, 100, 200));
}

#[test]
fn malformed_dotted_quads_are_refused() {
    let texts = [
        "", ".", "...", "256.0.0.1", "1.2.3", "1.2.3.4.5", "01.2.3.4", "1.2.3.04", "0.00.0.0",
        "1..2.3", ".1.2.3", "1.2.3.", "1.2.3.4 ", " 1.2.3.4", "1.2.3.1000", "1.2.3.-4",
        "+1.2.3.4", "1.2.3.4a", "a.b.c.d", "1.2.3.4\n", "1,2,3,4", "1.2.3.4.", "0x1.2.3.4",
        "999.1.1.1", "1.2.3.300", "localhost", "not-an-ip",
    ];
    for text in texts {
        assert_eq!(IpAddress::parse(text), Err(AddrParseError::Ip), "{text:?}");
    }
}

#[test]
fn ipv6_texts_parse() {
    assert_eq!(IpAddress::parse("::"), v6([0, 0, 0, 0, 0, 0, 0, 0]));
    assert_eq!(IpAddress::parse("::1"), v6([0, 0, 0, 0, 0, 0, 0, 1]));
    assert_eq!(IpAddress::parse("1::"), v6([1, 0, 0, 0, 0, 0, 0, 0]));
    assert_eq!(IpAddress::parse("1::2"), v6([1, 0, 0, 0, 0, 0, 0, 2]));
    assert_eq!(IpAddress::parse("1:2:3:4:5:6:7:8"), v6([1, 2, 3, 4, 5, 6, 7, 8]));
    assert_eq!(IpAddress::parse("fFfF::AbCd"), v6([0xffff, 0, 0, 0, 0, 0, 0, 0xabcd]));
    assert_eq!(
        IpAddress::parse("2001:db8:85a3:0:0:8a2e:370:7334"),
        v6([0x2001, 0xdb8, 0x85a3, 0, 0, 0x8a2e, 0x370, 0x7334])
    );
    assert_eq!(
        IpAddress::parse("0000:0000:0000:0000:0000:0000:0000:0001"),
        v6([0, 0, 0, 0, 0, 0, 0, 1])
    );
    assert_eq!(IpAddress::parse("1:2:3:4:5:6:7::"), v6([1, 2, 3, 4, 5, 6, 7, 0]));
    assert_eq!(IpAddress::parse("::2:3:4:5:6:7:8"), v6([0, 2, 3, 4, 5, 6, 7, 8]));
    assert_eq!(IpAddress::parse("1:2:3:4::5:6:7"), v6([1, 2, 3, 4, 0, 5, 6, 7]));
    assert_eq!(IpAddress::parse("1:2::7:8"), v6([1, 2, 0, 0, 0, 0, 7, 8]));
    assert_eq!(IpAddress::parse("fe80::1"), v6([0xfe80, 0, 0, 0, 0, 0, 0, 1]));
}

#[test]
fn ipv6_texts_with_a_dotted_quad_parse() {
    assert_eq!(IpAddress::parse("::ffff:1.2.3.4"), v6([0, 0, 0, 0, 0, 0xffff, 0x0102, 0x0304]));
    assert_eq!(IpAddress::parse("::1.2.3.4"), v6([0, 0, 0, 0, 0, 0, 0x0102, 0x0304]));
    assert_eq!(
        IpAddress::parse("1:2:3:4:5:6:1.2.3.4"),
        v6([1, 2, 3, 4, 5, 6, 0x0102, 0x0304])
    );
    assert_eq!(
        IpAddress::parse("::ffff:255.255.255.255"),
        v6([0, 0, 0, 0, 0, 0xffff, 0xffff, 0xffff])
    );
    assert_eq!(IpAddress::parse("1::127.0.0.1"), v6([1, 0, 0, 0, 0, 0, 0x7f00, 0x0001]));
    assert_eq!(
        IpAddress::parse("1:2:3:4:5::1.2.3.4"),
        v6([1, 2, 3, 4, 5, 0, 0x0102, 0x0304])
    );
    assert_eq!(
        IpAddress::parse("::1:2:3:4:5:1.2.3.4"),
        v6([0, 1, 2, 3, 4, 5, 0x0102, 0x0304])
    );
}

#[test]
fn malformed_ipv6_texts_are_refused() {
    let texts = [
        ":", ":::", "::1::", "1::2::3", "1:2:3:4:5:6:7", "1:2:3:4:5:6:7:8:9", "12345::",
        "::12345", "g::", "1.2.3.4::", "1:2:3:4:5:6:7:1.2.3.4", "1:2:3:4:5:1.2.3.4",
        "::1.2.3.4:5", "1:2:3:4:5:6:7::8", "1:2:3:4::5:6:7:8", "1:2:3:4:5:6:7:8::",
        "::1:2:3:4:5:6:7:8", "1:", ":1", "1", "::1.2.3", "::1.2.3.4.5", "::1.2.3.256",
        "::01.2.3.4", "1:2:3:4:5:6:7:", ":1:2:3:4:5:6:7", ":1:2:3:4:5:6:7:8", "::%1",
        "fe80::1%5", "[::1]", "::.", "::1.", "1:2:3:4:5:6::1.2.3.4", "::1:2:3:4:5:6:1.2.3.4",
        "1:2:3:4:5:6:7::1.2.3.4", "::1 ", " ::1", "::\u{e9}", "\u{ff11}::", "1::2:3:4:5:6:7:8",
    ];
    for text in texts {
        assert_eq!(IpAddress::parse(text), Err(AddrParseError::Ip), "{text:?}");
    }
}

#[test]
fn socket_texts_parse() {
    assert_eq!(ResolvedAddress::parse("127.0.0.1:8080"), sock4([127, 0, 0, 1], 8080));
    assert_eq!(ResolvedAddress::parse("0.0.0.0:0"), sock4([0, 0, 0, 0], 0));
    assert_eq!(ResolvedAddress::parse("10.1.2.3:65535"), sock4([10, 1, 2, 3], 65535));
    assert_eq!(ResolvedAddress::parse("127.0.0.1:00080"), sock4([127, 0, 0, 1], 80));
    assert_eq!(
        ResolvedAddress::parse("127.0.0.1:0000000000000000000000065535"),
        sock4([127, 0, 0, 1], 65535)
    );
    assert_eq!(ResolvedAddress::parse("[::1]:80"), sock6([0, 0, 0, 0, 0, 0, 0, 1], 80, 0));
    assert_eq!(ResolvedAddress::parse("[::]:0"), sock6([0, 0, 0, 0, 0, 0, 0, 0], 0, 0));
    assert_eq!(
        ResolvedAddress::parse("[1:2:3:4:5:6:7:8]:9"),
        sock6([1, 2, 3, 4, 5, 6, 7, 8], 9, 0)
    );
    assert_eq!(
        ResolvedAddress::parse("[::ffff:1.2.3.4]:443"),
        sock6([0, 0, 0, 0, 0, 0xffff, 0x0102, 0x0304], 443, 0)
    );
    assert_eq!(
        ResolvedAddress::parse("[fe80::1%5]:80"),
        sock6([0xfe80, 0, 0, 0, 0, 0, 0, 1], 80, 5)
    );
    assert_eq!(
        ResolvedAddress::parse("[fe80::1%4294967295]:080"),
        sock6([0xfe80, 0, 0, 0, 0, 0, 0, 1], 80, 4294967295)
    );
    assert_eq!(
        ResolvedAddress::parse("[fe80::1%005]:1"),
        sock6([0xfe80, 0, 0, 0, 0, 0, 0, 1], 1, 5)
    );
}

#[test]
fn malformed_socket_texts_are_refused() {
    let texts = [
        "", "127.0.0.1", "127.0.0.1:", "127.0.0.1:65536", "127.0.0.1:80:", "127.0.0.1::80",
        ":80", "127.0.0.1:8o", "127.0.0.1:+80", "127.0.0.1:-1", "127.0.0.1: 80",
        "127.0.0.1 :80", "256.0.0.1:80", "01.0.0.1:80", "::1", "[::1]", "[::1]:", "[::1]80",
        "::1:80", "[::1:80", "::1]:80", "[[::1]]:80", "[::1]]:80", "[]:80", "[1.2.3.4]:80",
        "[::1]:65536", "[fe80::1%4294967296]:80", "[fe80::1%]:80", "[fe80::1%eth0]:80",
        "[fe80::1%5%6]:80", "[%5]:80", "[::1] :80", "[::1]:80 ", " [::1]:80", "not-an-ip",
        "localhost:80", "[::1]:8\u{e9}", "\u{e9}:80", "1.2.3.4:80\n", "[::1]:%80", "[:]:80",
        "[::1]::80", "1.2.3.4:99999999999999999999", "1.2.3.4:0x50",
    ];
    for text in texts {
        assert_eq!(ResolvedAddress::parse(text), Err(AddrParseError::Socket), "{text:?}");
    }
}

#[test]
fn new_gives_the_address_at_the_port_without_scope() {
    assert_eq!(
        ResolvedAddress::new(IpAddress::V4([1, 2, 3, 4]), 5),
        ResolvedAddress::V4 { octets: [1, 2, 3, 4], port: 5 }
    );
    assert_eq!(
        ResolvedAddress::new(IpAddress::V6([1, 2, 3, 4, 5, 6, 7, 8]), 9),
        ResolvedAddress::V6 { segments: [1, 2, 3, 4, 5, 6, 7, 8], port: 9, scope_id: 0 }
    );
}

#[test]
fn descriptions_name_the_kind_of_address() {
    assert_eq!(AddrParseError::Ip.description(), "invalid IP address syntax");
    assert_eq!(AddrParseError::Socket.description(), "invalid socket address syntax");
}

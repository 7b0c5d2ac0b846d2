use ntz_proto::addr::{
    ipv4_from_number, ipv4_to_number, ipv4_to_string, network, parse_ipv4, push_ipv6, push_socket,
    SocketAddr,
};

fn ipv6(groups: [u16; 8]) -> [u8; 16] {
    let mut octets = [0u8; 16];
    let mut i = 0;
    while i < 8 {
        octets[2 * i] = (groups[i] >> 8) as u8;
        octets[2 * i + 1] = (groups[i] & 0xff) as u8;
        i += 1;
    }
    octets
}

fn ipv6_text(groups: [u16; 8]) -> String {
    let mut out = String::new();
    push_ipv6(&mut out, &ipv6(groups));
    out
}

fn socket_text(a: SocketAddr) -> String {
    let mut out = String::new();
    push_socket(&mut out, &a);
    out
}

#[test]
fn ipv4_texts() {
    assert_eq!(ipv4_to_string(&[0, 0, 0, 0]), "0.0.0.0");
    assert_eq!(ipv4_to_string(&[10, 0, 0, 2]), "10.0.0.2");
    assert_eq!(ipv4_to_string(&[203, 0, 113, 255]), "203.0.113.255");
}

#[test]
fn ipv4_texts_are_read() {
    assert_eq!(parse_ipv4("0.0.0.0"), Some([0, 0, 0, 0]));
    assert_eq!(parse_ipv4("10.0.0.2"), Some([10, 0, 0, 2]));
    assert_eq!(parse_ipv4("255.255.255.255"), Some([255, 255, 255, 255]));
    assert_eq!(parse_ipv4("9.99.100.249"), Some([9, 99, 100, 249]));
}

#[test]
fn other_texts_are_no_ipv4_address() {
    for s in [
        "", "1", "1.2.3", "1.2.3.", ".1.2.3", "1.2.3.4.", "1.2.3.4.5", "1..2.3", "256.0.0.1",
        "1.2.3.999", "01.2.3.4", "1.2.3.00", "1.2.3.4 ", " 1.2.3.4", "1.2.3.x", "+1.2.3.4",
        "1,2,3,4", "1234.1.1.1", "::1", "1.2.3.\u{664}", "localhost",
    ] {
        assert_eq!(parse_ipv4(s), None, "{}", s);
    }
}

#[test]
fn ipv4_text_round_trip() {
    let mut n: u32 = 0;
    while n < 0xf000_0000 {
        let octets = ipv4_from_number(n);
        assert_eq!(ipv4_to_number(&octets), n);
        assert_eq!(parse_ipv4(&ipv4_to_string(&octets)), Some(octets));
        n += 0x0123_4567;
    }
}

#[test]
fn networks() {
    let n = ipv4_to_number(&[192, 168, 77, 203]);
    assert_eq!(ipv4_from_number(network(n, 32)), [192, 168, 77, 203]);
    assert_eq!(ipv4_from_number(network(n, 31)), [192, 168, 77, 202]);
    assert_eq!(ipv4_from_number(network(n, 24)), [192, 168, 77, 0]);
    assert_eq!(ipv4_from_number(network(n, 20)), [192, 168, 64, 0]);
    assert_eq!(ipv4_from_number(network(n, 1)), [128, 0, 0, 0]);
    assert_eq!(ipv4_from_number(network(n, 0)), [0, 0, 0, 0]);
    assert_eq!(network(network(n, 20), 20), network(n, 20));
}

#[test]
fn ipv6_texts() {
    assert_eq!(ipv6_text([0, 0, 0, 0, 0, 0, 0, 0]), "::");
    assert_eq!(ipv6_text([0, 0, 0, 0, 0, 0, 0, 1]), "::1");
    assert_eq!(ipv6_text([1, 0, 0, 0, 0, 0, 0, 0]), "1::");
    assert_eq!(ipv6_text([0xfe80, 0, 0, 0, 0x1a2b, 0xc, 0xd0, 0xe00]), "fe80::1a2b:c:d0:e00");
    assert_eq!(ipv6_text([0x2001, 0xdb8, 1, 2, 3, 4, 5, 6]), "2001:db8:1:2:3:4:5:6");
}

#[test]
fn the_longest_and_first_zero_run_is_shortened() {
    assert_eq!(ipv6_text([1, 0, 0, 2, 0, 0, 0, 3]), "1:0:0:2::3");
    assert_eq!(ipv6_text([1, 0, 0, 2, 3, 0, 0, 4]), "1::2:3:0:0:4");
    assert_eq!(ipv6_text([1, 0, 2, 3, 4, 5, 6, 7]), "1:0:2:3:4:5:6:7");
    assert_eq!(ipv6_text([0, 1, 2, 3, 4, 5, 0, 0]), "0:1:2:3:4:5::");
}

#[test]
fn mapped_ipv4_addresses_are_dotted() {
    assert_eq!(ipv6_text([0, 0, 0, 0, 0, 0xffff, 0xc000, 0x0280]), "::ffff:192.0.2.128");
    assert_eq!(ipv6_text([0, 0, 0, 0, 0, 0xfffe, 0xc000, 0x0280]), "::fffe:c000:280");
    assert_eq!(ipv6_text([0, 0, 0, 0, 0, 0, 0xc000, 0x0280]), "::c000:280");
}

#[test]
fn ipv6_texts_are_those_of_parsed_headers() {
    let mut mask: u32 = 0;
    while mask < 256 {
        let mut groups = [0u16; 8];
        let mut i = 0;
        while i < 8 {
            if mask & (1 << i) != 0 {
                groups[i] = 0x1000 >> i;
            }
            i += 1;
        }
        let mut header = [0u8; 40];
        header[0] = 0x60;
        header[8..24].copy_from_slice(&ipv6(groups));
        let slice = etherparse::Ipv6HeaderSlice::from_slice(&header).unwrap();
        assert_eq!(ipv6_text(groups), slice.source_addr().to_string());
        mask += 1;
    }
}

#[test]
fn peer_addresses() {
    assert_eq!(socket_text(SocketAddr::V4 { ip: [203, 0, 113, 10], port: 9000 }), "203.0.113.10:9000");
    let ip = ipv6([0xfe80, 0, 0, 0, 0, 0, 0, 1]);
    assert_eq!(
        socket_text(SocketAddr::V6 { ip, port: 9000, flowinfo: 7, scope_id: 0 }),
        "[fe80::1]:9000"
    );
    assert_eq!(
        socket_text(SocketAddr::V6 { ip, port: 80, flowinfo: 0, scope_id: 12 }),
        "[fe80::1%12]:80"
    );
}

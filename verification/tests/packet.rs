use etherparse::PacketBuilder;
use ntz_proto::packet::{
    format_endpoints, format_headers, format_packet, format_transport, Headers, Net, Transport,
};

const V6_SOURCE: [u8; 16] = [0xfd, 0, 0, 0, 0, 0, 0, 0, 0, 0, 0, 0, 0, 0, 0, 1];
const V6_DESTINATION: [u8; 16] = [0x20, 1, 0xd, 0xb8, 0, 0, 0, 0, 0, 0, 0, 0, 0, 0, 0, 0x53];

fn udp_v4() -> Vec<u8> {
    let builder = PacketBuilder::ipv4([10, 0, 0, 2], [1, 1, 1, 1], 64).udp(40000, 53);
    let mut packet: Vec<u8> = Vec::new();
    builder.write(&mut packet, &[1, 2, 3]).unwrap();
    packet
}

#[test]
fn udp_packet() {
    assert_eq!(
        format_packet(&udp_v4()),
        "10.0.0.2 -> 1.1.1.1 17 (UDP - User Datagram) 40000:53 len=31"
    );
}

#[test]
fn tcp_packet_over_ipv6() {
    let builder = PacketBuilder::ipv6(V6_SOURCE, V6_DESTINATION, 64).tcp(50000, 443, 1, 1024);
    let mut packet: Vec<u8> = Vec::new();
    builder.write(&mut packet, &[]).unwrap();
    assert_eq!(
        format_packet(&packet),
        "fd00::1 -> 2001:db8::53 6 (TCP - Transmission Control) 50000:443 len=60"
    );
}

#[test]
fn icmp_packets() {
    let builder = PacketBuilder::ipv4([10, 0, 0, 2], [8, 8, 8, 8], 64).icmpv4_echo_request(1, 2);
    let mut packet: Vec<u8> = Vec::new();
    builder.write(&mut packet, &[]).unwrap();
    assert_eq!(
        format_packet(&packet),
        "10.0.0.2 -> 8.8.8.8 1 (ICMP - Internet Control Message) icmp len=28"
    );
    let builder = PacketBuilder::ipv6(V6_SOURCE, V6_DESTINATION, 64).icmpv6_echo_request(1, 2);
    let mut packet: Vec<u8> = Vec::new();
    builder.write(&mut packet, &[]).unwrap();
    assert_eq!(
        format_packet(&packet),
        "fd00::1 -> 2001:db8::53 58 (IPv6-ICMP - ICMP for IPv6) icmp6 len=48"
    );
}

#[test]
fn packet_without_transport_header() {
    let mut packet = udp_v4();
    packet[9] = 253;
    let line = format_packet(&packet);
    assert!(line.starts_with("10.0.0.2 -> 1.1.1.1 253"));
    assert!(line.ends_with(") len=31"));
}

#[test]
fn fragments_show_no_ports() {
    let mut packet = udp_v4();
    packet[6] = 0x20;
    assert_eq!(format_packet(&packet), "10.0.0.2 -> 1.1.1.1 17 (UDP - User Datagram) len=31");
    packet[6] = 0;
    packet[7] = 1;
    assert_eq!(format_packet(&packet), "10.0.0.2 -> 1.1.1.1 17 (UDP - User Datagram) len=31");
    packet[6] = 0x40;
    packet[7] = 0;
    assert_eq!(
        format_packet(&packet),
        "10.0.0.2 -> 1.1.1.1 17 (UDP - User Datagram) 40000:53 len=31"
    );
}

#[test]
fn ports_follow_the_options() {
    let udp = udp_v4();
    let mut packet: Vec<u8> = udp[..20].to_vec();
    packet[0] = 0x46;
    packet[3] += 4;
    packet.extend_from_slice(&[1, 1, 1, 1]);
    packet.extend_from_slice(&udp[20..]);
    assert_eq!(
        format_packet(&packet),
        "10.0.0.2 -> 1.1.1.1 17 (UDP - User Datagram) 40000:53 len=35"
    );
}

#[test]
fn unreadable_packets() {
    assert_eq!(format_packet(&[]), "? len=0");
    assert_eq!(format_packet(&[0; 20]), "? len=20");
    assert_eq!(format_packet(&udp_v4()[..27]), "? len=27");
    let mut packet = udp_v4();
    packet[0] = 0x44;
    assert_eq!(format_packet(&packet), "? len=31");
}

#[test]
fn transports() {
    assert_eq!(format_transport(&Some(Transport::UdpPorts(1, 65535))), "1:65535");
    assert_eq!(format_transport(&Some(Transport::TcpPorts(80, 0))), "80:0");
    assert_eq!(format_transport(&Some(Transport::IcmpMessage)), "icmp");
    assert_eq!(format_transport(&Some(Transport::Icmp6Message)), "icmp6");
    assert_eq!(format_transport(&Some(Transport::IgmpMessage)), "");
    assert_eq!(format_transport(&None), "");
}

#[test]
fn headers_without_ip() {
    assert_eq!(format_headers(&None, 7), "? len=7");
    assert_eq!(format_headers(&Some(Headers { net: None, transport: None }), 8), "? len=8");
    assert_eq!(
        format_headers(&Some(Headers { net: Some(Net::ArpPacket), transport: None }), 28),
        "ARP"
    );
}

#[test]
fn endpoints() {
    assert_eq!(format_endpoints("a", "b", "proto", "1:2", 10), "a -> b proto 1:2 len=10");
    assert_eq!(format_endpoints("a", "b", "proto", "", 0), "a -> b proto len=0");
}

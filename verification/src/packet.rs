//! One-line descriptions of IP packets.

use etherparse::NetSlice::{Arp, Ipv4, Ipv6};
use etherparse::TransportSlice::{Icmpv4, Icmpv6, Igmp, Tcp, Udp};
use etherparse::{IpNumber, SlicedPacket};
use vstd::prelude::*;
use vstd::string::*;

use crate::addr::{
    dotted, ipv6_text, law_ipv4_text_holds_the_octets, law_ipv6_text_characters, push_ipv4,
    push_ipv6,
};
use crate::text::{
    decimal, decimal_value, fields, is_decimal, is_word, law_decimal_reads_back,
    law_decimals_differ, law_field_without_separator, law_fields_after_separator,
    law_space_separates, law_word_is_itself, law_words_grow_together, push_decimal, words,
};

use self::Net::{ArpPacket, V4, V6};
use self::Transport::{Icmp6Message, IcmpMessage, IgmpMessage, TcpPorts, UdpPorts};

verus! {

/// What is shown of a network header: source, destination and the number of the next protocol.
#[derive(Clone, Copy, Debug, PartialEq, Eq)]
pub enum Net {
    V4([u8; 4], [u8; 4], u8),
    V6([u8; 16], [u8; 16], u8),
    ArpPacket,
}

/// What is shown of a transport header: source and destination port, where it has ports.
#[derive(Clone, Copy, Debug, PartialEq, Eq)]
pub enum Transport {
    UdpPorts(u16, u16),
    TcpPorts(u16, u16),
    IcmpMessage,
    Icmp6Message,
    IgmpMessage,
}

/// The headers of a packet, as far as they are shown.
#[derive(Clone, Copy, Debug, PartialEq, Eq)]
pub struct Headers {
    pub net: Option<Net>,
    pub transport: Option<Transport>,
}

/// What `etherparse::SlicedPacket::from_ip` finds in the bytes of a packet; `None` where it
/// reports an error.
pub uninterp spec fn sliced_from_ip(packet: Seq<u8>) -> Option<Headers>;

/// What `{:?}` writes for the `etherparse::IpNumber` of number `n`.
pub uninterp spec fn ip_number_text(n: u8) -> Seq<char>;

/// Whether the network header of `headers` is an IPv4 or IPv6 header with the addresses and the
/// protocol number that stand at the fixed places of the packet's first header.
pub open spec fn shows_ip_header(headers: Headers, packet: Seq<u8>) -> bool {
    match headers.net {
        Some(Net::V4(source, destination, protocol)) => {
            &&& packet.len() >= 20
            &&& packet[0] / 16 == 4
            &&& source@ == packet.subrange(12, 16)
            &&& destination@ == packet.subrange(16, 20)
            &&& protocol == packet[9]
        },
        Some(Net::V6(source, destination, next_header)) => {
            &&& packet.len() >= 40
            &&& packet[0] / 16 == 6
            &&& source@ == packet.subrange(8, 24)
            &&& destination@ == packet.subrange(24, 40)
            &&& next_header == packet[6]
        },
        _ => false,
    }
}

/// The port at position `i`, its first byte the more significant.
pub open spec fn port_at(packet: Seq<u8>, i: int) -> u16 {
    (packet[i] * 0x100 + packet[i + 1]) as u16
}

/// The transport header that stands at position `i` of a packet where the number of its protocol is
/// `number`.
pub open spec fn transport_at(packet: Seq<u8>, number: u8, i: int) -> Option<Transport> {
    if number == 17 {
        Some(Transport::UdpPorts(port_at(packet, i), port_at(packet, i + 2)))
    } else if number == 6 {
        Some(Transport::TcpPorts(port_at(packet, i), port_at(packet, i + 2)))
    } else if number == 1 {
        Some(Transport::IcmpMessage)
    } else if number == 58 {
        Some(Transport::Icmp6Message)
    } else if number == 2 {
        Some(Transport::IgmpMessage)
    } else {
        None
    }
}

/// Whether an IPv4 packet is a fragment: more of them follow, or it is not the first.
pub open spec fn is_fragment(packet: Seq<u8>) -> bool {
    (packet[6] * 0x100 + packet[7]) % 0x4000 != 0
}

/// The transport header of an IPv4 packet without authentication header: it follows the IP header,
/// and a fragment has none.
pub open spec fn ipv4_transport(packet: Seq<u8>) -> Option<Transport> {
    if is_fragment(packet) {
        None
    } else {
        transport_at(packet, packet[9], packet[0] % 16 * 4)
    }
}

/// Whether the transport header of an IPv6 packet follows the IP header at once.
pub open spec fn follows_ipv6_header(packet: Seq<u8>) -> bool {
    let number = packet[6];
    number == 17 || number == 6 || number == 1 || number == 58 || number == 2
}

/// Whether the transport header of `headers` is the one in the packet. Nothing is said of IPv4
/// packets with an authentication header and of IPv6 packets with extension headers.
pub open spec fn shows_transport(headers: Headers, packet: Seq<u8>) -> bool {
    match headers.net {
        Some(Net::V4(_, _, protocol)) => protocol != 51 ==> headers.transport == ipv4_transport(
            packet,
        ),
        Some(Net::V6(_, _, _)) => follows_ipv6_header(packet) ==> headers.transport
            == transport_at(packet, packet[6], 40),
        _ => true,
    }
}

/// `etherparse::SlicedPacket::from_ip`: a function of the packet's bytes alone. A packet that it
/// accepts begins with an IPv4 or an IPv6 header, whose version, addresses and protocol number
/// are those of the packet's first bytes, and the transport header is the one that follows. Which
/// packets it accepts, and how it gets past authentication and extension headers, is left to the
/// name.
#[verifier::external_body]
fn slice_ip(packet: &[u8]) -> (headers: Option<Headers>)
    ensures
        headers == sliced_from_ip(packet@),
        headers matches Some(h) ==> shows_ip_header(h, packet@) && shows_transport(h, packet@),
{
    SlicedPacket::from_ip(packet).ok().map(|s| Headers {
        net: s.net.map(|n| match n {
            Ipv4(p) => V4(p.header().source(), p.header().destination(), p.header().protocol().0),
            Ipv6(p) => V6(p.header().source(), p.header().destination(), p.header().next_header().0),
            Arp(_) => ArpPacket
        }),
        transport: s.transport.map(|t| match t {
            Udp(u) => UdpPorts(u.source_port(), u.destination_port()),
            Tcp(t) => TcpPorts(t.source_port(), t.destination_port()),
            Icmpv4(_) => IcmpMessage,
            Icmpv6(_) => Icmp6Message,
            Igmp(_) => IgmpMessage
        })
    })
}

/// The `Debug` text of `etherparse::IpNumber`: a function of the number alone.
#[verifier::external_body]
fn ip_number(n: u8) -> (out: String)
    ensures
        out@ == ip_number_text(n),
{
    format!("{:?}", IpNumber(n))
}

/// A source and a destination port, with a colon between them.
pub open spec fn ports_text(source: u16, destination: u16) -> Seq<char> {
    decimal(source as nat) + seq![':'] + decimal(destination as nat)
}

/// The ports of a transport header, or the name of a protocol without ports; empty for the rest.
pub open spec fn transport_text(transport: Option<Transport>) -> Seq<char> {
    match transport {
        Some(Transport::UdpPorts(source, destination)) => ports_text(source, destination),
        Some(Transport::TcpPorts(source, destination)) => ports_text(source, destination),
        Some(Transport::IcmpMessage) => "icmp"@,
        Some(Transport::Icmp6Message) => "icmp6"@,
        Some(Transport::IgmpMessage) => Seq::empty(),
        None => Seq::empty(),
    }
}

/// `len=` and the length of a packet.
pub open spec fn len_text(len: nat) -> Seq<char> {
    "len="@ + decimal(len)
}

/// The line for a packet of which nothing but its length is known.
pub open spec fn unknown_text(len: nat) -> Seq<char> {
    "? "@ + len_text(len)
}

/// The line for a packet between two addresses; `ports` is left out where it is empty.
pub open spec fn endpoints_text(
    source: Seq<char>,
    destination: Seq<char>,
    protocol: Seq<char>,
    ports: Seq<char>,
    len: nat,
) -> Seq<char> {
    source + " -> "@ + destination + " "@ + protocol + " "@ + (if ports.len() == 0 {
        Seq::empty()
    } else {
        ports + " "@
    }) + len_text(len)
}

/// The line for a packet of `len` bytes with the given headers.
pub open spec fn headers_text(headers: Option<Headers>, len: nat) -> Seq<char> {
    match headers {
        None => unknown_text(len),
        Some(Headers { net: None, transport: _ }) => unknown_text(len),
        Some(Headers { net: Some(Net::ArpPacket), transport: _ }) => "ARP"@,
        Some(
            Headers { net: Some(Net::V4(source, destination, protocol)), transport },
        ) => endpoints_text(
            dotted(source@),
            dotted(destination@),
            ip_number_text(protocol),
            transport_text(transport),
            len,
        ),
        Some(
            Headers { net: Some(Net::V6(source, destination, next_header)), transport },
        ) => endpoints_text(
            ipv6_text(source@),
            ipv6_text(destination@),
            ip_number_text(next_header),
            transport_text(transport),
            len,
        ),
    }
}

/// The ports of a transport header, or the name of a protocol without ports; empty for the rest.
pub fn format_transport(transport: &Option<Transport>) -> (out: String)
    ensures
        out@ == transport_text(*transport),
{
    match transport {
        Some(Transport::UdpPorts(source, destination)) => format_ports(*source, *destination),
        Some(Transport::TcpPorts(source, destination)) => format_ports(*source, *destination),
        Some(Transport::IcmpMessage) => "icmp".to_owned(),
        Some(Transport::Icmp6Message) => "icmp6".to_owned(),
        _ => String::new(),
    }
}

fn format_ports(source: u16, destination: u16) -> (out: String)
    ensures
        out@ == ports_text(source, destination),
{
    let mut out = String::new();
    push_decimal(&mut out, source as u128);
    out.push(':');
    push_decimal(&mut out, destination as u128);
    assert(out@ =~= ports_text(source, destination));
    out
}

/// The line for a packet between two addresses.
pub fn format_endpoints(
    source: &str,
    destination: &str,
    protocol: &str,
    ports: &str,
    len: usize,
) -> (out: String)
    ensures
        out@ == endpoints_text(source@, destination@, protocol@, ports@, len as nat),
{
    let mut out = String::new();
    out.append(source);
    out.append(" -> ");
    out.append(destination);
    out.append(" ");
    out.append(protocol);
    out.append(" ");
    if !ports.is_empty() {
        out.append(ports);
        out.append(" ");
    }
    out.append("len=");
    push_decimal(&mut out, len as u128);
    assert(out@ =~= endpoints_text(source@, destination@, protocol@, ports@, len as nat));
    out
}

/// The line for a packet of which nothing but its length is known.
fn format_unknown(len: usize) -> (out: String)
    ensures
        out@ == unknown_text(len as nat),
{
    let mut out = String::new();
    out.append("? ");
    out.append("len=");
    push_decimal(&mut out, len as u128);
    assert(out@ =~= unknown_text(len as nat));
    out
}

/// The line for a packet of `len` bytes with the given headers.
pub fn format_headers(headers: &Option<Headers>, len: usize) -> (out: String)
    ensures
        out@ == headers_text(*headers, len as nat),
{
    let headers = match headers {
        Some(h) => h,
        None => {
            return format_unknown(len);
        },
    };
    let ports = format_transport(&headers.transport);
    let mut source = String::new();
    let mut destination = String::new();
    let protocol: String;
    match &headers.net {
        Some(Net::V4(s, d, p)) => {
            push_ipv4(&mut source, s);
            push_ipv4(&mut destination, d);
            protocol = ip_number(*p);
            assert(source@ =~= dotted(s@) && destination@ =~= dotted(d@));
        },
        Some(Net::V6(s, d, p)) => {
            push_ipv6(&mut source, s);
            push_ipv6(&mut destination, d);
            protocol = ip_number(*p);
            assert(source@ =~= ipv6_text(s@) && destination@ =~= ipv6_text(d@));
        },
        Some(Net::ArpPacket) => {
            return "ARP".to_owned();
        },
        None => {
            return format_unknown(len);
        },
    }
    format_endpoints(source.as_str(), destination.as_str(), protocol.as_str(), ports.as_str(), len)
}

/// Whether a line begins with the addresses that stand in the IP header of the packet.
pub open spec fn begins_with_addresses(line: Seq<char>, packet: Seq<u8>) -> bool {
    if packet[0] / 16 == 4 {
        &&& packet.len() >= 20
        &&& (dotted(packet.subrange(12, 16)) + " -> "@ + dotted(packet.subrange(16, 20))
            + " "@).is_prefix_of(line)
    } else {
        &&& packet.len() >= 40
        &&& packet[0] / 16 == 6
        &&& (ipv6_text(packet.subrange(8, 24)) + " -> "@ + ipv6_text(packet.subrange(24, 40))
            + " "@).is_prefix_of(line)
    }
}

/// The line for an IPv4 packet without authentication header.
pub open spec fn ipv4_line(packet: Seq<u8>) -> Seq<char> {
    endpoints_text(
        dotted(packet.subrange(12, 16)),
        dotted(packet.subrange(16, 20)),
        ip_number_text(packet[9]),
        transport_text(ipv4_transport(packet)),
        packet.len(),
    )
}

/// The line for an IPv6 packet whose transport header follows the IP header at once.
pub open spec fn ipv6_line(packet: Seq<u8>) -> Seq<char> {
    endpoints_text(
        ipv6_text(packet.subrange(8, 24)),
        ipv6_text(packet.subrange(24, 40)),
        ip_number_text(packet[6]),
        transport_text(transport_at(packet, packet[6], 40)),
        packet.len(),
    )
}

/// Whether a word is `len=` and the numeral of a length.
pub open spec fn is_length_word(word: Seq<char>, len: nat) -> bool {
    let parts = fields(word, '=');
    &&& parts.len() == 2
    &&& parts[0] == "len"@
    &&& is_decimal(parts[1])
    &&& decimal_value(parts[1]) == len
}

/// Whether the last word of a line tells the length of the packet.
pub open spec fn shows_length(line: Seq<char>, len: nat) -> bool {
    words(line).len() > 0 && is_length_word(words(line).last(), len)
}

/// Whether a word is made of the numerals of two ports with a colon between them, the source before
/// the destination.
pub open spec fn is_ports_word(word: Seq<char>, source: int, destination: int) -> bool {
    let parts = fields(word, ':');
    &&& parts.len() == 2
    &&& is_decimal(parts[0])
    &&& decimal_value(parts[0]) == source
    &&& is_decimal(parts[1])
    &&& decimal_value(parts[1]) == destination
}

/// Whether the word before the length of a line shows the ports whose bytes begin at position `i` of
/// the packet: two bytes for the source, then two for the destination, the more significant one first.
pub open spec fn shows_ports(line: Seq<char>, packet: Seq<u8>, i: int) -> bool {
    let w = words(line);
    w.len() >= 2 && is_ports_word(
        w[w.len() - 2],
        packet[i] * 0x100 + packet[i + 1],
        packet[i + 2] * 0x100 + packet[i + 3],
    )
}

/// The line for a packet: its addresses, protocol, ports and length where its headers can be read,
/// and its length alone where they cannot.
pub fn format_packet(packet: &[u8]) -> (out: String)
    ensures
        out@ == headers_text(sliced_from_ip(packet@), packet@.len()),
        sliced_from_ip(packet@) is None ==> out@ == unknown_text(packet@.len()),
        sliced_from_ip(packet@) is Some ==> begins_with_addresses(out@, packet@),
        sliced_from_ip(packet@) is Some && packet@[0] / 16 == 4 && packet@[9] != 51 ==> out@
            == ipv4_line(packet@),
        sliced_from_ip(packet@) is Some && packet@[0] / 16 == 6 && follows_ipv6_header(packet@)
            ==> out@ == ipv6_line(packet@),
        len_text(packet@.len()).is_suffix_of(out@),
        shows_length(out@, packet@.len()),
        sliced_from_ip(packet@) is Some && packet@[0] / 16 == 4 && (packet@[9] == 6 || packet@[9]
            == 17) && (packet@[6] * 0x100 + packet@[7]) % 0x4000 == 0 ==> shows_ports(
            out@,
            packet@,
            packet@[0] % 16 * 4,
        ),
        sliced_from_ip(packet@) is Some && packet@[0] / 16 == 6 && (packet@[6] == 6 || packet@[6]
            == 17) ==> shows_ports(out@, packet@, 40),
{
    let headers = slice_ip(packet);
    proof {
        law_line_ends_with_length(headers, packet@.len());
        law_line_shows_the_headers(headers, packet@.len());
        law_ports_are_those_of_the_bytes(packet@, packet@[9], packet@[0] % 16 * 4);
        law_ports_are_those_of_the_bytes(packet@, packet@[6], 40);
    }
    format_headers(&headers, packet.len())
}

/// Every line but the one for an ARP packet ends with the length of the packet.
pub proof fn law_line_ends_with_length(headers: Option<Headers>, len: nat)
    requires
        headers matches Some(h) ==> h.net != Some(Net::ArpPacket),
    ensures
        len_text(len).is_suffix_of(headers_text(headers, len)),
{
    let line = headers_text(headers, len);
    assert(line.skip(line.len() - len_text(len).len()) =~= len_text(len));
}

/// A transport header with ports is shown as one word with both ports, the source before the
/// destination, whatever the two are.
pub proof fn law_ports_are_shown_source_first(source: u16, destination: u16)
    ensures
        is_ports_word(
            transport_text(Some(Transport::UdpPorts(source, destination))),
            source as int,
            destination as int,
        ),
        is_ports_word(
            transport_text(Some(Transport::TcpPorts(source, destination))),
            source as int,
            destination as int,
        ),
        is_word(transport_text(Some(Transport::UdpPorts(source, destination)))),
        is_word(transport_text(Some(Transport::TcpPorts(source, destination)))),
{
    let s = decimal(source as nat);
    let d = decimal(destination as nat);
    law_decimal_reads_back(source as nat);
    law_decimal_reads_back(destination as nat);
    law_decimals_differ(source as nat, 0);
    law_decimals_differ(destination as nat, 0);
    law_field_without_separator(s, ':');
    law_fields_after_separator(s, ':', d);
    assert(fields(s + seq![':'] + d, ':') =~= seq![s, d]);
    law_words_grow_together(s, seq![':']);
    law_words_grow_together(s + seq![':'], d);
}

/// Two pairs of ports that differ are shown differently, over either protocol.
pub proof fn law_port_fields_differ(a: u16, b: u16, c: u16, d: u16)
    ensures
        transport_text(Some(Transport::TcpPorts(a, b))) == transport_text(
            Some(Transport::TcpPorts(c, d)),
        ) ==> a == c && b == d,
        transport_text(Some(Transport::UdpPorts(a, b))) == transport_text(
            Some(Transport::UdpPorts(c, d)),
        ) ==> a == c && b == d,
{
    law_ports_are_shown_source_first(a, b);
    law_ports_are_shown_source_first(c, d);
}

/// The ports that are shown of a TCP or UDP header are the numbers in its first four bytes, the source
/// in the first two.
pub proof fn law_ports_are_those_of_the_bytes(packet: Seq<u8>, number: u8, i: int)
    ensures
        number == 6 || number == 17 ==> is_word(transport_text(transport_at(packet, number, i)))
            && is_ports_word(
            transport_text(transport_at(packet, number, i)),
            packet[i] * 0x100 + packet[i + 1],
            packet[i + 2] * 0x100 + packet[i + 3],
        ),
{
    law_ports_are_shown_source_first(port_at(packet, i), port_at(packet, i + 2));
}

/// What is shown of the header behind an IP header without ports depends on the number of the protocol
/// alone, and nothing is shown of a protocol that is not known or of a fragment: one that more
/// fragments follow, or that is not the first.
pub proof fn law_other_headers_are_shown_by_number(packet: Seq<u8>, number: u8, i: int)
    ensures
        number == 1 ==> transport_text(transport_at(packet, number, i)) == "icmp"@,
        number == 58 ==> transport_text(transport_at(packet, number, i)) == "icmp6"@,
        number != 1 && number != 6 && number != 17 && number != 58 ==> transport_text(
            transport_at(packet, number, i),
        ).len() == 0,
        transport_at(packet, number, i) is Some <==> (number == 1 || number == 2 || number == 6
            || number == 17 || number == 58),
        packet[6] / 0x20 % 2 == 1 || packet[6] % 0x20 != 0 || packet[7] != 0 <==> is_fragment(packet),
        is_fragment(packet) ==> transport_text(ipv4_transport(packet)).len() == 0,
        !is_fragment(packet) ==> ipv4_transport(packet) == transport_at(
            packet,
            packet[9],
            packet[0] % 16 * 4,
        ),
{
    let high = packet[6] % 0x40;
    assert((packet[6] * 0x100 + packet[7]) % 0x4000 == high * 0x100 + packet[7]);
}

/// Messages without ports are shown by a name of their own or not at all.
pub proof fn law_messages_are_named()
    ensures
        transport_text(Some(Transport::IcmpMessage)) == "icmp"@,
        transport_text(Some(Transport::Icmp6Message)) == "icmp6"@,
        transport_text(Some(Transport::IgmpMessage)).len() == 0,
        transport_text(None).len() == 0,
        words("icmp"@) == seq!["icmp"@],
        words("icmp6"@) == seq!["icmp6"@],
{
    reveal_strlit("icmp");
    reveal_strlit("icmp6");
    assert("icmp"@ =~= seq!['i', 'c', 'm', 'p']);
    assert("icmp6"@ =~= seq!['i', 'c', 'm', 'p', '6']);
    law_word_is_itself("icmp"@);
    law_word_is_itself("icmp6"@);
}

/// The text of a length is one word, and reads back as that length.
pub proof fn law_length_reads_back(len: nat)
    ensures
        is_word(len_text(len)),
        is_length_word(len_text(len), len),
{
    reveal_strlit("len=");
    reveal_strlit("len");
    assert("len="@ =~= seq!['l', 'e', 'n', '=']);
    assert("len"@ =~= seq!['l', 'e', 'n']);
    let n = decimal(len);
    law_decimal_reads_back(len);
    law_decimals_differ(len, 0);
    law_words_grow_together("len="@, n);
    law_field_without_separator("len"@, '=');
    law_fields_after_separator("len"@, '=', n);
    assert("len"@ + seq!['='] + n =~= len_text(len));
    assert(fields(len_text(len), '=') =~= seq!["len"@, n]);
}

/// The words of a line are those of the source, an arrow, those of the destination, the protocol and
/// the ports, and the length, in this order, whatever these are; and the spaces between them are
/// single.
pub proof fn law_line_holds_its_parts_in_order(
    source: Seq<char>,
    destination: Seq<char>,
    protocol: Seq<char>,
    ports: Seq<char>,
    len: nat,
)
    ensures
        words(endpoints_text(source, destination, protocol, ports, len)) == words(source) + seq![
            "->"@,
        ] + words(destination) + words(protocol) + words(ports) + seq![len_text(len)],
        endpoints_text(source, destination, protocol, ports, len).len() == source.len()
            + destination.len() + protocol.len() + ports.len() + len_text(len).len() + (if ports.len()
            == 0 {
            6int
        } else {
            7int
        }),
        source.is_prefix_of(endpoints_text(source, destination, protocol, ports, len)),
{
    let line = endpoints_text(source, destination, protocol, ports, len);
    let end = len_text(len);
    reveal_strlit(" -> ");
    reveal_strlit("->");
    reveal_strlit(" ");
    assert(" "@ =~= seq![' ']);
    assert("->"@ =~= seq!['-', '>']);
    let with_arrow = source + seq![' '] + "->"@;
    assert(source + " -> "@ + destination =~= with_arrow + seq![' '] + destination);
    law_word_is_itself("->"@);
    law_space_separates(source, "->"@);
    law_space_separates(with_arrow, destination);
    let addresses = with_arrow + seq![' '] + destination;
    law_space_separates(addresses, protocol);
    let with_protocol = addresses + seq![' '] + protocol;
    law_length_reads_back(len);
    law_word_is_itself(end);
    law_word_is_itself(ports);
    if ports.len() == 0 {
        law_space_separates(with_protocol, end);
        assert(line =~= with_protocol + seq![' '] + end);
        assert(words(line) =~= words(source) + seq!["->"@] + words(destination) + words(protocol)
            + words(ports) + seq![end]);
    } else {
        law_space_separates(with_protocol, ports);
        law_space_separates(with_protocol + seq![' '] + ports, end);
        assert(line =~= with_protocol + seq![' '] + ports + seq![' '] + end);
        assert(words(line) =~= words(source) + seq!["->"@] + words(destination) + words(protocol)
            + words(ports) + seq![end]);
    }
    assert(line.take(source.len() as int) =~= source);
}

/// The line for a packet shows its headers: the texts of the source and the destination address as
/// the first and third word, then the protocol, the transport header and the length. Where no network
/// header is known, only the length is shown.
pub proof fn law_line_shows_the_headers(headers: Option<Headers>, len: nat)
    ensures
        headers matches Some(h) ==> match h.net {
            Some(Net::V4(source, destination, protocol)) => words(headers_text(headers, len))
                == seq![dotted(source@), "->"@, dotted(destination@)] + words(
                ip_number_text(protocol),
            ) + words(transport_text(h.transport)) + seq![len_text(len)],
            Some(Net::V6(source, destination, protocol)) => words(headers_text(headers, len))
                == seq![ipv6_text(source@), "->"@, ipv6_text(destination@)] + words(
                ip_number_text(protocol),
            ) + words(transport_text(h.transport)) + seq![len_text(len)],
            Some(Net::ArpPacket) => headers_text(headers, len) == "ARP"@,
            None => words(headers_text(headers, len)) == seq!["?"@, len_text(len)],
        },
        headers is None ==> words(headers_text(headers, len)) == seq!["?"@, len_text(len)],
        !(headers matches Some(h) && h.net == Some(Net::ArpPacket)) ==> shows_length(
            headers_text(headers, len),
            len,
        ),
        headers matches Some(h) ==> (h.net is Some && h.net != Some(Net::ArpPacket) && is_word(
            transport_text(h.transport),
        ) ==> {
            let w = words(headers_text(headers, len));
            w.len() >= 2 && w[w.len() - 2] == transport_text(h.transport)
        }),
{
    let end = len_text(len);
    law_length_reads_back(len);
    law_word_is_itself(end);
    reveal_strlit("? ");
    reveal_strlit("?");
    assert("? "@ =~= seq!['?', ' ']);
    assert("?"@ =~= seq!['?']);
    law_word_is_itself("?"@);
    law_space_separates("?"@, end);
    assert("?"@ + seq![' '] + end =~= unknown_text(len));
    assert(words(unknown_text(len)) =~= seq!["?"@, end]);
    let line = headers_text(headers, len);
    if let Some(h) = headers {
        let ports = transport_text(h.transport);
        law_word_is_itself(ports);
        match h.net {
            Some(Net::V4(source, destination, protocol)) => {
                let s = dotted(source@);
                let d = dotted(destination@);
                law_ipv4_text_holds_the_octets(source@);
                law_ipv4_text_holds_the_octets(destination@);
                law_word_is_itself(s);
                law_word_is_itself(d);
                law_line_holds_its_parts_in_order(s, d, ip_number_text(protocol), ports, len);
                assert(words(line) =~= seq![s, "->"@, d] + words(ip_number_text(protocol)) + words(
                    ports,
                ) + seq![end]);
            },
            Some(Net::V6(source, destination, protocol)) => {
                let s = ipv6_text(source@);
                let d = ipv6_text(destination@);
                law_ipv6_text_characters(source@);
                law_ipv6_text_characters(destination@);
                law_word_is_itself(s);
                law_word_is_itself(d);
                law_line_holds_its_parts_in_order(s, d, ip_number_text(protocol), ports, len);
                assert(words(line) =~= seq![s, "->"@, d] + words(ip_number_text(protocol)) + words(
                    ports,
                ) + seq![end]);
            },
            _ => {},
        }
    }
}

} // verus!

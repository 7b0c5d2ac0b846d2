use ntz_proto::addr::SocketAddr;
use ntz_proto::client::{on_client_event, udp_line, ClientAction, ClientArgs, ClientEvent};
use ntz_proto::clock::millis;
use ntz_proto::relay::{hop_line, log_line, Hop, ReadError};
use ntz_proto::server::{listen_line, nat_line, Server, ServerAction, ServerEvent};
use ntz_proto::tun::{create_tun_failure, tun_line};
use ntz_proto::{ts_ms, TunParams};

const FIRST: SocketAddr = SocketAddr::V4 { ip: [198, 51, 100, 7], port: 40001 };
const SECOND: SocketAddr = SocketAddr::V4 { ip: [198, 51, 100, 8], port: 40002 };

fn tun() -> TunParams {
    TunParams {
        name: "ntz0".to_string(),
        address_v4: "10.0.0.2".to_string(),
        prefix_v4: 24,
        mtu: Some(1400),
    }
}

#[test]
fn hops_are_recorded() {
    assert_eq!(hop_line(5, &Hop::ClientOut, "p"), "5 CLIENT TUN->SRV p");
    assert_eq!(hop_line(5, &Hop::ClientIn, "p"), "5 CLIENT SRV->TUN p");
    assert_eq!(hop_line(5, &Hop::ServerFromNet, "p"), "5 SERVER NET->SRV p");
    assert_eq!(
        hop_line(5, &Hop::ServerToClient(FIRST), "p"),
        "5 SERVER SRV->CLI p to=198.51.100.7:40001"
    );
    assert_eq!(
        hop_line(5, &Hop::ServerFromClient(SECOND), "p"),
        "5 SERVER CLI->SRV p from=198.51.100.8:40002"
    );
    assert_eq!(hop_line(1731628800123, &Hop::ServerToNet, "p"), "1731628800123 SERVER SRV->NET p");
}

#[test]
fn packets_are_described_in_the_record() {
    assert_eq!(log_line(12, &Hop::ClientOut, &[1, 2, 3]), "12 CLIENT TUN->SRV ? len=3");
}

#[test]
fn the_client_passes_packets_on() {
    assert_eq!(
        on_client_event(ClientEvent::FromTun(&[1, 2])),
        ClientAction::SendToServer(&[1, 2], Hop::ClientOut)
    );
    assert_eq!(
        on_client_event(ClientEvent::FromServer(&[3])),
        ClientAction::WriteToTun(&[3], Hop::ClientIn)
    );
}

#[test]
fn the_client_waits_or_stops() {
    assert_eq!(on_client_event(ClientEvent::UdpError(ReadError::WouldBlock)), ClientAction::Wait);
    assert_eq!(on_client_event(ClientEvent::UdpError(ReadError::TimedOut)), ClientAction::Wait);
    assert_eq!(on_client_event(ClientEvent::UdpError(ReadError::Other)), ClientAction::Stop);
    assert_eq!(on_client_event(ClientEvent::TunError), ClientAction::Stop);
}

#[test]
fn packets_without_client_are_dropped() {
    let mut server = Server::new();
    assert_eq!(server.on_event(ServerEvent::FromTun(&[1])), ServerAction::Wait);
    assert_eq!(server.on_event(ServerEvent::UdpError(ReadError::TimedOut)), ServerAction::Wait);
    assert_eq!(server.on_event(ServerEvent::FromTun(&[1])), ServerAction::Wait);
    assert_eq!(server.client, None);
}

#[test]
fn packets_go_to_the_last_client() {
    let mut server = Server::new();
    assert_eq!(
        server.on_event(ServerEvent::FromClient(FIRST, &[7, 8])),
        ServerAction::WriteToTun {
            packet: &[7, 8],
            arrives: Hop::ServerFromClient(FIRST),
            leaves: Hop::ServerToNet,
        }
    );
    server.on_event(ServerEvent::FromClient(SECOND, &[]));
    server.on_event(ServerEvent::UdpError(ReadError::WouldBlock));
    assert_eq!(
        server.on_event(ServerEvent::FromTun(&[9])),
        ServerAction::SendToClient {
            to: SECOND,
            packet: &[9],
            arrives: Hop::ServerFromNet,
            leaves: Hop::ServerToClient(SECOND),
        }
    );
    assert_eq!(server.client, Some(SECOND));
}

#[test]
fn the_server_stops_on_errors() {
    let mut server = Server::new();
    assert_eq!(server.on_event(ServerEvent::TunError), ServerAction::Stop);
    assert_eq!(server.on_event(ServerEvent::UdpError(ReadError::Other)), ServerAction::Stop);
}

#[test]
fn lines_at_the_start() {
    let args = ClientArgs { server: SECOND, tun: tun(), verbose: false };
    assert_eq!(tun_line(&args.tun), "  TUN: ntz0 10.0.0.2/24");
    assert_eq!(
        udp_line(&FIRST, &args.server),
        "  UDP: 198.51.100.7:40001 -> 198.51.100.8:40002"
    );
    assert_eq!(listen_line(&FIRST), "  UDP listen: 198.51.100.7:40001");
    assert_eq!(nat_line(true), "  NAT/forwarding: configured automatically (--setup-nat)");
    assert_eq!(
        nat_line(false),
        "  NAT/forwarding: not configured (run with --setup-nat --nat-iface <WAN>)"
    );
}

#[test]
fn tun_failures() {
    assert_eq!(
        create_tun_failure("denied", false),
        "Failed to create TUN device: denied. On Linux: run as root or ensure CAP_NET_ADMIN and that the `tun` kernel module is loaded (modprobe tun)."
    );
    assert_eq!(
        create_tun_failure("denied", true),
        "Failed to create TUN device: denied. On Windows: run as Administrator and ensure the Wintun driver is installed (https://www.wintun.net/)."
    );
}

#[test]
fn milliseconds() {
    assert_eq!(millis(None), 0);
    assert_eq!(millis(Some((0, 999_999))), 0);
    assert_eq!(millis(Some((1731628800, 123_999_999))), 1731628800123);
    assert_eq!(millis(Some((u64::MAX, 999_999_999))), u64::MAX as u128 * 1000 + 999);
}

#[test]
fn the_clock_stands_after_the_epoch() {
    let before = std::time::SystemTime::now()
        .duration_since(std::time::UNIX_EPOCH)
        .unwrap()
        .as_millis();
    let now = ts_ms();
    let after = std::time::SystemTime::now()
        .duration_since(std::time::UNIX_EPOCH)
        .unwrap()
        .as_millis();
    assert!(before > 0 && before <= now && now <= after);
}

#[test]
fn datagrams_are_written_in_order() {
    let mut server = Server::new();
    let packets: [&[u8]; 3] = [&[1], &[2, 2], &[]];
    let mut written: Vec<Vec<u8>> = Vec::new();
    for packet in packets {
        match server.on_event(ServerEvent::FromClient(FIRST, packet)) {
            ServerAction::WriteToTun { packet, .. } => written.push(packet.to_vec()),
            _ => panic!("not written"),
        }
    }
    assert_eq!(written, vec![vec![1u8], vec![2, 2], vec![]]);
}

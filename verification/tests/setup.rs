use ntz_proto::addr::SocketAddr;
use ntz_proto::command::{command, echo_line, failure_message, Error};
use ntz_proto::linux_routes;
use ntz_proto::linux_routes::{linux_route_get, parse_route};
use ntz_proto::server::{
    ensure_iptables_nat_rule, ensure_iptables_rule, network_cidr, prepare_nat, setup_nat, ServerArgs,
};
use ntz_proto::setup::{Reply, Setup, Step};
use ntz_proto::windows_routes;
use ntz_proto::windows_routes::{derive_gateway_v4, interface_index, powershell_capture};
use ntz_proto::TunParams;

const SERVER: SocketAddr = SocketAddr::V4 { ip: [203, 0, 113, 10], port: 9000 };
const SERVER_V6: SocketAddr =
    SocketAddr::V6 { ip: [0, 0, 0, 0, 0, 0, 0, 0, 0, 0, 0, 0, 0, 0, 0, 1], port: 9000, flowinfo: 0, scope_id: 0 };

fn tun(name: &str, address: &str, prefix: u8) -> TunParams {
    TunParams {
        name: name.to_string(),
        address_v4: address.to_string(),
        prefix_v4: prefix,
        mtu: None,
    }
}

fn exited(success: bool, stdout: &str) -> Reply {
    Reply::Exited { success, stdout: stdout.as_bytes().to_vec() }
}

fn ok() -> Reply {
    exited(true, "")
}

fn failed() -> Reply {
    exited(false, "")
}

/// The lines of the commands that a setup runs, and how it ends.
fn play(mut setup: Setup, replies: Vec<Reply>) -> (Vec<String>, Result<(), Error>) {
    let mut lines: Vec<String> = Vec::new();
    for reply in replies {
        let action = setup.next_action().unwrap();
        lines.push(format!("{} {}", action.command.program, action.command.args.join(" ")));
        if let Err(e) = setup.reply(&reply) {
            assert!(setup.next_action().is_none());
            return (lines, Err(e));
        }
    }
    assert!(setup.next_action().is_none());
    (lines, Ok(()))
}

fn linux() -> Setup {
    linux_routes::setup_routes(&tun("ntz0", "10.0.0.2", 24), &SERVER, false)
}

fn windows(name: &str) -> Setup {
    windows_routes::setup_routes(&tun(name, "10.0.0.2", 24), &SERVER, false)
}

#[test]
fn command_lines() {
    let c = command("ip", vec!["link", "set"]);
    assert_eq!(failure_message(&c), "Command failed: ip link set");
    assert_eq!(echo_line(&c), "[client] exec: ip link set");
    assert_eq!(failure_message(&command("ip", vec![])), "Command failed: ip ");
}

#[test]
fn the_server_is_pinned_through_its_gateway() {
    let output = "203.0.113.10 via 192.168.1.1 dev eth0 src 192.168.1.10 uid 1000\n";
    let (lines, end) = play(linux(), vec![ok(), exited(true, output), ok(), ok(), ok()]);
    assert_eq!(
        lines,
        vec![
            "ip link set dev ntz0 up",
            "ip route get 203.0.113.10",
            "ip route replace 203.0.113.10/32 via 192.168.1.1 dev eth0",
            "ip route replace 0.0.0.0/1 dev ntz0",
            "ip route replace 128.0.0.0/1 dev ntz0",
        ]
    );
    assert_eq!(end, Ok(()));
}

#[test]
fn the_server_is_pinned_without_gateway() {
    let (lines, end) =
        play(linux(), vec![ok(), exited(true, "203.0.113.10 dev eth0 \n"), ok(), ok(), ok()]);
    assert_eq!(lines[2], "ip route replace 203.0.113.10/32 dev eth0");
    assert_eq!(lines.len(), 5);
    assert_eq!(end, Ok(()));
}

#[test]
fn nothing_is_pinned_without_route() {
    let (lines, end) = play(linux(), vec![ok(), failed(), ok(), ok()]);
    assert_eq!(
        lines,
        vec![
            "ip link set dev ntz0 up",
            "ip route get 203.0.113.10",
            "ip route replace 0.0.0.0/1 dev ntz0",
            "ip route replace 128.0.0.0/1 dev ntz0",
        ]
    );
    assert_eq!(end, Ok(()));
    let (lines, _) = play(linux(), vec![ok(), exited(true, "unreachable"), ok(), ok()]);
    assert_eq!(lines.len(), 4);
}

#[test]
fn an_error_ends_the_setup() {
    let (lines, end) = play(linux(), vec![failed(), ok()]);
    assert_eq!(lines, vec!["ip link set dev ntz0 up"]);
    assert_eq!(end, Err(Error::Other("Command failed: ip link set dev ntz0 up".to_string())));
    let (lines, end) = play(linux(), vec![ok(), Reply::IoError]);
    assert_eq!(lines.len(), 2);
    assert_eq!(end, Err(Error::Io));
}

#[test]
fn nothing_is_set_up_for_an_ipv6_server() {
    let setup = linux_routes::setup_routes(&tun("ntz0", "10.0.0.2", 24), &SERVER_V6, true);
    assert!(setup.next_action().is_none());
    let setup = windows_routes::setup_routes(&tun("ntz0", "10.0.0.2", 24), &SERVER_V6, true);
    assert!(setup.next_action().is_none());
}

#[test]
fn commands_are_echoed_on_demand() {
    let mut setup = linux_routes::setup_routes_v4(&tun("ntz0", "10.0.0.2", 24), "192.0.2.1", true);
    let action = setup.next_action().unwrap();
    assert_eq!(action.echo, Some("[client] exec: ip link set dev ntz0 up".to_string()));
    assert!(!action.captures);
    setup.reply(&ok()).unwrap();
    let action = setup.next_action().unwrap();
    assert_eq!(action.echo, Some("[client] exec: ip route get 192.0.2.1".to_string()));
    assert!(action.captures);
    assert_eq!(linux().next_action().unwrap().echo, None);
    let setup = windows_routes::setup_routes_v4(&tun("a'b", "10.0.0.2", 24), "192.0.2.1", true);
    assert_eq!(
        setup.next_action().unwrap().echo,
        Some(
            "[client] exec: powershell -Command (Get-NetAdapter -Name 'a''b').ifIndex".to_string()
        )
    );
}

#[test]
fn routes_are_read() {
    let full = parse_route("1.1.1.1 via 192.168.1.1 dev eth0 src 192.168.1.10 uid 1000\n");
    assert_eq!(full, Some(("eth0".to_string(), Some("192.168.1.1".to_string()))));
    assert_eq!(parse_route("10.1.2.3 dev wg0"), Some(("wg0".to_string(), None)));
    assert_eq!(parse_route("1.1.1.1 via 192.168.1.1"), None);
    assert_eq!(parse_route("1.1.1.1 dev"), None);
    assert_eq!(parse_route(""), None);
    assert_eq!(parse_route("dev via dev eth1"), Some(("eth1".to_string(), None)));
    assert_eq!(parse_route("dev a dev b"), Some(("b".to_string(), None)));
}

#[test]
fn route_output_is_decoded() {
    assert_eq!(linux_route_get(false, b"x dev eth0"), None);
    assert_eq!(linux_route_get(true, b"x dev eth0"), Some(("eth0".to_string(), None)));
    assert_eq!(
        linux_route_get(true, b"x dev e\xffh"),
        Some(("e\u{fffd}h".to_string(), None))
    );
    assert_eq!(
        linux_route_get(true, "x dev \u{e9}th".as_bytes()),
        Some(("\u{e9}th".to_string(), None))
    );
}

#[test]
fn adapter_routes_are_added() {
    let (lines, end) = play(windows("ntz0"), vec![exited(true, "\r\n 12 \r\n"), ok(), ok()]);
    assert_eq!(
        lines,
        vec![
            "powershell -NoProfile -Command (Get-NetAdapter -Name 'ntz0').ifIndex",
            "route ADD 0.0.0.0 MASK 128.0.0.0 10.0.0.1 IF 12",
            "route ADD 128.0.0.0 MASK 128.0.0.0 10.0.0.1 IF 12",
        ]
    );
    assert_eq!(end, Ok(()));
    let (lines, end) = play(windows("ntz0"), vec![exited(true, "12"), failed()]);
    assert_eq!(lines.len(), 2);
    assert_eq!(
        end,
        Err(Error::Other(
            "Command failed: route ADD 0.0.0.0 MASK 128.0.0.0 10.0.0.1 IF 12".to_string()
        ))
    );
}

#[test]
fn no_adapter_routes_without_index() {
    let (lines, end) = play(windows("ntz0"), vec![exited(true, " \r\n")]);
    assert_eq!(lines.len(), 1);
    assert_eq!(end, Ok(()));
    let (lines, end) = play(windows("ntz0"), vec![exited(false, "12")]);
    assert_eq!(lines.len(), 1);
    assert_eq!(end, Ok(()));
}

#[test]
fn captured_output() {
    assert_eq!(powershell_capture(true, b" 7\n"), " 7\n");
    assert_eq!(powershell_capture(false, b" 7\n"), "");
    assert_eq!(interface_index(true, b" 7\n"), "7");
}

#[test]
fn gateways() {
    assert_eq!(derive_gateway_v4("10.0.0.2", 24), Some("10.0.0.1".to_string()));
    assert_eq!(derive_gateway_v4("172.16.37.9", 20), Some("172.16.32.1".to_string()));
    assert_eq!(derive_gateway_v4("10.0.0.2", 0), Some("0.0.0.1".to_string()));
    assert_eq!(derive_gateway_v4("10.0.0.2", 32), Some("10.0.0.3".to_string()));
    assert_eq!(derive_gateway_v4("255.255.255.255", 32), Some("0.0.0.0".to_string()));
    assert_eq!(derive_gateway_v4("nowhere", 24), None);
    assert_eq!(derive_gateway_v4("nowhere", 99), None);
}

#[test]
fn the_default_gateway_is_used_without_address() {
    let setup = windows_routes::setup_routes_v4(&tun("ntz0", "nowhere", 24), "192.0.2.1", false);
    let (lines, _) = play(setup, vec![exited(true, "3"), ok(), ok()]);
    assert_eq!(lines[1], "route ADD 0.0.0.0 MASK 128.0.0.0 10.0.0.1 IF 3");
}

#[test]
fn network_addresses() {
    assert_eq!(network_cidr("10.0.0.1", 24), Ok("10.0.0.0".to_string()));
    assert_eq!(network_cidr("192.168.77.203", 20), Ok("192.168.64.0".to_string()));
    assert_eq!(network_cidr("10.1.2.3", 0), Ok("0.0.0.0".to_string()));
    assert_eq!(network_cidr("10.1.2.3", 32), Ok("10.1.2.3".to_string()));
    assert_eq!(
        network_cidr("10.0.0", 24),
        Err(Error::InvalidInput("Invalid IPv4 address: 10.0.0".to_string()))
    );
}

#[test]
fn networks_and_gateways_belong_together() {
    for (address, prefix) in [("10.0.0.2", 24), ("172.16.37.9", 20), ("192.0.2.77", 31), ("8.8.8.8", 0)] {
        let net = network_cidr(address, prefix).unwrap();
        assert_eq!(network_cidr(&net, prefix), Ok(net.clone()));
        let gateway = derive_gateway_v4(address, prefix).unwrap();
        assert_eq!(network_cidr(&gateway, prefix), Ok(net));
    }
}

#[test]
fn rules_are_checked_and_added() {
    let step = ensure_iptables_rule(vec!["-C", "FORWARD", "-j", "ACCEPT"]);
    assert_eq!(
        step,
        Step::Ensure {
            check: command("iptables", vec!["-C", "FORWARD", "-j", "ACCEPT"]),
            add: command("iptables", vec!["-A", "FORWARD", "-j", "ACCEPT"]),
            failure: "Command failed: iptables -A FORWARD -j ACCEPT".to_string(),
        }
    );
    let step = ensure_iptables_nat_rule(vec!["-C", "POSTROUTING"]);
    assert_eq!(
        step,
        Step::Ensure {
            check: command("iptables", vec!["-t", "nat", "-C", "POSTROUTING"]),
            add: command("iptables", vec!["-t", "nat", "-A", "POSTROUTING"]),
            failure: "iptables NAT failed".to_string(),
        }
    );
    let step = ensure_iptables_rule(vec![]);
    assert_eq!(
        step,
        Step::Ensure {
            check: command("iptables", vec![]),
            add: command("iptables", vec![]),
            failure: "Command failed: iptables ".to_string(),
        }
    );
}

fn nat_setup() -> Setup {
    setup_nat("ntz0", "10.0.0.1", 24, "eth0").unwrap()
}

#[test]
fn rules_that_are_there_are_not_added() {
    let (lines, end) = play(nat_setup(), vec![ok(), ok(), ok(), ok(), ok(), ok()]);
    assert_eq!(
        lines,
        vec![
            "ip link set dev ntz0 up",
            "ip route replace 10.0.0.0/24 dev ntz0",
            "sysctl -w net.ipv4.ip_forward=1",
            "iptables -C FORWARD -i ntz0 -o eth0 -j ACCEPT",
            "iptables -C FORWARD -i eth0 -o ntz0 -m conntrack --ctstate RELATED,ESTABLISHED -j ACCEPT",
            "iptables -t nat -C POSTROUTING -s 10.0.0.0/24 -o eth0 -j MASQUERADE",
        ]
    );
    assert_eq!(end, Ok(()));
}

#[test]
fn exactly_the_missing_rules_are_added() {
    let (lines, end) =
        play(nat_setup(), vec![ok(), ok(), ok(), failed(), ok(), ok(), failed(), ok()]);
    assert_eq!(
        lines[3..],
        vec![
            "iptables -C FORWARD -i ntz0 -o eth0 -j ACCEPT",
            "iptables -A FORWARD -i ntz0 -o eth0 -j ACCEPT",
            "iptables -C FORWARD -i eth0 -o ntz0 -m conntrack --ctstate RELATED,ESTABLISHED -j ACCEPT",
            "iptables -t nat -C POSTROUTING -s 10.0.0.0/24 -o eth0 -j MASQUERADE",
            "iptables -t nat -A POSTROUTING -s 10.0.0.0/24 -o eth0 -j MASQUERADE",
        ]
    );
    assert_eq!(end, Ok(()));
}

#[test]
fn rules_that_cannot_be_added() {
    let (_, end) = play(nat_setup(), vec![ok(), ok(), ok(), failed(), failed()]);
    assert_eq!(
        end,
        Err(Error::Other(
            "Command failed: iptables -A FORWARD -i ntz0 -o eth0 -j ACCEPT".to_string()
        ))
    );
    let (_, end) = play(nat_setup(), vec![ok(), ok(), ok(), ok(), ok(), failed(), failed()]);
    assert_eq!(end, Err(Error::Other("iptables NAT failed".to_string())));
}

fn server_args(address: &str, nat_iface: Option<&str>, setup_nat: bool) -> ServerArgs {
    ServerArgs {
        listen: SocketAddr::V4 { ip: [0, 0, 0, 0], port: 9000 },
        tun: tun("ntz0", address, 24),
        nat_iface: nat_iface.map(|s| s.to_string()),
        setup_nat,
    }
}

#[test]
fn nat_is_set_up_on_demand() {
    assert_eq!(prepare_nat(&server_args("10.0.0.1", Some("eth0"), false)), Ok(None));
    assert_eq!(prepare_nat(&server_args("10.0.0.1", Some("eth0"), true)), Ok(Some(nat_setup())));
    assert_eq!(
        prepare_nat(&server_args("10.0.0.1", None, true)),
        Err(Error::InvalidInput("--setup-nat requires --nat-iface".to_string()))
    );
    assert_eq!(
        prepare_nat(&server_args("tun", Some("eth0"), true)),
        Err(Error::InvalidInput("Invalid IPv4 address: tun".to_string()))
    );
}

#[test]
fn no_default_route_without_the_pinned_one() {
    let (lines, end) = play(linux(), vec![ok(), exited(true, "x dev eth0"), failed(), ok(), ok()]);
    assert_eq!(lines.len(), 3);
    assert_eq!(
        end,
        Err(Error::Other(
            "Command failed: ip route replace 203.0.113.10/32 dev eth0".to_string()
        ))
    );
}

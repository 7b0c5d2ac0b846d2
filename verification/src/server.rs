//! The server: network address translation for the tunnel, and the exchange of packets with the
//! client.

use vstd::prelude::*;
use vstd::string::*;

use crate::addr::{
    ipv4_from_number, ipv4_number, ipv4_octets, ipv4_to_number, ipv4_to_string, is_ipv4,
    is_range_of, law_network_text_reads_back, law_peer_text_holds_address_and_port,
    law_range_holds_its_network, network, network_number, network_text, parse_ipv4, push_socket,
    range_holds, socket_text, SocketAddr,
};
use crate::command::{
    command, failure_message, failure_text, slice_texts, CommandText, Error, ErrorText,
};
use crate::linux_routes::{
    bring_up, law_link_up_names_the_interface, law_route_replace_names_range_and_interface,
    link_up, replace_route, route_of_words, route_replace,
};
use crate::relay::{Hop, ReadError};
use crate::setup::{
    after_replies, answers, follows, lemma_follows_missing, lemma_follows_nothing,
    lemma_follows_present, lemma_follows_run, run_command_step, run_step, script_commands,
    step_texts, transcript, ReplyText, Setup, Step, StepText,
};
use crate::text::{
    decimal, fields, law_decimal_reads_back, law_decimals_differ, law_field_without_separator,
    law_fields_after_separator, law_space_separates, law_word_is_itself, push_decimal, words,
};
use crate::tun::TunParams;

verus! {

/// What the server is started with.
pub struct ServerArgs {
    pub listen: SocketAddr,
    pub tun: TunParams,
    pub nat_iface: Option<String>,
    pub setup_nat: bool,
}

/// The first address of the network of an IPv4 address.
pub fn network_cidr(addr: &str, prefix: u8) -> (out: Result<String, Error>)
    requires
        is_ipv4(addr@) ==> prefix <= 32,
    ensures
        out is Ok <==> is_ipv4(addr@),
        out matches Ok(text) ==> text@ == network_text(addr@, prefix as nat),
        out matches Ok(text) ==> is_ipv4(text@) && ipv4_number(ipv4_octets(text@)) == network_number(
            ipv4_number(ipv4_octets(addr@)),
            prefix as nat,
        ),
        out matches Err(e) ==> e@ == ErrorText::InvalidInput("Invalid IPv4 address: "@ + addr@),
{
    match parse_ipv4(addr) {
        Some(ip) => {
            let net = network(ipv4_to_number(&ip), prefix);
            proof {
                law_network_text_reads_back(addr@, prefix as nat);
            }
            Ok(ipv4_to_string(&ipv4_from_number(net)))
        },
        None => {
            let mut message = "Invalid IPv4 address: ".to_owned();
            message.append(addr);
            Err(Error::InvalidInput(message))
        },
    }
}

/// Arguments that check for a rule, turned into those that add it: `-A` comes in the place of `-C`.
pub open spec fn adding(check_args: Seq<Seq<char>>) -> Seq<Seq<char>> {
    if check_args.len() == 0 {
        check_args
    } else {
        check_args.update(0, "-A"@)
    }
}

/// A call of `iptables`.
pub open spec fn iptables(args: Seq<Seq<char>>) -> CommandText {
    CommandText { program: "iptables"@, args }
}

/// The step that adds a rule where it is missing.
pub open spec fn ensure_rule(check_args: Seq<Seq<char>>) -> StepText {
    let add = iptables(adding(check_args));
    StepText::Ensure { check: iptables(check_args), add, failure: failure_text(add) }
}

/// The step that adds a rule of the table `nat` where it is missing.
pub open spec fn ensure_nat_rule(check_args: Seq<Seq<char>>) -> StepText {
    let table = seq!["-t"@, "nat"@];
    StepText::Ensure {
        check: iptables(table + check_args),
        add: iptables(table + adding(check_args)),
        failure: "iptables NAT failed"@,
    }
}

fn add_args<'a>(check_args: &Vec<&'a str>) -> (out: Vec<&'a str>)
    ensures
        slice_texts(out@) == adding(slice_texts(check_args@)),
{
    let mut out: Vec<&'a str> = Vec::new();
    let mut i: usize = 0;
    while i < check_args.len()
        invariant
            i <= check_args.len(),
            out@ == check_args@.take(i as int),
        decreases check_args.len() - i,
    {
        out.push(check_args[i]);
        assert(out@ =~= check_args@.take(i + 1));
        i = i + 1;
    }
    assert(out@ =~= check_args@);
    if out.len() > 0 {
        out.set(0, "-A");
    }
    assert(slice_texts(out@) =~= adding(slice_texts(check_args@)));
    out
}

fn in_nat_table<'a>(args: &Vec<&'a str>) -> (out: Vec<&'a str>)
    ensures
        slice_texts(out@) == seq!["-t"@, "nat"@] + slice_texts(args@),
{
    let mut out: Vec<&'a str> = vec!["-t", "nat"];
    let ghost table = out@;
    let mut i: usize = 0;
    while i < args.len()
        invariant
            i <= args.len(),
            out@ == table + args@.take(i as int),
        decreases args.len() - i,
    {
        out.push(args[i]);
        assert(out@ =~= table + args@.take(i + 1));
        i = i + 1;
    }
    assert(slice_texts(out@) =~= seq!["-t"@, "nat"@] + slice_texts(args@));
    out
}

/// The step that adds a rule where it is missing. The arguments are those of the check, which begin
/// with `-C`.
pub fn ensure_iptables_rule(check_args: Vec<&str>) -> (step: Step)
    ensures
        step@ == ensure_rule(slice_texts(check_args@)),
{
    let add = command("iptables", add_args(&check_args));
    let failure = failure_message(&add);
    Step::Ensure { check: command("iptables", check_args), add, failure }
}

/// The step that adds a rule of the table `nat` where it is missing. The arguments are those of the
/// check, which begin with `-C`.
pub fn ensure_iptables_nat_rule(check_args: Vec<&str>) -> (step: Step)
    ensures
        step@ == ensure_nat_rule(slice_texts(check_args@)),
{
    let added = add_args(&check_args);
    Step::Ensure {
        check: command("iptables", in_nat_table(&check_args)),
        add: command("iptables", in_nat_table(&added)),
        failure: "iptables NAT failed".to_owned(),
    }
}

/// The network of the tunnel with its prefix.
pub open spec fn cidr_text(tun_addr: Seq<char>, prefix: nat) -> Seq<char> {
    network_text(tun_addr, prefix) + "/"@ + decimal(prefix)
}

/// The command that makes the kernel forward IPv4 packets.
pub open spec fn enable_forwarding() -> CommandText {
    CommandText { program: "sysctl"@, args: seq!["-w"@, "net.ipv4.ip_forward=1"@] }
}

/// The rule that lets packets from the tunnel out.
pub open spec fn forward_out(tun_name: Seq<char>, wan_iface: Seq<char>) -> Seq<Seq<char>> {
    seq!["-C"@, "FORWARD"@, "-i"@, tun_name, "-o"@, wan_iface, "-j"@, "ACCEPT"@]
}

/// The rule that lets the answers back into the tunnel.
pub open spec fn forward_back(tun_name: Seq<char>, wan_iface: Seq<char>) -> Seq<Seq<char>> {
    seq![
        "-C"@,
        "FORWARD"@,
        "-i"@,
        wan_iface,
        "-o"@,
        tun_name,
        "-m"@,
        "conntrack"@,
        "--ctstate"@,
        "RELATED,ESTABLISHED"@,
        "-j"@,
        "ACCEPT"@,
    ]
}

/// The rule that translates the addresses of the tunnel's network.
pub open spec fn masquerade(cidr: Seq<char>, wan_iface: Seq<char>) -> Seq<Seq<char>> {
    seq!["-C"@, "POSTROUTING"@, "-s"@, cidr, "-o"@, wan_iface, "-j"@, "MASQUERADE"@]
}

/// The steps that connect the network `cidr` behind `tun_name` with the world behind `wan_iface`.
pub open spec fn nat_steps(
    tun_name: Seq<char>,
    cidr: Seq<char>,
    wan_iface: Seq<char>,
) -> Seq<StepText> {
    seq![
        run_step(link_up(tun_name)),
        run_step(route_replace(cidr, tun_name)),
        run_step(enable_forwarding()),
        ensure_rule(forward_out(tun_name, wan_iface)),
        ensure_rule(forward_back(tun_name, wan_iface)),
        ensure_nat_rule(masquerade(cidr, wan_iface)),
    ]
}

/// The value of an option in a list of options and values that alternate; the first one counts.
pub open spec fn option_value(list: Seq<Seq<char>>, key: Seq<char>) -> Option<Seq<char>>
    decreases list.len(),
{
    if list.len() < 2 {
        None
    } else if list[0] == key {
        Some(list[1])
    } else {
        option_value(list.skip(2), key)
    }
}

/// Whether a step checks for a rule of the packet filter and, where that is missing, adds this very
/// rule.
pub open spec fn adds_the_checked_rule(step: StepText, chain: Seq<char>) -> bool {
    step matches StepText::Ensure { check, add, failure: _ } && {
        &&& check.program == "iptables"@
        &&& add.program == "iptables"@
        &&& option_value(check.args, "-C"@) == Some(chain)
        &&& option_value(check.args, "-A"@) is None
        &&& option_value(add.args, "-A"@) == Some(chain)
        &&& option_value(add.args, "-C"@) is None
        &&& check.args.len() == add.args.len()
        &&& forall|i: int|
            0 <= i < check.args.len() ==> #[trigger] check.args[i] == add.args[i] || check.args[i]
                == "-C"@ && add.args[i] == "-A"@
    }
}

/// Whether a step checks for a rule with the given value of an option.
pub open spec fn checks_for(step: StepText, key: Seq<char>, value: Option<Seq<char>>) -> bool {
    step matches StepText::Ensure { check, add: _, failure: _ } && option_value(check.args, key)
        == value
}

/// Whether steps connect the network of the tunnel's address with the world behind `wan_iface`. The
/// tunnel is brought up and its network, with its prefix, is sent into it; packets are forwarded from
/// the tunnel to the world, and back only where they answer; and what comes from the tunnel's network
/// leaves with the address of `wan_iface`.
pub open spec fn connects(
    steps: Seq<StepText>,
    tun_name: Seq<char>,
    tun_addr: Seq<char>,
    prefix: nat,
    wan_iface: Seq<char>,
) -> bool {
    &&& steps.len() == 6
    &&& steps[0] matches StepText::Run { command, failure: _ } && {
        &&& command.program == "ip"@
        &&& command.args[0] == "link"@ && command.args.last() == "up"@
        &&& route_of_words(command.args) == Some((tun_name, None::<Seq<char>>))
    }
    &&& steps[1] matches StepText::Run { command, failure: _ } && {
        &&& command.program == "ip"@
        &&& command.args.len() == 5
        &&& command.args[0] == "route"@ && command.args[1] == "replace"@
        &&& is_range_of(command.args[2], tun_addr, prefix)
        &&& route_of_words(command.args) == Some((tun_name, None::<Seq<char>>))
    }
    &&& steps[2] matches StepText::Run { command, failure: _ } && {
        &&& command.program == "sysctl"@
        &&& command.args.last() == "net.ipv4.ip_forward=1"@
    }
    &&& adds_the_checked_rule(steps[3], "FORWARD"@)
    &&& checks_for(steps[3], "-i"@, Some(tun_name))
    &&& checks_for(steps[3], "-o"@, Some(wan_iface))
    &&& checks_for(steps[3], "-m"@, None)
    &&& checks_for(steps[3], "-j"@, Some("ACCEPT"@))
    &&& adds_the_checked_rule(steps[4], "FORWARD"@)
    &&& checks_for(steps[4], "-i"@, Some(wan_iface))
    &&& checks_for(steps[4], "-o"@, Some(tun_name))
    &&& checks_for(steps[4], "-m"@, Some("conntrack"@))
    &&& checks_for(steps[4], "--ctstate"@, Some("RELATED,ESTABLISHED"@))
    &&& checks_for(steps[4], "-j"@, Some("ACCEPT"@))
    &&& adds_the_checked_rule(steps[5], "POSTROUTING"@)
    &&& checks_for(steps[5], "-t"@, Some("nat"@))
    &&& steps[5] matches StepText::Ensure { check, add: _, failure: _ } && option_value(
        check.args,
        "-s"@,
    ) matches Some(range) && is_range_of(range, tun_addr, prefix)
    &&& checks_for(steps[5], "-i"@, None)
    &&& checks_for(steps[5], "-o"@, Some(wan_iface))
    &&& checks_for(steps[5], "-j"@, Some("MASQUERADE"@))
}

/// The setup of forwarding and address translation between the tunnel and the interface `wan_iface`.
#[verifier::rlimit(40)]
pub fn setup_nat(tun_name: &str, tun_addr: &str, prefix: u8, wan_iface: &str) -> (out: Result<
    Setup,
    Error,
>)
    requires
        is_ipv4(tun_addr@) ==> prefix <= 32,
    ensures
        out is Ok <==> is_ipv4(tun_addr@),
        out matches Ok(setup) ==> setup.remaining() == nat_steps(
            tun_name@,
            cidr_text(tun_addr@, prefix as nat),
            wan_iface@,
        ) && !setup.verbose,
        out matches Ok(setup) ==> connects(
            setup.remaining(),
            tun_name@,
            tun_addr@,
            prefix as nat,
            wan_iface@,
        ),
        out matches Err(e) ==> e@ == ErrorText::InvalidInput(
            "Invalid IPv4 address: "@ + tun_addr@,
        ),
{
    let mut cidr = match network_cidr(tun_addr, prefix) {
        Ok(net) => net,
        Err(e) => {
            return Err(e);
        },
    };
    cidr.append("/");
    push_decimal(&mut cidr, prefix as u128);
    let sysctl_args = vec!["-w", "net.ipv4.ip_forward=1"];
    let out_args = vec!["-C", "FORWARD", "-i", tun_name, "-o", wan_iface, "-j", "ACCEPT"];
    let back_args = vec![
        "-C",
        "FORWARD",
        "-i",
        wan_iface,
        "-o",
        tun_name,
        "-m",
        "conntrack",
        "--ctstate",
        "RELATED,ESTABLISHED",
        "-j",
        "ACCEPT",
    ];
    let nat_args = vec![
        "-C",
        "POSTROUTING",
        "-s",
        cidr.as_str(),
        "-o",
        wan_iface,
        "-j",
        "MASQUERADE",
    ];
    proof {
        assert(slice_texts(sysctl_args@) =~= enable_forwarding().args);
        assert(slice_texts(out_args@) =~= forward_out(tun_name@, wan_iface@));
        assert(slice_texts(back_args@) =~= forward_back(tun_name@, wan_iface@));
        assert(slice_texts(nat_args@) =~= masquerade(cidr@, wan_iface@));
    }
    let steps = vec![
        run_command_step(bring_up(tun_name)),
        run_command_step(replace_route(cidr.as_str(), tun_name)),
        run_command_step(command("sysctl", sysctl_args)),
        ensure_iptables_rule(out_args),
        ensure_iptables_rule(back_args),
        ensure_iptables_nat_rule(nat_args),
    ];
    assert(step_texts(steps@) =~= nat_steps(tun_name@, cidr@, wan_iface@));
    proof {
        law_nat_connects_tunnel_and_world(tun_name@, tun_addr@, prefix as nat, wan_iface@);
    }
    Ok(Setup { steps, verbose: false })
}

/// The steps that the server's arguments ask for, if any, or why they cannot be had.
pub open spec fn nat_plan(args: ServerArgs) -> Result<Option<Seq<StepText>>, ErrorText> {
    if !args.setup_nat {
        Ok(None)
    } else {
        match args.nat_iface {
            None => Err(ErrorText::InvalidInput("--setup-nat requires --nat-iface"@)),
            Some(wan) => if is_ipv4(args.tun.address_v4@) {
                Ok(
                    Some(
                        nat_steps(
                            args.tun.name@,
                            cidr_text(args.tun.address_v4@, args.tun.prefix_v4 as nat),
                            wan@,
                        ),
                    ),
                )
            } else {
                Err(ErrorText::InvalidInput("Invalid IPv4 address: "@ + args.tun.address_v4@))
            },
        }
    }
}

/// The setup that the server's arguments ask for, if any.
#[verifier::rlimit(40)]
pub fn prepare_nat(args: &ServerArgs) -> (out: Result<Option<Setup>, Error>)
    requires
        args.setup_nat && args.nat_iface is Some && is_ipv4(args.tun.address_v4@)
            ==> args.tun.prefix_v4 <= 32,
    ensures
        match nat_plan(*args) {
            Ok(Some(steps)) => (out matches Ok(Some(setup)) && setup.remaining() == steps
                && !setup.verbose),
            Ok(None) => out matches Ok(None),
            Err(e) => (out matches Err(error) && error@ == e),
        },
        !args.setup_nat <==> (out matches Ok(setup) && setup is None),
        out is Err <==> args.setup_nat && (args.nat_iface is None || !is_ipv4(
            args.tun.address_v4@,
        )),
        args.setup_nat && args.nat_iface is None ==> (out matches Err(e) && e@
            == ErrorText::InvalidInput("--setup-nat requires --nat-iface"@)),
        args.setup_nat && args.nat_iface is Some && !is_ipv4(args.tun.address_v4@) ==> (out matches Err(
            e,
        ) && e@ == ErrorText::InvalidInput("Invalid IPv4 address: "@ + args.tun.address_v4@)),
        out matches Ok(Some(setup)) ==> connects(
            setup.remaining(),
            args.tun.name@,
            args.tun.address_v4@,
            args.tun.prefix_v4 as nat,
            args.nat_iface->0@,
        ),
{
    if !args.setup_nat {
        return Ok(None);
    }
    match &args.nat_iface {
        Some(wan) => match setup_nat(
            args.tun.name.as_str(),
            args.tun.address_v4.as_str(),
            args.tun.prefix_v4,
            wan.as_str(),
        ) {
            Ok(setup) => Ok(Some(setup)),
            Err(e) => Err(e),
        },
        None => Err(Error::InvalidInput("--setup-nat requires --nat-iface".to_owned())),
    }
}

/// The line that shows where the server listens.
pub fn listen_line(local: &SocketAddr) -> (out: String)
    ensures
        out@ == "  UDP listen: "@ + socket_text(*local),
        words(out@) == seq!["UDP"@, "listen:"@, socket_text(*local)],
{
    let mut out = "  UDP listen: ".to_owned();
    push_socket(&mut out, local);
    proof {
        let at = socket_text(*local);
        reveal_strlit("  UDP listen: ");
        reveal_strlit("UDP");
        reveal_strlit("listen:");
        assert("UDP"@ =~= seq!['U', 'D', 'P']);
        assert("listen:"@ =~= seq!['l', 'i', 's', 't', 'e', 'n', ':']);
        law_peer_text_holds_address_and_port(*local);
        law_word_is_itself("UDP"@);
        law_word_is_itself("listen:"@);
        law_word_is_itself(at);
        law_space_separates("UDP"@, "listen:"@);
        let named = "UDP"@ + seq![' '] + "listen:"@;
        law_space_separates(named, at);
        let line = named + seq![' '] + at;
        law_space_separates(line, line);
        law_space_separates(line, seq![' '] + line);
        assert(out@ =~= seq![' '] + (seq![' '] + line));
        assert(words(out@) =~= seq!["UDP"@, "listen:"@, at]);
    }
    out
}

/// The line that says whether forwarding was set up.
pub fn nat_line(setup_nat: bool) -> (out: String)
    ensures
        out@ == if setup_nat {
            "  NAT/forwarding: configured automatically (--setup-nat)"@
        } else {
            "  NAT/forwarding: not configured (run with --setup-nat --nat-iface <WAN>)"@
        },
        "  NAT/forwarding: configured"@.is_prefix_of(out@) <==> setup_nat,
        "  NAT/forwarding: not configured"@.is_prefix_of(out@) <==> !setup_nat,
{
    proof {
        let yes = "  NAT/forwarding: configured automatically (--setup-nat)"@;
        let no = "  NAT/forwarding: not configured (run with --setup-nat --nat-iface <WAN>)"@;
        reveal_strlit("  NAT/forwarding: configured");
        reveal_strlit("  NAT/forwarding: not configured");
        reveal_strlit("  NAT/forwarding: configured automatically (--setup-nat)");
        reveal_strlit(
            "  NAT/forwarding: not configured (run with --setup-nat --nat-iface <WAN>)",
        );
        assert(yes.take(28) =~= "  NAT/forwarding: configured"@);
        assert(no.take(32) =~= "  NAT/forwarding: not configured"@);
        assert(yes[18] == 'c' && no[18] == 'n');
        assert("  NAT/forwarding: configured"@[18] == 'c');
        assert("  NAT/forwarding: not configured"@[18] == 'n');
        assert(no.take(28)[18] == 'n');
        assert(yes.take(32)[18] == 'c');
    }
    if setup_nat {
        "  NAT/forwarding: configured automatically (--setup-nat)".to_owned()
    } else {
        "  NAT/forwarding: not configured (run with --setup-nat --nat-iface <WAN>)".to_owned()
    }
}

/// What happens to the server.
#[derive(Clone, Copy, Debug, PartialEq, Eq)]
pub enum ServerEvent<'a> {
    /// A packet came out of the TUN interface.
    FromTun(&'a [u8]),
    /// The TUN interface could not be read.
    TunError,
    /// A packet came from a client.
    FromClient(SocketAddr, &'a [u8]),
    /// Nothing was read from a client.
    UdpError(ReadError),
}

/// What the server does.
#[derive(Clone, Copy, Debug, PartialEq, Eq)]
pub enum ServerAction<'a> {
    /// Records both hops and sends the packet to the client.
    SendToClient { to: SocketAddr, packet: &'a [u8], arrives: Hop, leaves: Hop },
    /// Records both hops and writes the packet to the TUN interface.
    WriteToTun { packet: &'a [u8], arrives: Hop, leaves: Hop },
    /// Goes on reading.
    Wait,
    /// Gives up with the error.
    Stop,
}

/// The client that the server knows after an event.
pub open spec fn client_after(client: Option<SocketAddr>, event: ServerEvent) -> Option<
    SocketAddr,
> {
    match event {
        ServerEvent::FromClient(from, _) => Some(from),
        _ => client,
    }
}

/// What a server that knows the given client does in answer to an event.
pub open spec fn server_action<'a>(
    client: Option<SocketAddr>,
    event: ServerEvent<'a>,
) -> ServerAction<'a> {
    match event {
        ServerEvent::FromTun(packet) => match client {
            Some(to) => ServerAction::SendToClient {
                to,
                packet,
                arrives: Hop::ServerFromNet,
                leaves: Hop::ServerToClient(to),
            },
            None => ServerAction::Wait,
        },
        ServerEvent::TunError => ServerAction::Stop,
        ServerEvent::FromClient(from, packet) => ServerAction::WriteToTun {
            packet,
            arrives: Hop::ServerFromClient(from),
            leaves: Hop::ServerToNet,
        },
        ServerEvent::UdpError(e) => if e.is_transient() {
            ServerAction::Wait
        } else {
            ServerAction::Stop
        },
    }
}

/// The server during the exchange of packets.
#[derive(Clone, Copy, Debug, PartialEq, Eq)]
pub struct Server {
    /// The client that was heard from last.
    pub client: Option<SocketAddr>,
}

impl Server {
    /// A server that has not heard from any client.
    pub fn new() -> (server: Server)
        ensures
            server.client is None,
    {
        Server { client: None }
    }

    /// What the server does in answer to an event. The sender of a packet is recorded before the
    /// packet is passed on.
    pub fn on_event<'a>(&mut self, event: ServerEvent<'a>) -> (action: ServerAction<'a>)
        ensures
            final(self).client == client_after(old(self).client, event),
            action == server_action(old(self).client, event),
            event !is FromClient ==> final(self).client == old(self).client,
            event matches ServerEvent::FromClient(from, packet) ==> final(self).client == Some(from)
                && action == (ServerAction::WriteToTun {
                packet,
                arrives: Hop::ServerFromClient(from),
                leaves: Hop::ServerToNet,
            }),
            event matches ServerEvent::FromTun(packet) ==> match old(self).client {
                Some(to) => action == (ServerAction::SendToClient {
                    to,
                    packet,
                    arrives: Hop::ServerFromNet,
                    leaves: Hop::ServerToClient(to),
                }),
                None => action is Wait,
            },
            event is TunError ==> action is Stop,
            event matches ServerEvent::UdpError(e) ==> (action is Wait <==> (e is WouldBlock || e
                is TimedOut)),
            event matches ServerEvent::UdpError(e) ==> (action is Stop <==> e is Other),
    {
        match event {
            ServerEvent::FromTun(packet) => match self.client {
                Some(to) => ServerAction::SendToClient {
                    to,
                    packet,
                    arrives: Hop::ServerFromNet,
                    leaves: Hop::ServerToClient(to),
                },
                None => ServerAction::Wait,
            },
            ServerEvent::TunError => ServerAction::Stop,
            ServerEvent::FromClient(from, packet) => {
                self.client = Some(from);
                ServerAction::WriteToTun {
                    packet,
                    arrives: Hop::ServerFromClient(from),
                    leaves: Hop::ServerToNet,
                }
            },
            ServerEvent::UdpError(e) => if e.retries() {
                ServerAction::Wait
            } else {
                ServerAction::Stop
            },
        }
    }
}

/// The client that a server knows after a history of events, which it began without one.
pub open spec fn client_after_all(events: Seq<ServerEvent>) -> Option<SocketAddr>
    decreases events.len(),
{
    if events.len() == 0 {
        None
    } else {
        client_after(client_after_all(events.drop_last()), events.last())
    }
}

/// What the server does in answer to the last event of a history.
pub open spec fn last_action<'a>(events: Seq<ServerEvent<'a>>) -> ServerAction<'a> {
    server_action(client_after_all(events.drop_last()), events.last())
}

/// The datagrams that the server sends in answer to a history of events, each with its receiver.
pub open spec fn sent(events: Seq<ServerEvent>) -> Seq<(SocketAddr, Seq<u8>)>
    decreases events.len(),
{
    if events.len() == 0 {
        Seq::empty()
    } else {
        match last_action(events) {
            ServerAction::SendToClient { to, packet, arrives: _, leaves: _ } => sent(
                events.drop_last(),
            ).push((to, packet@)),
            _ => sent(events.drop_last()),
        }
    }
}

/// The packets that the server writes to the TUN interface in answer to a history of events.
pub open spec fn written(events: Seq<ServerEvent>) -> Seq<Seq<u8>>
    decreases events.len(),
{
    if events.len() == 0 {
        Seq::empty()
    } else {
        match last_action(events) {
            ServerAction::WriteToTun { packet, arrives: _, leaves: _ } => written(
                events.drop_last(),
            ).push(packet@),
            _ => written(events.drop_last()),
        }
    }
}

/// The datagrams received in a history of events, each with its sender.
pub open spec fn received(events: Seq<ServerEvent>) -> Seq<(SocketAddr, Seq<u8>)>
    decreases events.len(),
{
    if events.len() == 0 {
        Seq::empty()
    } else {
        match events.last() {
            ServerEvent::FromClient(from, packet) => received(events.drop_last()).push(
                (from, packet@),
            ),
            _ => received(events.drop_last()),
        }
    }
}

/// The client that the server knows is the sender of the last datagram it received, and none before
/// the first.
pub proof fn law_the_last_sender_is_known(events: Seq<ServerEvent>)
    ensures
        client_after_all(events) == if received(events).len() == 0 {
            None
        } else {
            Some(received(events).last().0)
        },
    decreases events.len(),
{
    if events.len() > 0 {
        law_the_last_sender_is_known(events.drop_last());
    }
}

/// A packet from the network is sent once and unchanged, to the sender of the last datagram and to
/// nobody else; nothing is written for it.
pub proof fn law_packets_go_to_the_last_client<'a>(events: Seq<ServerEvent<'a>>, packet: &'a [u8])
    requires
        received(events).len() > 0,
    ensures
        sent(events.push(ServerEvent::FromTun(packet))) == sent(events).push(
            (received(events).last().0, packet@),
        ),
        written(events.push(ServerEvent::FromTun(packet))) == written(events),
{
    law_the_last_sender_is_known(events);
    assert(events.push(ServerEvent::FromTun(packet)).drop_last() =~= events);
}

/// A server that has not heard from any client drops a packet from the network without an error:
/// nothing is sent or written for it.
pub proof fn law_packets_without_client_are_dropped<'a>(
    events: Seq<ServerEvent<'a>>,
    packet: &'a [u8],
)
    requires
        received(events).len() == 0,
    ensures
        last_action(events.push(ServerEvent::FromTun(packet))) is Wait,
        sent(events.push(ServerEvent::FromTun(packet))) == sent(events),
        written(events.push(ServerEvent::FromTun(packet))) == written(events),
{
    law_the_last_sender_is_known(events);
    assert(events.push(ServerEvent::FromTun(packet)).drop_last() =~= events);
}

/// A datagram makes its sender the client, whoever was it before, and is written once and unchanged;
/// nothing is sent for it.
pub proof fn law_datagrams_are_recorded_and_written<'a>(
    events: Seq<ServerEvent<'a>>,
    from: SocketAddr,
    packet: &'a [u8],
)
    ensures
        client_after_all(events.push(ServerEvent::FromClient(from, packet))) == Some(from),
        written(events.push(ServerEvent::FromClient(from, packet))) == written(events).push(packet@),
        sent(events.push(ServerEvent::FromClient(from, packet))) == sent(events),
{
    assert(events.push(ServerEvent::FromClient(from, packet)).drop_last() =~= events);
}

/// The packets that are written are those of the datagrams received, each once and in their order.
pub proof fn law_datagrams_are_written_in_order(events: Seq<ServerEvent>)
    ensures
        written(events) == received(events).map_values(|d: (SocketAddr, Seq<u8>)| d.1),
    decreases events.len(),
{
    let payload = |d: (SocketAddr, Seq<u8>)| d.1;
    if events.len() > 0 {
        law_datagrams_are_written_in_order(events.drop_last());
    }
    assert(written(events) =~= received(events).map_values(payload));
}

/// A rule is added with the very arguments it was checked for with, the first one aside.
pub proof fn law_the_checked_rule_is_added(check_args: Seq<Seq<char>>)
    requires
        check_args.len() > 0,
    ensures
        adding(check_args)[0] == "-A"@,
        adding(check_args).drop_first() == check_args.drop_first(),
{
    assert(adding(check_args).drop_first() =~= check_args.drop_first());
}

/// The commands for one rule: the check, which succeeds where the rule is there, and otherwise the
/// addition.
pub open spec fn rule_script(rule: StepText, present: bool) -> Seq<(CommandText, bool)> {
    match rule {
        StepText::Ensure { check, add, failure: _ } => if present {
            seq![(check, true)]
        } else {
            seq![(check, false), (add, true)]
        },
        _ => Seq::empty(),
    }
}

/// The commands of the server's setup where the rules that are there already are known and no other
/// command fails.
pub open spec fn nat_script(
    tun_name: Seq<char>,
    cidr: Seq<char>,
    wan_iface: Seq<char>,
    out_present: bool,
    back_present: bool,
    nat_present: bool,
) -> Seq<(CommandText, bool)> {
    seq![
        (link_up(tun_name), true),
        (route_replace(cidr, tun_name), true),
        (enable_forwarding(), true),
    ] + rule_script(ensure_rule(forward_out(tun_name, wan_iface)), out_present) + rule_script(
        ensure_rule(forward_back(tun_name, wan_iface)),
        back_present,
    ) + rule_script(ensure_nat_rule(masquerade(cidr, wan_iface)), nat_present)
}

/// The server checks for each rule and adds exactly those that are missing.
pub proof fn law_exactly_the_missing_rules_are_added(
    tun_name: Seq<char>,
    cidr: Seq<char>,
    wan_iface: Seq<char>,
    out_present: bool,
    back_present: bool,
    nat_present: bool,
    replies: Seq<ReplyText>,
)
    requires
        answers(
            nat_script(tun_name, cidr, wan_iface, out_present, back_present, nat_present),
            replies,
        ),
    ensures
        transcript(nat_steps(tun_name, cidr, wan_iface), replies) == script_commands(
            nat_script(tun_name, cidr, wan_iface, out_present, back_present, nat_present),
        ),
        after_replies(nat_steps(tun_name, cidr, wan_iface), replies) == Ok::<
            Seq<StepText>,
            ErrorText,
        >(Seq::empty()),
{
    let none = Seq::<StepText>::empty();
    let nothing = Seq::<(CommandText, bool)>::empty();
    let out_rule = ensure_rule(forward_out(tun_name, wan_iface));
    let back_rule = ensure_rule(forward_back(tun_name, wan_iface));
    let nat_rule = ensure_nat_rule(masquerade(cidr, wan_iface));
    let up = link_up(tun_name);
    let route = route_replace(cidr, tun_name);
    let forwarding = enable_forwarding();
    let s5 = seq![nat_rule] + none;
    let t5 = rule_script(nat_rule, nat_present) + nothing;
    let s4 = seq![back_rule] + s5;
    let t4 = rule_script(back_rule, back_present) + t5;
    let s3 = seq![out_rule] + s4;
    let t3 = rule_script(out_rule, out_present) + t4;
    let s2 = seq![run_step(forwarding)] + s3;
    let t2 = seq![(forwarding, true)] + t3;
    let s1 = seq![run_step(route)] + s2;
    let t1 = seq![(route, true)] + t2;
    let s0 = seq![run_step(up)] + s1;
    let t0 = seq![(up, true)] + t1;
    lemma_follows_nothing();
    lemma_follows_rule(nat_rule, nat_present, none, nothing);
    lemma_follows_rule(back_rule, back_present, s5, t5);
    lemma_follows_rule(out_rule, out_present, s4, t4);
    lemma_follows_run(forwarding, failure_text(forwarding), s3, t3);
    lemma_follows_run(route, failure_text(route), s2, t2);
    lemma_follows_run(up, failure_text(up), s1, t1);
    assert(s0 =~= nat_steps(tun_name, cidr, wan_iface));
    assert(t0 =~= nat_script(
        tun_name,
        cidr,
        wan_iface,
        out_present,
        back_present,
        nat_present,
    ));
}

proof fn lemma_follows_rule(
    rule: StepText,
    present: bool,
    rest: Seq<StepText>,
    script: Seq<(CommandText, bool)>,
)
    requires
        rule is Ensure,
        follows(rest, script),
    ensures
        follows(seq![rule] + rest, rule_script(rule, present) + script),
{
    if let StepText::Ensure { check, add, failure } = rule {
        if present {
            lemma_follows_present(check, add, failure, rest, script);
        } else {
            lemma_follows_missing(check, add, failure, rest, script);
            assert(rule_script(rule, present) + script =~= seq![(check, false)] + (seq![(add, true)]
                + script));
        }
    }
}

/// A server without a packet to read goes on, whether it knows a client or not, and any other failure
/// to read the socket ends it; whatever the failure was, nothing is sent or written for it, and the
/// client stays the same.
pub proof fn law_read_errors_are_waited_out_or_end_the_server<'a>(
    events: Seq<ServerEvent<'a>>,
    e: ReadError,
)
    ensures
        last_action(events.push(ServerEvent::UdpError(e))) is Wait <==> (e is WouldBlock || e
            is TimedOut),
        last_action(events.push(ServerEvent::UdpError(e))) is Stop <==> e is Other,
        sent(events.push(ServerEvent::UdpError(e))) == sent(events),
        written(events.push(ServerEvent::UdpError(e))) == written(events),
        received(events.push(ServerEvent::UdpError(e))) == received(events),
        client_after_all(events.push(ServerEvent::UdpError(e))) == client_after_all(events),
{
    assert(events.push(ServerEvent::UdpError(e)).drop_last() =~= events);
}

/// A failure to read the TUN interface ends the server, whatever came before it; nothing is sent or
/// written for it.
pub proof fn law_tun_errors_end_the_server<'a>(events: Seq<ServerEvent<'a>>)
    ensures
        last_action(events.push(ServerEvent::TunError)) is Stop,
        sent(events.push(ServerEvent::TunError)) == sent(events),
        written(events.push(ServerEvent::TunError)) == written(events),
        client_after_all(events.push(ServerEvent::TunError)) == client_after_all(events),
{
    assert(events.push(ServerEvent::TunError).drop_last() =~= events);
}

/// The server ends at a failure to read and at nothing else.
pub proof fn law_only_read_failures_end_the_server<'a>(
    events: Seq<ServerEvent<'a>>,
    event: ServerEvent<'a>,
)
    ensures
        last_action(events.push(event)) is Stop <==> event is TunError || event
            == ServerEvent::<'a>::UdpError(ReadError::Other),
        last_action(events.push(event)) is WriteToTun <==> event is FromClient,
        last_action(events.push(event)) is SendToClient <==> event is FromTun && received(
            events,
        ).len() > 0,
{
    law_the_last_sender_is_known(events);
    assert(events.push(event).drop_last() =~= events);
}

/// A packet is recorded by both of its hops: one that is sent comes from the network and goes to the
/// receiver of the datagram, and one that is written comes from the sender of the datagram and goes
/// to the network.
pub proof fn law_recorded_hops_are_those_of_the_packet<'a>(
    events: Seq<ServerEvent<'a>>,
    event: ServerEvent<'a>,
)
    ensures
        match last_action(events.push(event)) {
            ServerAction::SendToClient { to, packet, arrives, leaves } => {
                &&& event == ServerEvent::FromTun(packet)
                &&& arrives == Hop::ServerFromNet
                &&& leaves == Hop::ServerToClient(to)
                &&& to == received(events).last().0
            },
            ServerAction::WriteToTun { packet, arrives, leaves } => {
                &&& event matches ServerEvent::FromClient(from, p) && p == packet && arrives
                    == Hop::ServerFromClient(from)
                &&& leaves == Hop::ServerToNet
            },
            _ => true,
        },
{
    law_the_last_sender_is_known(events);
    assert(events.push(event).drop_last() =~= events);
}

/// Only the arguments that concern a setup decide about it: without `setup_nat` there is none,
/// whatever the rest is, and with it there is one exactly where the interface is named and the
/// tunnel's address is an IPv4 text.
pub proof fn law_the_setup_is_asked_for(args: ServerArgs)
    ensures
        !args.setup_nat ==> nat_plan(args) == Ok::<Option<Seq<StepText>>, ErrorText>(None),
        nat_plan(args) is Err <==> args.setup_nat && (args.nat_iface is None || !is_ipv4(
            args.tun.address_v4@,
        )),
        nat_plan(args) matches Ok(Some(_)) <==> args.setup_nat && args.nat_iface is Some && is_ipv4(
            args.tun.address_v4@,
        ),
{
}

/// A setup that is asked for connects the tunnel of the arguments, with its own name, address and
/// prefix, with the interface of the arguments.
pub proof fn law_the_setup_connects_what_is_named(args: ServerArgs)
    requires
        args.tun.prefix_v4 <= 32,
    ensures
        nat_plan(args) matches Ok(Some(steps)) ==> connects(
            steps,
            args.tun.name@,
            args.tun.address_v4@,
            args.tun.prefix_v4 as nat,
            args.nat_iface->0@,
        ),
{
    if nat_plan(args) matches Ok(Some(_)) {
        law_nat_connects_tunnel_and_world(
            args.tun.name@,
            args.tun.address_v4@,
            args.tun.prefix_v4 as nat,
            args.nat_iface->0@,
        );
    }
}

/// The text of the tunnel's network is that of its first address and the numeral of its prefix, so an
/// address lies in the range exactly where it shares the network of the tunnel's address.
pub proof fn law_the_range_is_the_tunnels_network(
    tun_addr: Seq<char>,
    prefix: nat,
    addr: Seq<char>,
)
    requires
        is_ipv4(tun_addr),
        prefix <= 32,
    ensures
        is_range_of(cidr_text(tun_addr, prefix), tun_addr, prefix),
        range_holds(cidr_text(tun_addr, prefix), addr) <==> network_number(
            ipv4_number(ipv4_octets(addr)),
            prefix,
        ) == network_number(ipv4_number(ipv4_octets(tun_addr)), prefix),
{
    let net = network_text(tun_addr, prefix);
    let length = decimal(prefix);
    reveal_strlit("/");
    assert("/"@ =~= seq!['/']);
    law_network_text_reads_back(tun_addr, prefix);
    law_decimal_reads_back(prefix);
    law_decimals_differ(prefix, prefix);
    law_field_without_separator(net, '/');
    law_fields_after_separator(net, '/', length);
    assert(fields(cidr_text(tun_addr, prefix), '/') =~= seq![net, length]);
    law_range_holds_its_network(cidr_text(tun_addr, prefix), tun_addr, prefix, addr, prefix);
}

/// The text of a range determines its prefix and its network: two tunnels have the same range only
/// where both agree.
pub proof fn law_ranges_differ(a: Seq<char>, p: nat, b: Seq<char>, q: nat)
    requires
        is_ipv4(a) && is_ipv4(b),
        p <= 32 && q <= 32,
    ensures
        cidr_text(a, p) == cidr_text(b, q) <==> p == q && network_number(
            ipv4_number(ipv4_octets(a)),
            p,
        ) == network_number(ipv4_number(ipv4_octets(b)), q),
{
    law_the_range_is_the_tunnels_network(a, p, a);
    law_the_range_is_the_tunnels_network(b, q, b);
}

proof fn lemma_rule_words()
    ensures
        "-C"@ != "-A"@ && "-C"@ != "-i"@ && "-C"@ != "-o"@ && "-C"@ != "-j"@ && "-C"@ != "-m"@,
        "-C"@ != "-s"@ && "-C"@ != "-t"@ && "-C"@ != "--ctstate"@,
        "-A"@ != "-i"@ && "-A"@ != "-o"@ && "-A"@ != "-j"@ && "-A"@ != "-m"@,
        "-A"@ != "-s"@ && "-A"@ != "-t"@ && "-A"@ != "--ctstate"@,
        "-i"@ != "-o"@ && "-i"@ != "-j"@ && "-i"@ != "-m"@ && "-i"@ != "-s"@ && "-i"@ != "-t"@,
        "-i"@ != "--ctstate"@ && "-o"@ != "--ctstate"@ && "-j"@ != "--ctstate"@,
        "-m"@ != "--ctstate"@ && "-s"@ != "--ctstate"@ && "-t"@ != "--ctstate"@,
        "-o"@ != "-j"@ && "-o"@ != "-m"@ && "-o"@ != "-s"@ && "-o"@ != "-t"@,
        "-j"@ != "-m"@ && "-j"@ != "-s"@ && "-j"@ != "-t"@,
        "-m"@ != "-s"@ && "-m"@ != "-t"@ && "-s"@ != "-t"@,
{
    reveal_strlit("-C");
    reveal_strlit("-A");
    reveal_strlit("-i");
    reveal_strlit("-o");
    reveal_strlit("-j");
    reveal_strlit("-m");
    reveal_strlit("-s");
    reveal_strlit("-t");
    reveal_strlit("--ctstate");
    assert("--ctstate"@.len() == 9);
    assert("-C"@[1] == 'C' && "-A"@[1] == 'A' && "-i"@[1] == 'i' && "-o"@[1] == 'o');
    assert("-j"@[1] == 'j' && "-m"@[1] == 'm' && "-s"@[1] == 's' && "-t"@[1] == 't');
}

/// The steps of the server's setup connect the tunnel's network with the world, whatever the names,
/// the address and the prefix are.
pub proof fn law_nat_connects_tunnel_and_world(
    tun_name: Seq<char>,
    tun_addr: Seq<char>,
    prefix: nat,
    wan_iface: Seq<char>,
)
    requires
        is_ipv4(tun_addr),
        prefix <= 32,
    ensures
        connects(
            nat_steps(tun_name, cidr_text(tun_addr, prefix), wan_iface),
            tun_name,
            tun_addr,
            prefix,
            wan_iface,
        ),
{
    let cidr = cidr_text(tun_addr, prefix);
    let steps = nat_steps(tun_name, cidr, wan_iface);
    law_the_range_is_the_tunnels_network(tun_addr, prefix, tun_addr);
    law_link_up_names_the_interface(tun_name);
    reveal_strlit("dev");
    reveal_strlit("via");
    assert(cidr != "dev"@ && cidr != "via"@) by {
        law_network_text_reads_back(tun_addr, prefix);
        reveal_strlit("/");
        let net = network_text(tun_addr, prefix);
        assert(cidr[net.len() as int] == '/');
        assert("dev"@ =~= seq!['d', 'e', 'v'] && "via"@ =~= seq!['v', 'i', 'a']);
    }
    law_route_replace_names_range_and_interface(cidr, tun_name);
    lemma_forward_out(tun_name, wan_iface);
    lemma_forward_back(tun_name, wan_iface);
    lemma_masquerade(cidr, wan_iface);
    assert(steps[3] == ensure_rule(forward_out(tun_name, wan_iface)));
    assert(steps[4] == ensure_rule(forward_back(tun_name, wan_iface)));
    assert(steps[5] == ensure_nat_rule(masquerade(cidr, wan_iface)));
}

proof fn lemma_forward_out(tun_name: Seq<char>, wan_iface: Seq<char>)
    ensures
        adds_the_checked_rule(ensure_rule(forward_out(tun_name, wan_iface)), "FORWARD"@),
        checks_for(ensure_rule(forward_out(tun_name, wan_iface)), "-i"@, Some(tun_name)),
        checks_for(ensure_rule(forward_out(tun_name, wan_iface)), "-o"@, Some(wan_iface)),
        checks_for(ensure_rule(forward_out(tun_name, wan_iface)), "-m"@, None),
        checks_for(ensure_rule(forward_out(tun_name, wan_iface)), "-j"@, Some("ACCEPT"@)),
{
    let a = forward_out(tun_name, wan_iface);
    let b = adding(a);
    lemma_rule_words();
    assert(a.skip(2) =~= seq!["-i"@, tun_name, "-o"@, wan_iface, "-j"@, "ACCEPT"@]);
    assert(b.skip(2) =~= a.skip(2));
    assert(a.skip(2).skip(2) =~= seq!["-o"@, wan_iface, "-j"@, "ACCEPT"@]);
    assert(a.skip(2).skip(2).skip(2) =~= seq!["-j"@, "ACCEPT"@]);
    assert(a.skip(2).skip(2).skip(2).skip(2) =~= Seq::<Seq<char>>::empty());
    reveal_with_fuel(option_value, 5);
}

proof fn lemma_forward_back(tun_name: Seq<char>, wan_iface: Seq<char>)
    ensures
        adds_the_checked_rule(ensure_rule(forward_back(tun_name, wan_iface)), "FORWARD"@),
        checks_for(ensure_rule(forward_back(tun_name, wan_iface)), "-i"@, Some(wan_iface)),
        checks_for(ensure_rule(forward_back(tun_name, wan_iface)), "-o"@, Some(tun_name)),
        checks_for(ensure_rule(forward_back(tun_name, wan_iface)), "-m"@, Some("conntrack"@)),
        checks_for(
            ensure_rule(forward_back(tun_name, wan_iface)),
            "--ctstate"@,
            Some("RELATED,ESTABLISHED"@),
        ),
        checks_for(ensure_rule(forward_back(tun_name, wan_iface)), "-j"@, Some("ACCEPT"@)),
{
    let a = forward_back(tun_name, wan_iface);
    let b = adding(a);
    lemma_rule_words();
    let from_o = seq![
        "-o"@,
        tun_name,
        "-m"@,
        "conntrack"@,
        "--ctstate"@,
        "RELATED,ESTABLISHED"@,
        "-j"@,
        "ACCEPT"@,
    ];
    assert(a.skip(2) =~= seq!["-i"@, wan_iface] + from_o);
    assert(b.skip(2) =~= a.skip(2));
    assert(a.skip(2).skip(2) =~= from_o);
    let from_m = from_o.skip(2);
    assert(from_m =~= seq![
        "-m"@,
        "conntrack"@,
        "--ctstate"@,
        "RELATED,ESTABLISHED"@,
        "-j"@,
        "ACCEPT"@,
    ]);
    assert(from_m.skip(2) =~= seq!["--ctstate"@, "RELATED,ESTABLISHED"@, "-j"@, "ACCEPT"@]);
    assert(from_m.skip(2).skip(2) =~= seq!["-j"@, "ACCEPT"@]);
    assert(from_m.skip(2).skip(2).skip(2) =~= Seq::<Seq<char>>::empty());
    reveal_with_fuel(option_value, 7);
}

proof fn lemma_masquerade(cidr: Seq<char>, wan_iface: Seq<char>)
    ensures
        adds_the_checked_rule(ensure_nat_rule(masquerade(cidr, wan_iface)), "POSTROUTING"@),
        checks_for(ensure_nat_rule(masquerade(cidr, wan_iface)), "-t"@, Some("nat"@)),
        checks_for(ensure_nat_rule(masquerade(cidr, wan_iface)), "-s"@, Some(cidr)),
        checks_for(ensure_nat_rule(masquerade(cidr, wan_iface)), "-i"@, None),
        checks_for(ensure_nat_rule(masquerade(cidr, wan_iface)), "-o"@, Some(wan_iface)),
        checks_for(ensure_nat_rule(masquerade(cidr, wan_iface)), "-j"@, Some("MASQUERADE"@)),
{
    let table = seq!["-t"@, "nat"@];
    let m = masquerade(cidr, wan_iface);
    let a = table + m;
    let b = table + adding(m);
    lemma_rule_words();
    assert(a.skip(2) =~= m);
    assert(b.skip(2) =~= adding(m));
    assert(m.skip(2) =~= seq!["-s"@, cidr, "-o"@, wan_iface, "-j"@, "MASQUERADE"@]);
    assert(adding(m).skip(2) =~= m.skip(2));
    assert(m.skip(2).skip(2) =~= seq!["-o"@, wan_iface, "-j"@, "MASQUERADE"@]);
    assert(m.skip(2).skip(2).skip(2) =~= seq!["-j"@, "MASQUERADE"@]);
    assert(m.skip(2).skip(2).skip(2).skip(2) =~= Seq::<Seq<char>>::empty());
    assert(a[0] == "-t"@ && b[0] == "-t"@ && a[1] == "nat"@);
    reveal_with_fuel(option_value, 6);
}

/// A rule is added by the program and with the arguments that it was checked for with, the first one
/// of which is `-A` then, and the failure to add it is reported as that command.
pub proof fn law_a_rule_is_checked_for_and_added(check_args: Seq<Seq<char>>)
    requires
        check_args.len() > 0,
        check_args[0] == "-C"@,
    ensures
        ensure_rule(check_args) matches StepText::Ensure { check, add, failure } && {
            &&& check.program == "iptables"@ && add.program == "iptables"@
            &&& check.args == check_args
            &&& add.args == check_args.update(0, "-A"@)
            &&& failure == failure_text(add)
        },
        ensure_nat_rule(check_args) matches StepText::Ensure { check, add, failure } && {
            &&& check.program == "iptables"@ && add.program == "iptables"@
            &&& check.args.take(2) == seq!["-t"@, "nat"@] && check.args.skip(2) == check_args
            &&& add.args == check.args.update(2, "-A"@)
            &&& failure == "iptables NAT failed"@
        },
{
    let table = seq!["-t"@, "nat"@];
    assert((table + check_args).take(2) =~= table);
    assert((table + check_args).skip(2) =~= check_args);
    assert(table + adding(check_args) =~= (table + check_args).update(2, "-A"@));
}

} // verus!

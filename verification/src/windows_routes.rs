//! The client's routes on Windows.

use vstd::arithmetic::power2::pow2;
use vstd::prelude::*;
use vstd::string::*;

use crate::addr::{
    dotted, ipv4_bytes, ipv4_from_number, ipv4_number, ipv4_octets, ipv4_to_number,
    ipv4_to_string, is_ipv4, law_every_address_is_in_one_half, network, network_number,
    network_text, parse_ipv4, SocketAddr,
};
use crate::command::{command, slice_texts, Command, CommandText, ErrorText};
use crate::linux_routes::{lemma_halves_follow, lemma_halves_plan};
use crate::setup::{
    after_replies, answers, exits, run_command_step, run_step, script_commands, step_texts,
    transcript, ReplyText, Setup, Step, StepText,
};
use crate::text::{
    double_quotes, doubled_quotes, from_utf8_lossy, law_doubled_quotes_are_a_literal,
    literal_value, lossy_utf8, trim, trimmed,
};
use crate::tun::TunParams;

verus! {

/// The script that prints the index of an adapter.
pub open spec fn adapter_script(adapter: Seq<char>) -> Seq<char> {
    "(Get-NetAdapter -Name '"@ + doubled_quotes(adapter) + "').ifIndex"@
}

/// The command that asks for the index of an adapter.
pub open spec fn adapter_query(adapter: Seq<char>) -> CommandText {
    CommandText {
        program: "powershell"@,
        args: seq!["-NoProfile"@, "-Command"@, adapter_script(adapter)],
    }
}

/// What is printed before the index of an adapter is asked for.
pub open spec fn adapter_echo(adapter: Seq<char>) -> Seq<char> {
    "[client] exec: powershell -Command "@ + adapter_script(adapter)
}

fn script(adapter: &str) -> (out: String)
    ensures
        out@ == adapter_script(adapter@),
{
    let mut out = "(Get-NetAdapter -Name '".to_owned();
    let name = double_quotes(adapter);
    out.append(name.as_str());
    out.append("').ifIndex");
    out
}

/// The command that asks for the index of an adapter.
pub(crate) fn query_adapter(adapter: &str) -> (c: Command)
    ensures
        c@ == adapter_query(adapter@),
{
    let text = script(adapter);
    let args = vec!["-NoProfile", "-Command", text.as_str()];
    assert(slice_texts(args@) =~= adapter_query(adapter@).args);
    command("powershell", args)
}

/// What is printed before the index of an adapter is asked for.
pub(crate) fn echo_adapter_query(adapter: &str) -> (out: String)
    ensures
        out@ == adapter_echo(adapter@),
{
    let mut out = "[client] exec: powershell -Command ".to_owned();
    let text = script(adapter);
    out.append(text.as_str());
    out
}

/// What a script printed: nothing where it did not succeed.
pub open spec fn captured(success: bool, stdout: Seq<u8>) -> Seq<char> {
    if success {
        lossy_utf8(stdout)
    } else {
        Seq::empty()
    }
}

/// What a script printed: nothing where it did not succeed.
pub fn powershell_capture(success: bool, stdout: &[u8]) -> (out: String)
    ensures
        out@ == captured(success, stdout@),
        success && vstd::utf8::valid_utf8(stdout@) ==> out@ == vstd::utf8::decode_utf8(stdout@),
        !success ==> out@.len() == 0,
{
    if success {
        from_utf8_lossy(stdout)
    } else {
        String::new()
    }
}

/// The index of an adapter as the script printed it, without the white space around it.
pub fn interface_index(success: bool, stdout: &[u8]) -> (out: String)
    ensures
        out@ == trimmed(captured(success, stdout@)),
        success && vstd::utf8::valid_utf8(stdout@) ==> out@ == trimmed(
            vstd::utf8::decode_utf8(stdout@),
        ),
{
    let output = powershell_capture(success, stdout);
    trim(output.as_str())
}

/// The command that adds a route to one half of the address space.
pub open spec fn half_route(
    half: Seq<char>,
    gateway: Seq<char>,
    index: Seq<char>,
) -> CommandText {
    CommandText {
        program: "route"@,
        args: seq!["ADD"@, half, "MASK"@, "128.0.0.0"@, gateway, "IF"@, index],
    }
}

/// The steps that add the routes to both halves of the address space: none where the adapter has no
/// index.
pub open spec fn adapter_steps(gateway: Seq<char>, index: Seq<char>) -> Seq<StepText> {
    if index.len() == 0 {
        Seq::empty()
    } else {
        seq![
            run_step(half_route("0.0.0.0"@, gateway, index)),
            run_step(half_route("128.0.0.0"@, gateway, index)),
        ]
    }
}

fn add_half_route(half: &str, gateway: &str, index: &str) -> (step: Step)
    ensures
        step@ == run_step(half_route(half@, gateway@, index@)),
{
    let args = vec!["ADD", half, "MASK", "128.0.0.0", gateway, "IF", index];
    assert(slice_texts(args@) =~= half_route(half@, gateway@, index@).args);
    run_command_step(command("route", args))
}

/// Puts the steps that add the routes through an adapter before the other steps.
pub(crate) fn push_adapter_steps(steps: &mut Vec<Step>, gateway: &str, index: &str)
    ensures
        step_texts(final(steps)@) == adapter_steps(gateway@, index@) + step_texts(old(steps)@),
        final(steps)@.len() == old(steps)@.len() + (if index@.len() == 0 { 0int } else { 2int }),
{
    let ghost before = step_texts(steps@);
    if index.is_empty() {
        assert(before =~= Seq::<StepText>::empty() + before);
        return;
    }
    let low = add_half_route("0.0.0.0", gateway, index);
    let high = add_half_route("128.0.0.0", gateway, index);
    steps.insert(0, high);
    steps.insert(0, low);
    assert(step_texts(steps@) =~= seq![low@, high@] + before);
}

/// The address after the first one of the network of `prefix` bits that holds the address `n`; the
/// last address of all is followed by the first.
pub open spec fn gateway_number(n: nat, prefix: nat) -> nat {
    (network_number(n, prefix) + 1) % 0x1_0000_0000
}

/// The gateway of a tunnel: the first host of the network of its address, or that of the default
/// network where the text is no IPv4 address.
pub open spec fn gateway_text(addr: Seq<char>, prefix: nat) -> Seq<char> {
    if is_ipv4(addr) {
        dotted(ipv4_bytes(gateway_number(ipv4_number(ipv4_octets(addr)), prefix)))
    } else {
        "10.0.0.1"@
    }
}

/// The first host of the network of a tunnel's address; `None` where the text is no IPv4 address.
pub fn derive_gateway_v4(addr: &str, prefix: u8) -> (gateway: Option<String>)
    requires
        is_ipv4(addr@) ==> prefix <= 32,
    ensures
        gateway is Some <==> is_ipv4(addr@),
        gateway matches Some(text) ==> text@ == gateway_text(addr@, prefix as nat),
        gateway matches Some(text) ==> is_ipv4(text@) && (ipv4_number(ipv4_octets(text@))
            + 0xffff_ffff) % 0x1_0000_0000 == network_number(
            ipv4_number(ipv4_octets(addr@)),
            prefix as nat,
        ),
{
    match parse_ipv4(addr) {
        Some(ip) => {
            let net = network(ipv4_to_number(&ip), prefix);
            let octets = ipv4_from_number(net.wrapping_add(1));
            proof {
                law_gateway_text_reads_back(addr@, prefix as nat);
            }
            Some(ipv4_to_string(&octets))
        },
        None => None,
    }
}

/// The steps that send all IPv4 traffic through the tunnel.
pub open spec fn route_steps(tun: TunParams) -> Seq<StepText> {
    seq![
        StepText::AdapterRoutes {
            adapter: tun.name@,
            gateway: gateway_text(tun.address_v4@, tun.prefix_v4 as nat),
        },
    ]
}

/// The setup that sends all IPv4 traffic through the tunnel. The address of the server plays no part
/// in it.
pub fn setup_routes_v4(tun: &TunParams, _server_ip: &str, verbose: bool) -> (setup: Setup)
    requires
        is_ipv4(tun.address_v4@) ==> tun.prefix_v4 <= 32,
    ensures
        setup.remaining() == route_steps(*tun),
        setup.verbose == verbose,
        setup.remaining().len() == 1,
        setup.remaining()[0] matches StepText::AdapterRoutes { adapter, gateway: _ } && adapter
            == tun.name@,
{
    let gateway = match derive_gateway_v4(tun.address_v4.as_str(), tun.prefix_v4) {
        Some(text) => text,
        None => "10.0.0.1".to_owned(),
    };
    let steps = vec![Step::AdapterRoutes { adapter: tun.name.clone(), gateway }];
    assert(step_texts(steps@) =~= route_steps(*tun));
    Setup { steps, verbose }
}

/// The setup of the client's routes: there is nothing to do for a server with an IPv6 address.
pub fn setup_routes(tun: &TunParams, server: &SocketAddr, verbose: bool) -> (setup: Setup)
    requires
        *server is V4 && is_ipv4(tun.address_v4@) ==> tun.prefix_v4 <= 32,
    ensures
        setup.remaining() == match *server {
            SocketAddr::V4 { .. } => route_steps(*tun),
            SocketAddr::V6 { .. } => Seq::empty(),
        },
        setup.verbose == verbose,
        setup.remaining().len() == 0 <==> *server is V6,
{
    match server {
        SocketAddr::V4 { ip, port: _ } => {
            let server_ip = ipv4_to_string(ip);
            setup_routes_v4(tun, server_ip.as_str(), verbose)
        },
        SocketAddr::V6 { .. } => {
            let steps: Vec<Step> = Vec::new();
            assert(step_texts(steps@) =~= Seq::<StepText>::empty());
            Setup { steps, verbose }
        },
    }
}

/// The gateway lies in the network of the tunnel's address, right after its first address, wherever
/// the network has more than one address.
pub proof fn law_gateway_is_the_first_host(n: nat, prefix: nat)
    requires
        n < 0x1_0000_0000,
        prefix < 32,
    ensures
        gateway_number(n, prefix) == network_number(n, prefix) + 1,
        network_number(gateway_number(n, prefix), prefix) == network_number(n, prefix),
{
    let unit = pow2((32 - prefix) as nat);
    vstd::arithmetic::power2::lemma_pow2_unfold((32 - prefix) as nat);
    vstd::arithmetic::power2::lemma_pow2_pos((31 - prefix) as nat);
    crate::addr::law_network_holds_its_addresses(n, network_number(n, prefix) + 1, prefix);
    let net = network_number(n, prefix);
    assert(net < 0xffff_ffff) by {
        if net == 0xffff_ffff {
            crate::addr::law_network_holds_its_addresses(net, net, prefix);
            vstd::arithmetic::div_mod::lemma_mod_decreases(net, unit);
            assert(net % unit == 0);
            assert(unit == 2 * pow2((31 - prefix) as nat));
            vstd::arithmetic::div_mod::lemma_fundamental_div_mod(net as int, unit as int);
            let half = pow2((31 - prefix) as nat) as int;
            let q = net as int / unit as int;
            assert(net == 2 * (half * q)) by (nonlinear_arith)
                requires
                    net == unit * q,
                    unit == 2 * half,
            ;
        }
    }
}

/// The text of the gateway is that of an address in the network of the tunnel, wherever that network
/// has more than one address.
pub proof fn law_gateway_text_is_in_the_network(addr: Seq<char>, prefix: nat)
    requires
        is_ipv4(addr),
        prefix < 32,
    ensures
        is_ipv4(gateway_text(addr, prefix)),
        network_text(gateway_text(addr, prefix), prefix) == network_text(addr, prefix),
{
    let octets = ipv4_octets(addr);
    let n = ipv4_number(octets);
    crate::addr::law_ipv4_number_round_trip(0, octets);
    law_gateway_is_the_first_host(n, prefix);
    let gateway = gateway_number(n, prefix);
    crate::addr::law_ipv4_number_round_trip(gateway, octets);
    crate::addr::law_ipv4_text_round_trip(ipv4_bytes(gateway));
}

/// The commands that add the routes through an adapter.
pub open spec fn adapter_commands(gateway: Seq<char>, index: Seq<char>) -> Seq<CommandText> {
    if index.len() == 0 {
        Seq::empty()
    } else {
        seq![
            half_route("0.0.0.0"@, gateway, index),
            half_route("128.0.0.0"@, gateway, index),
        ]
    }
}

/// The index that the answer to the client's first command reports.
pub open spec fn index_answered(replies: Seq<ReplyText>) -> Seq<char> {
    if replies.len() > 0 {
        match replies[0] {
            ReplyText::Exited { success, stdout } => trimmed(captured(success, stdout)),
            ReplyText::IoError => Seq::empty(),
        }
    } else {
        Seq::empty()
    }
}

/// Whatever is answered, the client runs a beginning of its plan: it asks for the adapter, and adds
/// the routes only where the adapter has an index.
pub proof fn law_adapter_is_asked_for_first(tun: TunParams, replies: Seq<ReplyText>)
    ensures
        transcript(route_steps(tun), replies).is_prefix_of(
            seq![adapter_query(tun.name@)] + adapter_commands(
                gateway_text(tun.address_v4@, tun.prefix_v4 as nat),
                index_answered(replies),
            ),
        ),
{
    let gateway = gateway_text(tun.address_v4@, tun.prefix_v4 as nat);
    let index = index_answered(replies);
    let query = adapter_query(tun.name@);
    let plan = seq![query] + adapter_commands(gateway, index);
    let steps = route_steps(tun);
    if replies.len() > 0 && replies[0] is Exited {
        assert(adapter_steps(gateway, index) + steps.drop_first() =~= adapter_steps(
            gateway,
            index,
        ));
        let tail = transcript(adapter_steps(gateway, index), replies.drop_first());
        if index.len() > 0 {
            lemma_halves_plan(
                half_route("0.0.0.0"@, gateway, index),
                half_route("128.0.0.0"@, gateway, index),
                replies.drop_first(),
            );
        }
        assert(tail.is_prefix_of(adapter_commands(gateway, index)));
        assert(seq![query] + tail =~= plan.take(1 + tail.len() as int));
    }
}

/// Where every command succeeds, the question for the adapter aside, the client adds all routes there
/// are to add and is then done.
pub proof fn law_adapter_routes_are_set_up_completely(tun: TunParams, replies: Seq<ReplyText>)
    requires
        replies.len() == 1 + adapter_commands(
            gateway_text(tun.address_v4@, tun.prefix_v4 as nat),
            index_answered(replies),
        ).len(),
        replies[0] is Exited,
        forall|i: int| 1 <= i < replies.len() ==> exits(#[trigger] replies[i], true),
    ensures
        transcript(route_steps(tun), replies) == seq![adapter_query(tun.name@)] + adapter_commands(
            gateway_text(tun.address_v4@, tun.prefix_v4 as nat),
            index_answered(replies),
        ),
        after_replies(route_steps(tun), replies) == Ok::<Seq<StepText>, ErrorText>(Seq::empty()),
{
    let gateway = gateway_text(tun.address_v4@, tun.prefix_v4 as nat);
    let index = index_answered(replies);
    let steps = route_steps(tun);
    let rest = replies.drop_first();
    assert(adapter_steps(gateway, index) + steps.drop_first() =~= adapter_steps(gateway, index));
    if index.len() > 0 {
        let low = half_route("0.0.0.0"@, gateway, index);
        let high = half_route("128.0.0.0"@, gateway, index);
        let script = seq![(low, true), (high, true)];
        lemma_halves_follow(low, high);
        assert(answers(script, rest)) by {
            assert(rest[0] == replies[1] && rest[1] == replies[2]);
        }
        assert(script_commands(script) =~= seq![low, high]);
    }
    let new = adapter_steps(gateway, index);
    assert(transcript(new, rest) == adapter_commands(gateway, index));
    assert(after_replies(new, rest) == Ok::<Seq<StepText>, ErrorText>(Seq::empty()));
}

/// The command that adds a route is about one half of the address space, and names the gateway and,
/// at its end, the index of the adapter, whatever they are.
pub proof fn law_half_route_names_gateway_and_adapter(
    half: Seq<char>,
    gateway: Seq<char>,
    index: Seq<char>,
)
    ensures
        half_route(half, gateway, index).program == "route"@,
        half_route(half, gateway, index).args.len() == 7,
        half_route(half, gateway, index).args[0] == "ADD"@,
        half_route(half, gateway, index).args[1] == half,
        half_route(half, gateway, index).args[2] == "MASK"@,
        half_route(half, gateway, index).args[3] == "128.0.0.0"@,
        half_route(half, gateway, index).args[4] == gateway,
        half_route(half, gateway, index).args[5] == "IF"@,
        half_route(half, gateway, index).args.last() == index,
{
}

/// Where the adapter has an index, every address is sent to the gateway through it by exactly one of
/// two commands; where it has none, nothing is run.
pub proof fn law_every_address_is_sent_through_the_adapter(
    gateway: Seq<char>,
    index: Seq<char>,
    n: nat,
)
    requires
        n < 0x1_0000_0000,
    ensures
        adapter_steps(gateway, index).len() == (if index.len() == 0 { 0int } else { 2int }),
        index.len() > 0 ==> (adapter_steps(gateway, index)[0] matches StepText::Run {
            command: low,
            failure: _,
        } && {
            adapter_steps(gateway, index)[1] matches StepText::Run { command: high, failure: _ } && {
                &&& (network_number(n, 1) == ipv4_number(ipv4_octets(low.args[1]))) != (
                network_number(n, 1) == ipv4_number(ipv4_octets(high.args[1])))
                &&& low.program == "route"@ && high.program == "route"@
                &&& low.args[4] == gateway && high.args[4] == gateway
                &&& low.args.last() == index && high.args.last() == index
            }
        }),
        ipv4_number(ipv4_octets("128.0.0.0"@)) + pow2(31) == 0x1_0000_0000,
{
    law_every_address_is_in_one_half(n);
    law_half_route_names_gateway_and_adapter("0.0.0.0"@, gateway, index);
    law_half_route_names_gateway_and_adapter("128.0.0.0"@, gateway, index);
    vstd::arithmetic::power2::lemma2_to64();
    assert(pow2(31) == 0x8000_0000);
}

/// The script asks for one adapter: what stands between its first and its last part is the body of a
/// literal that stands for the adapter's name, whatever characters that has.
pub proof fn law_script_names_the_adapter(adapter: Seq<char>)
    ensures
        "(Get-NetAdapter -Name '"@.is_prefix_of(adapter_script(adapter)),
        "').ifIndex"@.is_suffix_of(adapter_script(adapter)),
        literal_value(
            adapter_script(adapter).subrange(
                "(Get-NetAdapter -Name '"@.len() as int,
                adapter_script(adapter).len() - "').ifIndex"@.len(),
            ),
        ) == Some(adapter),
        adapter_query(adapter).program == "powershell"@,
        adapter_query(adapter).args.drop_last() == seq!["-NoProfile"@, "-Command"@],
        adapter_query(adapter).args.last() == adapter_script(adapter),
        "[client] exec: powershell -Command "@.is_prefix_of(adapter_echo(adapter)),
        adapter_script(adapter).is_suffix_of(adapter_echo(adapter)),
{
    let start = "(Get-NetAdapter -Name '"@;
    let end = "').ifIndex"@;
    let exec = "[client] exec: powershell -Command "@;
    let script = adapter_script(adapter);
    let body = doubled_quotes(adapter);
    law_doubled_quotes_are_a_literal(adapter);
    assert(script.take(start.len() as int) =~= start);
    assert(script.skip(script.len() - end.len()) =~= end);
    assert(script.subrange(start.len() as int, script.len() - end.len()) =~= body);
    assert(adapter_query(adapter).args.drop_last() =~= seq!["-NoProfile"@, "-Command"@]);
    let echo = adapter_echo(adapter);
    assert(echo.take(exec.len() as int) =~= exec);
    assert(echo.skip(echo.len() - script.len()) =~= script);
}

/// Two adapters with different names are asked for by different commands.
pub proof fn law_adapter_queries_differ(adapter: Seq<char>, other: Seq<char>)
    ensures
        adapter_query(adapter) == adapter_query(other) ==> adapter == other,
{
    law_script_names_the_adapter(adapter);
    law_script_names_the_adapter(other);
}

/// The gateway is the address after the first one of the network, for every prefix; only the last
/// address of all is followed by the first one.
pub proof fn law_gateway_follows_the_network(n: nat, prefix: nat)
    requires
        n < 0x1_0000_0000,
        prefix <= 32,
    ensures
        network_number(n, prefix) < 0xffff_ffff ==> gateway_number(n, prefix) == network_number(
            n,
            prefix,
        ) + 1,
        network_number(n, prefix) == 0xffff_ffff ==> gateway_number(n, prefix) == 0,
        prefix == 32 && n < 0xffff_ffff ==> gateway_number(n, prefix) == n + 1,
{
    crate::addr::law_network_holds_its_addresses(n, n, prefix);
    crate::addr::law_longer_prefixes_make_smaller_networks(n, prefix, 32);
}

/// The text of the gateway stands for that address where the tunnel's address is an IPv4 text, and is
/// that of a fixed address otherwise.
pub proof fn law_gateway_text_reads_back(addr: Seq<char>, prefix: nat)
    requires
        prefix <= 32,
    ensures
        is_ipv4(addr) ==> is_ipv4(gateway_text(addr, prefix)) && (ipv4_number(
            ipv4_octets(gateway_text(addr, prefix)),
        ) + 0xffff_ffff) % 0x1_0000_0000 == network_number(ipv4_number(ipv4_octets(addr)), prefix),
        !is_ipv4(addr) ==> gateway_text(addr, prefix) == "10.0.0.1"@,
{
    if is_ipv4(addr) {
        let octets = ipv4_octets(addr);
        let n = ipv4_number(octets);
        crate::addr::law_ipv4_number_round_trip(0, octets);
        crate::addr::law_network_holds_its_addresses(n, n, prefix);
        let gateway = gateway_number(n, prefix);
        crate::addr::law_ipv4_number_round_trip(gateway, octets);
        crate::addr::law_ipv4_text_round_trip(ipv4_bytes(gateway));
    }
}

/// The one step is about the adapter with the tunnel's name and the first host of its network.
pub proof fn law_the_adapter_is_the_tunnel(tun: TunParams)
    requires
        is_ipv4(tun.address_v4@),
        tun.prefix_v4 < 32,
    ensures
        route_steps(tun).len() == 1,
        route_steps(tun)[0] matches StepText::AdapterRoutes { adapter, gateway } && {
            &&& adapter == tun.name@
            &&& is_ipv4(gateway)
            &&& ipv4_number(ipv4_octets(gateway)) == network_number(
                ipv4_number(ipv4_octets(tun.address_v4@)),
                tun.prefix_v4 as nat,
            ) + 1
        },
{
    let octets = ipv4_octets(tun.address_v4@);
    let n = ipv4_number(octets);
    let prefix = tun.prefix_v4 as nat;
    crate::addr::law_ipv4_number_round_trip(0, octets);
    law_gateway_is_the_first_host(n, prefix);
    let gateway = gateway_number(n, prefix);
    assert(gateway < 0x1_0000_0000);
    crate::addr::law_ipv4_number_round_trip(gateway, octets);
    crate::addr::law_ipv4_text_round_trip(ipv4_bytes(gateway));
}

/// A script that did not succeed gave no index, whatever it printed, and nothing is run then.
pub proof fn law_a_failed_script_gives_no_index(stdout: Seq<u8>, gateway: Seq<char>)
    ensures
        captured(false, stdout).len() == 0,
        trimmed(captured(false, stdout)).len() == 0,
        adapter_steps(gateway, trimmed(captured(false, stdout))).len() == 0,
        captured(true, stdout) == lossy_utf8(stdout),
{
    assert(trimmed(captured(false, stdout)) =~= Seq::<char>::empty());
}

} // verus!

//! The client's routes on Linux.

use vstd::prelude::*;
use vstd::string::*;

use crate::addr::{
    dotted, ipv4_to_string, is_ipv4, law_every_address_is_in_one_range, range_holds, SocketAddr,
};
use crate::command::{command, slice_texts, Command, CommandText, ErrorText};
use crate::setup::{
    after_replies, answers, exits, follows, lemma_follows_nothing, lemma_follows_run,
    lemma_run_then_plan, run_command_step, run_step, script_commands, step_captures,
    step_command, step_texts, transcript, ReplyText, Setup, Step, StepText,
};
use crate::text::{
    from_utf8_lossy, is_word, joined, law_white_space_ends_no_word, law_words_of_joined,
    lossy_utf8, split_words, texts, words,
};
use crate::tun::TunParams;

verus! {

/// The keywords of `ip route get` that matter here, each with the word after it, from left to
/// right: a word that was read as a value is no keyword.
pub open spec fn route_fields(list: Seq<Seq<char>>) -> Seq<(Seq<char>, Seq<char>)>
    decreases list.len(),
{
    if list.len() < 2 {
        Seq::empty()
    } else if list[0] == "dev"@ || list[0] == "via"@ {
        seq![(list[0], list[1])] + route_fields(list.skip(2))
    } else {
        route_fields(list.skip(1))
    }
}

/// The value of the last field with the given keyword.
pub open spec fn last_value(fields: Seq<(Seq<char>, Seq<char>)>, key: Seq<char>) -> Option<
    Seq<char>,
>
    decreases fields.len(),
{
    if fields.len() == 0 {
        None
    } else if fields.last().0 == key {
        Some(fields.last().1)
    } else {
        last_value(fields.drop_last(), key)
    }
}

/// The interface and the gateway that the words of `ip route get` name; `None` where they name no
/// interface.
pub open spec fn route_of_words(list: Seq<Seq<char>>) -> Option<(Seq<char>, Option<Seq<char>>)> {
    let fields = route_fields(list);
    match last_value(fields, "dev"@) {
        Some(dev) => Some((dev, last_value(fields, "via"@))),
        None => None,
    }
}

/// The texts of an interface and a gateway.
pub open spec fn route_text(route: Option<(String, Option<String>)>) -> Option<
    (Seq<char>, Option<Seq<char>>),
> {
    match route {
        Some((dev, Some(via))) => Some((dev@, Some(via@))),
        Some((dev, None)) => Some((dev@, None)),
        None => None,
    }
}

spec fn option_text(s: Option<String>) -> Option<Seq<char>> {
    match s {
        Some(s) => Some(s@),
        None => None,
    }
}

/// The interface and the gateway in what `ip route get` printed.
pub fn parse_route(output: &str) -> (route: Option<(String, Option<String>)>)
    ensures
        route_text(route) == route_of_words(words(output@)),
{
    let tokens = split_words(output);
    let dev_key = "dev".to_owned();
    let via_key = "via".to_owned();
    let mut dev: Option<String> = None;
    let mut via: Option<String> = None;
    let mut i: usize = 0;
    let ghost list = words(output@);
    let ghost mut done: Seq<(Seq<char>, Seq<char>)> = Seq::empty();
    proof {
        assert(list.skip(0) =~= list);
        assert(done + route_fields(list) =~= route_fields(list));
        lemma_keywords_differ();
    }
    while i < tokens.len()
        invariant
            "dev"@ != "via"@,
            dev_key@ == "dev"@,
            via_key@ == "via"@,
            list == texts(tokens@),
            i <= tokens.len(),
            done + route_fields(list.skip(i as int)) == route_fields(list),
            option_text(dev) == last_value(done, "dev"@),
            option_text(via) == last_value(done, "via"@),
        decreases tokens.len() - i,
    {
        let ghost rest = list.skip(i as int);
        let is_dev = tokens[i] == dev_key;
        let is_via = tokens[i] == via_key;
        if (is_dev || is_via) && i + 1 < tokens.len() {
            let value = tokens[i + 1].clone();
            if is_dev {
                dev = Some(value);
            } else {
                via = Some(value);
            }
            proof {
                let before = done;
                done = done.push((rest[0], rest[1]));
                assert(done.drop_last() =~= before);
                assert(rest.skip(2) =~= list.skip(i + 2));
                assert(done + route_fields(list.skip(i + 2)) =~= before + route_fields(rest));
            }
            i = i + 2;
        } else {
            proof {
                assert(rest.skip(1) =~= list.skip(i + 1));
                assert(route_fields(rest) == route_fields(rest.skip(1)));
            }
            i = i + 1;
        }
    }
    assert(list.skip(tokens.len() as int) =~= Seq::<Seq<char>>::empty());
    assert(done =~= route_fields(list));
    match dev {
        Some(d) => Some((d, via)),
        None => None,
    }
}

/// The command that asks for the present route to an address.
pub open spec fn route_query(server_ip: Seq<char>) -> CommandText {
    CommandText { program: "ip"@, args: seq!["route"@, "get"@, server_ip] }
}

/// The command that asks for the present route to an address.
pub(crate) fn query_route(server_ip: &str) -> (c: Command)
    ensures
        c@ == route_query(server_ip@),
{
    let args = vec!["route", "get", server_ip];
    assert(slice_texts(args@) =~= seq!["route"@, "get"@, server_ip@]);
    command("ip", args)
}

/// The route that `ip route get` reports: none where it did not succeed.
pub open spec fn route_reported(success: bool, stdout: Seq<u8>) -> Option<
    (Seq<char>, Option<Seq<char>>),
> {
    if success {
        route_of_words(words(lossy_utf8(stdout)))
    } else {
        None
    }
}

/// The route that `ip route get` reports: the interface, and the gateway where there is one.
pub fn linux_route_get(success: bool, stdout: &[u8]) -> (route: Option<(String, Option<String>)>)
    ensures
        route_text(route) == route_reported(success, stdout@),
        success && vstd::utf8::valid_utf8(stdout@) ==> route_text(route) == route_of_words(
            words(vstd::utf8::decode_utf8(stdout@)),
        ),
{
    if !success {
        return None;
    }
    let output = from_utf8_lossy(stdout);
    parse_route(output.as_str())
}

/// The command that pins the route to the server.
pub open spec fn pin_command(
    server_ip: Seq<char>,
    dev: Seq<char>,
    via: Option<Seq<char>>,
) -> CommandText {
    CommandText {
        program: "ip"@,
        args: match via {
            Some(gateway) => seq![
                "route"@,
                "replace"@,
                server_ip + "/32"@,
                "via"@,
                gateway,
                "dev"@,
                dev,
            ],
            None => seq!["route"@, "replace"@, server_ip + "/32"@, "dev"@, dev],
        },
    }
}

/// Whether a command replaces the route to the one address `server_ip` by a route whose own words,
/// read as those of `ip route get`, name the interface and the gateway of `route`.
pub open spec fn pins_route(
    c: CommandText,
    server_ip: Seq<char>,
    route: Option<(Seq<char>, Option<Seq<char>>)>,
) -> bool {
    &&& c.program == "ip"@
    &&& c.args.len() >= 3
    &&& c.args[0] == "route"@
    &&& c.args[1] == "replace"@
    &&& c.args[2] == server_ip + "/32"@
    &&& route_of_words(c.args) == route
}

/// The steps that pin a route to the server: none where no route is known.
pub open spec fn pin_steps(
    server_ip: Seq<char>,
    route: Option<(Seq<char>, Option<Seq<char>>)>,
) -> Seq<StepText> {
    match route {
        Some((dev, via)) => seq![run_step(pin_command(server_ip, dev, via))],
        None => Seq::empty(),
    }
}

/// Puts the steps that pin a route to the server before the other steps.
pub(crate) fn push_pin_step(
    steps: &mut Vec<Step>,
    server_ip: &str,
    route: &Option<(String, Option<String>)>,
)
    ensures
        step_texts(final(steps)@) == pin_steps(server_ip@, route_text(*route)) + step_texts(
            old(steps)@,
        ),
        route is None ==> step_texts(final(steps)@) == step_texts(old(steps)@),
        route is Some ==> {
            let after = step_texts(final(steps)@);
            &&& after.len() == old(steps)@.len() + 1
            &&& after.skip(1) == step_texts(old(steps)@)
            &&& after[0] matches StepText::Run { command, failure: _ } && pins_route(
                command,
                server_ip@,
                route_text(*route),
            )
        },
{
    let ghost before = step_texts(steps@);
    match route {
        Some((dev, via)) => {
            let mut target = server_ip.to_owned();
            target.append("/32");
            let args = match via {
                Some(gateway) => vec![
                    "route",
                    "replace",
                    target.as_str(),
                    "via",
                    gateway.as_str(),
                    "dev",
                    dev.as_str(),
                ],
                None => vec!["route", "replace", target.as_str(), "dev", dev.as_str()],
            };
            proof {
                let (d, v) = route_text(*route)->0;
                assert(slice_texts(args@) =~= pin_command(server_ip@, d, v).args);
            }
            let step = run_command_step(command("ip", args));
            steps.insert(0, step);
            assert(step_texts(steps@) =~= seq![step@] + before);
            assert(step_texts(steps@).skip(1) =~= before);
            proof {
                let (d, v) = route_text(*route)->0;
                law_pin_command_names_the_route(server_ip@, d, v);
            }
        },
        None => {
            assert(before =~= Seq::<StepText>::empty() + before);
        },
    }
}

/// The command that brings an interface up.
pub open spec fn link_up(name: Seq<char>) -> CommandText {
    CommandText { program: "ip"@, args: seq!["link"@, "set"@, "dev"@, name, "up"@] }
}

/// The command that brings an interface up.
pub(crate) fn bring_up(name: &str) -> (c: Command)
    ensures
        c@ == link_up(name@),
{
    let args = vec!["link", "set", "dev", name, "up"];
    assert(slice_texts(args@) =~= link_up(name@).args);
    command("ip", args)
}

/// The command that sends a range of addresses through an interface.
pub open spec fn route_replace(range: Seq<char>, name: Seq<char>) -> CommandText {
    CommandText { program: "ip"@, args: seq!["route"@, "replace"@, range, "dev"@, name] }
}

/// The command that sends a range of addresses through an interface.
pub(crate) fn replace_route(range: &str, name: &str) -> (c: Command)
    ensures
        c@ == route_replace(range@, name@),
{
    let args = vec!["route", "replace", range, "dev", name];
    assert(slice_texts(args@) =~= route_replace(range@, name@).args);
    command("ip", args)
}

/// The steps that send all IPv4 traffic through the interface `name`: the route to the server is
/// pinned first, then each half of the address space is sent through the interface.
pub open spec fn route_steps(name: Seq<char>, server_ip: Seq<char>) -> Seq<StepText> {
    seq![
        run_step(link_up(name)),
        StepText::PinServer { server_ip },
        run_step(route_replace("0.0.0.0/1"@, name)),
        run_step(route_replace("128.0.0.0/1"@, name)),
    ]
}

/// The setup that sends all IPv4 traffic through the tunnel.
pub fn setup_routes_v4(tun: &TunParams, server_ip: &str, verbose: bool) -> (setup: Setup)
    ensures
        setup.remaining() == route_steps(tun.name@, server_ip@),
        setup.verbose == verbose,
        setup.remaining().contains((StepText::PinServer { server_ip: server_ip@ })),
{
    let steps = vec![
        run_command_step(bring_up(tun.name.as_str())),
        Step::PinServer { server_ip: server_ip.to_owned() },
        run_command_step(replace_route("0.0.0.0/1", tun.name.as_str())),
        run_command_step(replace_route("128.0.0.0/1", tun.name.as_str())),
    ];
    assert(step_texts(steps@) =~= route_steps(tun.name@, server_ip@));
    assert(route_steps(tun.name@, server_ip@)[1] == (StepText::PinServer { server_ip: server_ip@ }));
    Setup { steps, verbose }
}

/// The setup of the client's routes: there is nothing to do for a server with an IPv6 address.
pub fn setup_routes(tun: &TunParams, server: &SocketAddr, verbose: bool) -> (setup: Setup)
    ensures
        setup.remaining() == match *server {
            SocketAddr::V4 { ip, port: _ } => route_steps(tun.name@, dotted(ip@)),
            SocketAddr::V6 { .. } => Seq::empty(),
        },
        setup.verbose == verbose,
        *server matches SocketAddr::V4 { ip, port: _ } ==> setup.remaining().contains(
            (StepText::PinServer { server_ip: dotted(ip@) }),
        ),
        setup.remaining().len() == 0 <==> *server is V6,
{
    match server {
        SocketAddr::V4 { ip, port: _ } => {
            let server_ip = ipv4_to_string(ip);
            setup_routes_v4(tun, server_ip.as_str(), verbose)
        },
        SocketAddr::V6 { .. } => {
            let steps: Vec<Step> = Vec::new();
            assert(step_texts(steps@) =~= Seq::<StepText>::empty());
            Setup { steps, verbose }
        },
    }
}

/// The commands that pin a route to the server.
pub open spec fn pin_commands(
    server_ip: Seq<char>,
    route: Option<(Seq<char>, Option<Seq<char>>)>,
) -> Seq<CommandText> {
    match route {
        Some((dev, via)) => seq![pin_command(server_ip, dev, via)],
        None => Seq::empty(),
    }
}

/// The route that the answers to the client's commands report, the second of which is that to the
/// question for the route.
pub open spec fn route_answered(replies: Seq<ReplyText>) -> Option<(Seq<char>, Option<Seq<char>>)> {
    if replies.len() > 1 {
        match replies[1] {
            ReplyText::Exited { success, stdout } => route_reported(success, stdout),
            ReplyText::IoError => None,
        }
    } else {
        None
    }
}

/// The commands of the client when none of them fails.
pub open spec fn route_plan(
    name: Seq<char>,
    server_ip: Seq<char>,
    route: Option<(Seq<char>, Option<Seq<char>>)>,
) -> Seq<CommandText> {
    seq![link_up(name), route_query(server_ip)] + pin_commands(server_ip, route) + seq![
        route_replace("0.0.0.0/1"@, name),
        route_replace("128.0.0.0/1"@, name),
    ]
}

/// Whatever is answered, the client runs a beginning of its plan, and it goes past the command that
/// pins the reported route to the server only where that command succeeded: no traffic is sent
/// through the tunnel before that route is pinned.
pub proof fn law_server_is_pinned_before_the_default_routes(
    name: Seq<char>,
    server_ip: Seq<char>,
    replies: Seq<ReplyText>,
)
    ensures
        transcript(route_steps(name, server_ip), replies).is_prefix_of(
            route_plan(name, server_ip, route_answered(replies)),
        ),
        transcript(route_steps(name, server_ip), replies).len() > 3 && route_answered(replies) is Some
            ==> replies.len() > 2 && exits(replies[2], true),
{
    let low = route_replace("0.0.0.0/1"@, name);
    let high = route_replace("128.0.0.0/1"@, name);
    let ends = seq![run_step(low), run_step(high)];
    let pin = StepText::PinServer { server_ip };
    let steps = route_steps(name, server_ip);
    let route = route_answered(replies);
    let after_query = pin_commands(server_ip, route) + seq![low, high];
    assert(steps =~= seq![run_step(link_up(name))] + (seq![pin] + ends));
    if replies.len() > 0 {
        let answers = replies.drop_first();
        assert((seq![pin] + ends).drop_first() =~= ends);
        if answers.len() > 0 {
            assert(answers[0] == replies[1]);
            lemma_pinned_plan(server_ip, route, low, high, answers.drop_first());
        }
        let commands = transcript(seq![pin] + ends, answers);
        let plan = seq![route_query(server_ip)] + after_query;
        assert(commands.is_prefix_of(plan)) by {
            if answers.len() > 0 && answers[0] is Exited {
                let tail = transcript(pin_steps(server_ip, route) + ends, answers.drop_first());
                assert(commands == seq![route_query(server_ip)] + tail);
                assert(commands =~= plan.take(commands.len() as int));
            }
        }
        lemma_run_then_plan(link_up(name), seq![pin] + ends, replies, plan);
        assert(seq![link_up(name)] + plan =~= route_plan(name, server_ip, route));
        if route is Some && !(replies.len() > 2 && exits(replies[2], true)) {
            let later = answers.drop_first();
            let pinned = pin_steps(server_ip, route) + ends;
            assert(later.len() > 0 ==> later[0] == replies[2]);
            assert(pinned[0] is Run);
            assert(transcript(pinned, later).len() == 1);
            assert(commands.len() <= 2);
            assert(Seq::<StepText>::empty() + steps.drop_first() =~= seq![pin] + ends);
        }
    }
}

proof fn lemma_pinned_plan(
    server_ip: Seq<char>,
    route: Option<(Seq<char>, Option<Seq<char>>)>,
    low: CommandText,
    high: CommandText,
    replies: Seq<ReplyText>,
)
    ensures
        transcript(pin_steps(server_ip, route) + seq![run_step(low), run_step(high)], replies)
            .is_prefix_of(pin_commands(server_ip, route) + seq![low, high]),
{
    let ends = seq![run_step(low), run_step(high)];
    match route {
        Some((dev, via)) => {
            let c = pin_command(server_ip, dev, via);
            if replies.len() > 0 {
                lemma_halves_plan(low, high, replies.drop_first());
            }
            lemma_run_then_plan(c, ends, replies, seq![low, high]);
        },
        None => {
            lemma_halves_plan(low, high, replies);
            assert(pin_steps(server_ip, route) + ends =~= ends);
            assert(pin_commands(server_ip, route) + seq![low, high] =~= seq![low, high]);
        },
    }
}

pub(crate) proof fn lemma_halves_plan(low: CommandText, high: CommandText, replies: Seq<ReplyText>)
    ensures
        transcript(seq![run_step(low), run_step(high)], replies).is_prefix_of(seq![low, high]),
{
    let none = Seq::<StepText>::empty();
    let nothing = Seq::<CommandText>::empty();
    if replies.len() > 0 {
        lemma_run_then_plan(high, none, replies.drop_first(), nothing);
    }
    assert(seq![run_step(high)] + none =~= seq![run_step(high)]);
    assert(seq![high] + nothing =~= seq![high]);
    lemma_run_then_plan(low, seq![run_step(high)], replies, seq![high]);
    assert(seq![run_step(low)] + seq![run_step(high)] =~= seq![run_step(low), run_step(high)]);
    assert(seq![low] + seq![high] =~= seq![low, high]);
}

/// Where every command succeeds, the question for the route aside, the client runs its whole plan
/// and is then done.
pub proof fn law_routes_are_set_up_completely(
    name: Seq<char>,
    server_ip: Seq<char>,
    replies: Seq<ReplyText>,
)
    requires
        replies.len() == route_plan(name, server_ip, route_answered(replies)).len(),
        exits(replies[0], true),
        replies[1] is Exited,
        forall|i: int| 2 <= i < replies.len() ==> exits(#[trigger] replies[i], true),
    ensures
        transcript(route_steps(name, server_ip), replies) == route_plan(
            name,
            server_ip,
            route_answered(replies),
        ),
        after_replies(route_steps(name, server_ip), replies) == Ok::<Seq<StepText>, ErrorText>(
            Seq::empty(),
        ),
{
    let low = route_replace("0.0.0.0/1"@, name);
    let high = route_replace("128.0.0.0/1"@, name);
    let ends = seq![run_step(low), run_step(high)];
    let pin = StepText::PinServer { server_ip };
    let steps = route_steps(name, server_ip);
    let route = route_answered(replies);
    let commands = pin_commands(server_ip, route) + seq![low, high];
    let script = commands.map_values(|c: CommandText| (c, true));
    let pinned = pin_steps(server_ip, route) + ends;
    assert(follows(pinned, script)) by {
        lemma_halves_follow(low, high);
        match route {
            Some((dev, via)) => {
                let c = pin_command(server_ip, dev, via);
                let halves = seq![(low, true), (high, true)];
                lemma_follows_run(c, crate::command::failure_text(c), ends, halves);
                assert(script =~= seq![(c, true)] + halves);
            },
            None => {
                assert(pinned =~= ends);
                assert(script =~= seq![(low, true), (high, true)]);
            },
        }
    }
    let first = replies.drop_first();
    let second = first.drop_first();
    assert(answers(script, second)) by {
        assert forall|i: int| 0 <= i < script.len() implies exits(
            #[trigger] second[i],
            script[i].1,
        ) by {
            assert(second[i] == replies[i + 2]);
        }
    }
    assert(script_commands(script) =~= commands);
    assert(steps =~= seq![run_step(link_up(name))] + (seq![pin] + ends));
    assert(Seq::<StepText>::empty() + steps.drop_first() =~= seq![pin] + ends);
    assert((seq![pin] + ends).drop_first() =~= ends);
    assert(first[0] == replies[1]);
    assert(transcript(seq![pin] + ends, first) == seq![route_query(server_ip)] + commands);
    assert(after_replies(seq![pin] + ends, first) == after_replies(pinned, second));
    assert(seq![link_up(name)] + (seq![route_query(server_ip)] + commands) =~= route_plan(
        name,
        server_ip,
        route,
    ));
}

pub(crate) proof fn lemma_halves_follow(low: CommandText, high: CommandText)
    ensures
        follows(seq![run_step(low), run_step(high)], seq![(low, true), (high, true)]),
{
    let none = Seq::<StepText>::empty();
    let nothing = Seq::<(CommandText, bool)>::empty();
    lemma_follows_nothing();
    lemma_follows_run(high, crate::command::failure_text(high), none, nothing);
    assert(seq![run_step(high)] + none =~= seq![run_step(high)]);
    assert(seq![(high, true)] + nothing =~= seq![(high, true)]);
    lemma_follows_run(
        low,
        crate::command::failure_text(low),
        seq![run_step(high)],
        seq![(high, true)],
    );
    assert(seq![run_step(low)] + seq![run_step(high)] =~= seq![run_step(low), run_step(high)]);
    assert(seq![(low, true)] + seq![(high, true)] =~= seq![(low, true), (high, true)]);
}

/// Words among which there is neither keyword hold no field.
proof fn lemma_no_fields(list: Seq<Seq<char>>)
    requires
        forall|i: int| 0 <= i < list.len() ==> #[trigger] list[i] != "dev"@ && list[i] != "via"@,
    ensures
        route_fields(list) == Seq::<(Seq<char>, Seq<char>)>::empty(),
    decreases list.len(),
{
    if list.len() >= 2 {
        assert(list[0] != "dev"@ && list[0] != "via"@);
        assert forall|i: int| 0 <= i < list.skip(1).len() implies #[trigger] list.skip(1)[i]
            != "dev"@ && list.skip(1)[i] != "via"@ by {
            assert(list.skip(1)[i] == list[i + 1]);
        }
        lemma_no_fields(list.skip(1));
    }
}

/// A route through a gateway is read as its interface and its gateway.
pub proof fn law_route_with_gateway_is_read(
    target: Seq<char>,
    via: Seq<char>,
    dev: Seq<char>,
    rest: Seq<Seq<char>>,
)
    requires
        target != "dev"@ && target != "via"@,
        forall|i: int| 0 <= i < rest.len() ==> #[trigger] rest[i] != "dev"@ && rest[i] != "via"@,
    ensures
        route_of_words(seq![target, "via"@, via, "dev"@, dev] + rest) == Some((dev, Some(via))),
{
    lemma_keywords_differ();
    lemma_no_fields(rest);
    let list = seq![target, "via"@, via, "dev"@, dev] + rest;
    let at_via = seq!["via"@, via, "dev"@, dev] + rest;
    let at_dev = seq!["dev"@, dev] + rest;
    assert(list.skip(1) =~= at_via);
    assert(at_via.skip(2) =~= at_dev);
    assert(at_dev.skip(2) =~= rest);
    assert(route_fields(at_dev) =~= seq![("dev"@, dev)]);
    assert(route_fields(at_via) =~= seq![("via"@, via), ("dev"@, dev)]);
    let fields = route_fields(list);
    assert(fields == seq![("via"@, via), ("dev"@, dev)]);
    assert(fields.drop_last() =~= seq![("via"@, via)]);
    reveal_with_fuel(last_value, 3);
}

/// A route without a gateway is read as its interface alone.
pub proof fn law_route_without_gateway_is_read(
    target: Seq<char>,
    dev: Seq<char>,
    rest: Seq<Seq<char>>,
)
    requires
        target != "dev"@ && target != "via"@,
        forall|i: int| 0 <= i < rest.len() ==> #[trigger] rest[i] != "dev"@ && rest[i] != "via"@,
    ensures
        route_of_words(seq![target, "dev"@, dev] + rest) == Some((dev, None::<Seq<char>>)),
{
    lemma_keywords_differ();
    lemma_no_fields(rest);
    let list = seq![target, "dev"@, dev] + rest;
    let at_dev = seq!["dev"@, dev] + rest;
    assert(list.skip(1) =~= at_dev);
    assert(at_dev.skip(2) =~= rest);
    assert(route_fields(at_dev) =~= seq![("dev"@, dev)]);
    let fields = route_fields(list);
    assert(fields == seq![("dev"@, dev)]);
    assert(fields.drop_last() =~= Seq::<(Seq<char>, Seq<char>)>::empty());
    reveal_with_fuel(last_value, 2);
}

/// What `ip route get` prints for a route through a gateway is read as the interface and the gateway.
pub proof fn law_printed_route_is_read(
    target: Seq<char>,
    via: Seq<char>,
    dev: Seq<char>,
    rest: Seq<Seq<char>>,
)
    requires
        is_word(target) && is_word(via) && is_word(dev),
        target != "dev"@ && target != "via"@,
        forall|i: int|
            0 <= i < rest.len() ==> is_word(#[trigger] rest[i]) && rest[i] != "dev"@ && rest[i]
                != "via"@,
    ensures
        route_of_words(
            words(
                joined(seq![target, "via"@, via, "dev"@, dev] + rest, seq![' ']).push('\n'),
            ),
        ) == Some((dev, Some(via))),
{
    let list = seq![target, "via"@, via, "dev"@, dev] + rest;
    assert forall|i: int| 0 <= i < list.len() implies is_word(#[trigger] list[i]) by {
        reveal_strlit("dev");
        reveal_strlit("via");
        assert("dev"@ =~= seq!['d', 'e', 'v']);
        assert("via"@ =~= seq!['v', 'i', 'a']);
        if i >= 5 {
            assert(list[i] == rest[i - 5]);
        }
    }
    law_words_of_joined(list);
    law_white_space_ends_no_word(joined(list, seq![' ']), '\n');
    law_route_with_gateway_is_read(target, via, dev, rest);
}

proof fn lemma_keywords_differ()
    ensures
        "dev"@ != "via"@,
{
    reveal_strlit("dev");
    reveal_strlit("via");
    assert("dev"@[0] != "via"@[0]);
}

/// The words before the fields of the commands that change routes and links are no keywords, nor is
/// the range of one address.
proof fn lemma_command_words(server_ip: Seq<char>)
    ensures
        "route"@ != "dev"@ && "route"@ != "via"@,
        "replace"@ != "dev"@ && "replace"@ != "via"@,
        "link"@ != "dev"@ && "link"@ != "via"@,
        "set"@ != "dev"@ && "set"@ != "via"@,
        server_ip + "/32"@ != "dev"@ && server_ip + "/32"@ != "via"@,
{
    reveal_strlit("dev");
    reveal_strlit("via");
    reveal_strlit("route");
    reveal_strlit("replace");
    reveal_strlit("link");
    reveal_strlit("set");
    reveal_strlit("/32");
    assert("route"@.len() == 5 && "replace"@.len() == 7 && "link"@.len() == 4);
    assert("set"@[0] == 's' && "dev"@[0] == 'd' && "via"@[0] == 'v');
    let target = server_ip + "/32"@;
    assert(target.last() == '2');
    assert("dev"@.last() == 'v' && "via"@.last() == 'a');
}

/// The command that pins the route to the server says which route that is: it is about the server's
/// address alone, and its own words name the interface and the gateway of the route, whatever they
/// are.
pub proof fn law_pin_command_names_the_route(
    server_ip: Seq<char>,
    dev: Seq<char>,
    via: Option<Seq<char>>,
)
    ensures
        pins_route(pin_command(server_ip, dev, via), server_ip, Some((dev, via))),
        pin_command(server_ip, dev, via).args.len() == (if via is Some { 7int } else { 5int }),
{
    let list = pin_command(server_ip, dev, via).args;
    lemma_command_words(server_ip);
    let at_replace = list.skip(1);
    let none = Seq::<Seq<char>>::empty();
    match via {
        Some(gateway) => {
            let known = seq![server_ip + "/32"@, "via"@, gateway, "dev"@, dev];
            assert(at_replace.skip(1) =~= known + none);
            law_route_with_gateway_is_read(server_ip + "/32"@, gateway, dev, none);
        },
        None => {
            let known = seq![server_ip + "/32"@, "dev"@, dev];
            assert(at_replace.skip(1) =~= known + none);
            law_route_without_gateway_is_read(server_ip + "/32"@, dev, none);
        },
    }
    assert(list[0] == "route"@ && at_replace[0] == "replace"@);
    assert(route_fields(list) == route_fields(at_replace));
    assert(route_fields(at_replace) == route_fields(at_replace.skip(1)));
}

/// A pinned route is the reported one: with two different routes, or for two different servers, the
/// commands that pin them differ.
pub proof fn law_pin_commands_differ(
    server_ip: Seq<char>,
    route: (Seq<char>, Option<Seq<char>>),
    other_ip: Seq<char>,
    other: (Seq<char>, Option<Seq<char>>),
)
    ensures
        pin_command(server_ip, route.0, route.1) == pin_command(other_ip, other.0, other.1)
            ==> server_ip == other_ip && route == other,
{
    law_pin_command_names_the_route(server_ip, route.0, route.1);
    law_pin_command_names_the_route(other_ip, other.0, other.1);
    if pin_command(server_ip, route.0, route.1) == pin_command(other_ip, other.0, other.1) {
        let range = server_ip + "/32"@;
        let other_range = other_ip + "/32"@;
        assert(range == other_range);
        assert(server_ip =~= range.take(range.len() - "/32"@.len()));
        assert(other_ip =~= other_range.take(other_range.len() - "/32"@.len()));
    }
}

/// The command that brings an interface up names that interface and no gateway, and ends with `up`.
pub proof fn law_link_up_names_the_interface(name: Seq<char>)
    ensures
        link_up(name).program == "ip"@,
        link_up(name).args[0] == "link"@ && link_up(name).args[1] == "set"@,
        link_up(name).args.len() == 5 && link_up(name).args.last() == "up"@,
        route_of_words(link_up(name).args) == Some((name, None::<Seq<char>>)),
{
    let list = link_up(name).args;
    lemma_command_words(name);
    let rest = seq!["up"@];
    reveal_strlit("up");
    assert("up"@.len() == 2);
    reveal_strlit("dev");
    reveal_strlit("via");
    assert(list.skip(1) =~= seq!["set"@, "dev"@, name] + rest);
    law_route_without_gateway_is_read("set"@, name, rest);
    assert(route_fields(list) == route_fields(list.skip(1)));
}

/// The command that sends a range through an interface is about that range, and its own words name
/// that interface and no gateway.
pub proof fn law_route_replace_names_range_and_interface(range: Seq<char>, name: Seq<char>)
    requires
        range != "dev"@ && range != "via"@,
    ensures
        route_replace(range, name).program == "ip"@,
        route_replace(range, name).args.len() == 5,
        route_replace(range, name).args[0] == "route"@,
        route_replace(range, name).args[1] == "replace"@,
        route_replace(range, name).args[2] == range,
        route_of_words(route_replace(range, name).args) == Some((name, None::<Seq<char>>)),
{
    let list = route_replace(range, name).args;
    lemma_command_words(name);
    let none = Seq::<Seq<char>>::empty();
    let at_replace = list.skip(1);
    assert(at_replace.skip(1) =~= seq![range, "dev"@, name] + none);
    law_route_without_gateway_is_read(range, name, none);
    assert(list[0] == "route"@ && at_replace[0] == "replace"@);
    assert(route_fields(list) == route_fields(at_replace));
    assert(route_fields(at_replace) == route_fields(at_replace.skip(1)));
}

/// The question for a route is about exactly one address, the last word of it.
pub proof fn law_route_is_asked_for_one_address(server_ip: Seq<char>, other_ip: Seq<char>)
    ensures
        route_query(server_ip).program == "ip"@,
        route_query(server_ip).args.drop_last() == seq!["route"@, "get"@],
        route_query(server_ip).args.last() == server_ip,
        route_query(server_ip) == route_query(other_ip) ==> server_ip == other_ip,
{
    assert(route_query(server_ip).args.drop_last() =~= seq!["route"@, "get"@]);
    assert(route_query(server_ip).args.last() == server_ip);
    assert(route_query(other_ip).args.last() == other_ip);
}

/// Fields are read from left to right: a keyword takes the word after it with it, any other word is
/// passed over, and a keyword without a word after it counts for nothing.
pub proof fn law_fields_are_read_from_the_left(
    word: Seq<char>,
    value: Seq<char>,
    rest: Seq<Seq<char>>,
)
    ensures
        word == "dev"@ || word == "via"@ ==> route_fields(seq![word, value] + rest) == seq![
            (word, value),
        ] + route_fields(rest),
        word != "dev"@ && word != "via"@ ==> route_fields(seq![word] + rest) == route_fields(rest),
        route_fields(seq![word]) == Seq::<(Seq<char>, Seq<char>)>::empty(),
        route_fields(Seq::empty()) == Seq::<(Seq<char>, Seq<char>)>::empty(),
{
    assert((seq![word, value] + rest).skip(2) =~= rest);
    assert((seq![word] + rest).skip(1) =~= rest);
}

/// Of several interfaces or gateways that are named, the last one counts; the fields of the other
/// keyword do not matter to it.
pub proof fn law_the_last_field_counts(
    fields: Seq<(Seq<char>, Seq<char>)>,
    key: Seq<char>,
    value: Seq<char>,
    other: Seq<char>,
)
    ensures
        last_value(fields.push((key, value)), key) == Some(value),
        other != key ==> last_value(fields.push((key, value)), other) == last_value(fields, other),
        last_value(Seq::empty(), key) is None,
{
    assert(fields.push((key, value)).drop_last() =~= fields);
}

/// A route is reported exactly where the question succeeded and the answer names an interface; what
/// a failed question printed does not matter.
pub proof fn law_a_failed_question_reports_no_route(stdout: Seq<u8>, other: Seq<u8>)
    ensures
        route_reported(false, stdout) is None,
        route_reported(true, stdout) is Some <==> last_value(
            route_fields(words(lossy_utf8(stdout))),
            "dev"@,
        ) is Some,
        lossy_utf8(stdout) == lossy_utf8(other) ==> route_reported(true, stdout)
            == route_reported(true, other),
{
}

/// Every IPv4 address is sent through the interface by exactly one of the last two commands of the
/// client, whatever the interface is called; neither of them names a gateway.
pub proof fn law_every_address_is_sent_through_the_interface(
    name: Seq<char>,
    server_ip: Seq<char>,
    addr: Seq<char>,
)
    requires
        is_ipv4(addr),
    ensures
        route_steps(name, server_ip).len() == 4,
        route_steps(name, server_ip)[2] matches StepText::Run { command: low, failure: _ } && {
            route_steps(name, server_ip)[3] matches StepText::Run { command: high, failure: _ } && {
                &&& range_holds(low.args[2], addr) != range_holds(high.args[2], addr)
                &&& low.program == "ip"@ && low.args[1] == "replace"@
                &&& high.program == "ip"@ && high.args[1] == "replace"@
                &&& route_of_words(low.args) == Some((name, None::<Seq<char>>))
                &&& route_of_words(high.args) == Some((name, None::<Seq<char>>))
            }
        },
{
    law_every_address_is_in_one_range(addr);
    reveal_strlit("dev");
    reveal_strlit("via");
    reveal_strlit("0.0.0.0/1");
    reveal_strlit("128.0.0.0/1");
    assert("dev"@.len() == 3 && "via"@.len() == 3);
    assert("0.0.0.0/1"@.len() == 9 && "128.0.0.0/1"@.len() == 11);
    law_route_replace_names_range_and_interface("0.0.0.0/1"@, name);
    law_route_replace_names_range_and_interface("128.0.0.0/1"@, name);
}

/// Before that, the interface is brought up and the route to the server is asked for.
pub proof fn law_the_interface_is_up_before_its_routes(name: Seq<char>, server_ip: Seq<char>)
    ensures
        step_command(route_steps(name, server_ip)[0]) == link_up(name),
        route_steps(name, server_ip)[0] is Run,
        step_command(route_steps(name, server_ip)[1]).args.last() == server_ip,
        step_captures(route_steps(name, server_ip)[1]),
{
    law_route_is_asked_for_one_address(server_ip, server_ip);
}

/// Whether `value` is that of the last field with the given keyword.
pub open spec fn is_last_field(
    fields: Seq<(Seq<char>, Seq<char>)>,
    key: Seq<char>,
    value: Seq<char>,
) -> bool {
    exists|i: int|
        0 <= i < fields.len() && #[trigger] fields[i] == (key, value) && (forall|j: int|
            i < j < fields.len() ==> (#[trigger] fields[j]).0 != key)
}

proof fn lemma_last_value(fields: Seq<(Seq<char>, Seq<char>)>, key: Seq<char>)
    ensures
        match last_value(fields, key) {
            Some(value) => is_last_field(fields, key, value),
            None => forall|i: int| 0 <= i < fields.len() ==> (#[trigger] fields[i]).0 != key,
        },
    decreases fields.len(),
{
    if fields.len() > 0 {
        let n = fields.len() - 1;
        let before = fields.drop_last();
        if fields[n].0 == key {
            assert(fields[n] == (key, fields[n].1));
        } else {
            lemma_last_value(before, key);
            if let Some(value) = last_value(before, key) {
                let i = choose|i: int|
                    0 <= i < before.len() && #[trigger] before[i] == (key, value) && (forall|j: int|
                        i < j < before.len() ==> (#[trigger] before[j]).0 != key);
                assert(fields[i] == (key, value));
                assert forall|j: int| i < j < fields.len() implies (#[trigger] fields[j]).0 != key by {
                    if j < n {
                        assert(before[j].0 != key);
                    }
                }
            } else {
                assert forall|j: int| 0 <= j < fields.len() implies (#[trigger] fields[j]).0
                    != key by {
                    if j < n {
                        assert(before[j].0 != key);
                    }
                }
            }
        }
    }
}

/// Words report a route exactly where they name an interface. It is the interface that they name last,
/// and the gateway is the one that they name last, or none where they name none, however many of
/// either there are.
pub proof fn law_the_route_is_the_one_named_last(list: Seq<Seq<char>>)
    ensures
        route_of_words(list) is None <==> (forall|i: int|
            0 <= i < route_fields(list).len() ==> (#[trigger] route_fields(list)[i]).0 != "dev"@),
        route_of_words(list) matches Some((dev, via)) ==> {
            &&& is_last_field(route_fields(list), "dev"@, dev)
            &&& via matches Some(gateway) ==> is_last_field(route_fields(list), "via"@, gateway)
            &&& via is None <==> (forall|i: int|
                0 <= i < route_fields(list).len() ==> (#[trigger] route_fields(list)[i]).0
                    != "via"@)
        },
{
    lemma_last_value(route_fields(list), "dev"@);
    lemma_last_value(route_fields(list), "via"@);
}

} // verus!

//! Setups: lists of commands, some of which depend on what an earlier one reported.

use vstd::prelude::*;
use vstd::string::*;
use vstd::utf8::{decode_utf8, valid_utf8};

use crate::command::{
    command_line, echo_line, echo_text, failure_message, failure_text, Command, CommandText,
    Error, ErrorText,
};
use crate::linux_routes::{
    linux_route_get, pin_steps, push_pin_step, query_route, route_of_words, route_query,
    route_reported,
};
use crate::text::{trimmed, words};
use crate::windows_routes::{
    adapter_echo, adapter_query, adapter_steps, captured, echo_adapter_query, interface_index,
    push_adapter_steps, query_adapter,
};

verus! {

/// One step of a setup.
#[derive(Debug, PartialEq, Eq)]
pub enum Step {
    /// Runs a command that has to succeed.
    Run { command: Command, failure: String },
    /// Checks for a rule and adds it where the check does not succeed.
    Ensure { check: Command, add: Command, failure: String },
    /// Asks for the present route to the server and pins it.
    PinServer { server_ip: String },
    /// Asks for the index of an adapter and adds the routes through it.
    AdapterRoutes { adapter: String, gateway: String },
}

/// The texts of a step.
#[verifier::ext_equal]
pub enum StepText {
    Run { command: CommandText, failure: Seq<char> },
    Ensure { check: CommandText, add: CommandText, failure: Seq<char> },
    PinServer { server_ip: Seq<char> },
    AdapterRoutes { adapter: Seq<char>, gateway: Seq<char> },
}

impl View for Step {
    type V = StepText;

    open spec fn view(&self) -> StepText {
        match self {
            Step::Run { command, failure } => StepText::Run {
                command: command@,
                failure: failure@,
            },
            Step::Ensure { check, add, failure } => StepText::Ensure {
                check: check@,
                add: add@,
                failure: failure@,
            },
            Step::PinServer { server_ip } => StepText::PinServer { server_ip: server_ip@ },
            Step::AdapterRoutes { adapter, gateway } => StepText::AdapterRoutes {
                adapter: adapter@,
                gateway: gateway@,
            },
        }
    }
}

/// The texts of a list of steps.
pub open spec fn step_texts(list: Seq<Step>) -> Seq<StepText> {
    list.map_values(|s: Step| s@)
}

/// The step that runs a command and reports the command where it fails.
pub open spec fn run_step(c: CommandText) -> StepText {
    StepText::Run { command: c, failure: failure_text(c) }
}

/// The step that runs a command and reports the command where it fails.
pub(crate) fn run_command_step(command: Command) -> (step: Step)
    ensures
        step@ == run_step(command@),
{
    let failure = failure_message(&command);
    Step::Run { command, failure }
}

/// How a command ended.
#[derive(Debug, PartialEq, Eq)]
pub enum Reply {
    /// It ran; what it printed is kept where the action asks for it.
    Exited { success: bool, stdout: Vec<u8> },
    /// It could not be run.
    IoError,
}

/// The contents of a reply.
pub enum ReplyText {
    Exited { success: bool, stdout: Seq<u8> },
    IoError,
}

impl View for Reply {
    type V = ReplyText;

    open spec fn view(&self) -> ReplyText {
        match self {
            Reply::Exited { success, stdout } => ReplyText::Exited {
                success: *success,
                stdout: stdout@,
            },
            Reply::IoError => ReplyText::IoError,
        }
    }
}

/// What is to be run next.
#[derive(Debug, PartialEq, Eq)]
pub struct Action {
    pub command: Command,
    /// Whether the output of the command is needed.
    pub captures: bool,
    /// What is printed before the command runs.
    pub echo: Option<String>,
}

/// The command of a step.
pub open spec fn step_command(step: StepText) -> CommandText {
    match step {
        StepText::Run { command, failure: _ } => command,
        StepText::Ensure { check, add: _, failure: _ } => check,
        StepText::PinServer { server_ip } => route_query(server_ip),
        StepText::AdapterRoutes { adapter, gateway: _ } => adapter_query(adapter),
    }
}

/// Whether the output of a step's command is needed.
pub open spec fn step_captures(step: StepText) -> bool {
    step is PinServer || step is AdapterRoutes
}

/// What is printed before a step's command runs, where anything is printed.
pub open spec fn step_echo(step: StepText) -> Seq<char> {
    match step {
        StepText::AdapterRoutes { adapter, gateway: _ } => adapter_echo(adapter),
        _ => echo_text(step_command(step)),
    }
}

/// The steps that come of a step whose command has run, or the error that ends the setup.
pub open spec fn step_result(step: StepText, success: bool, stdout: Seq<u8>) -> Result<
    Seq<StepText>,
    ErrorText,
> {
    match step {
        StepText::Run { command: _, failure } => if success {
            Ok(Seq::empty())
        } else {
            Err(ErrorText::Other(failure))
        },
        StepText::Ensure { check: _, add, failure } => if success {
            Ok(Seq::empty())
        } else {
            Ok(seq![StepText::Run { command: add, failure }])
        },
        StepText::PinServer { server_ip } => Ok(
            pin_steps(server_ip, route_reported(success, stdout)),
        ),
        StepText::AdapterRoutes { adapter: _, gateway } => Ok(
            adapter_steps(gateway, trimmed(captured(success, stdout))),
        ),
    }
}

/// The steps that are left once the command of the first one has been answered, or the error that
/// ends the setup.
pub open spec fn after_reply(steps: Seq<StepText>, reply: ReplyText) -> Result<
    Seq<StepText>,
    ErrorText,
> {
    match reply {
        ReplyText::IoError => Err(ErrorText::Io),
        ReplyText::Exited { success, stdout } => match step_result(steps[0], success, stdout) {
            Ok(new) => Ok(new + steps.drop_first()),
            Err(e) => Err(e),
        },
    }
}

/// Whether a command succeeded and printed valid UTF-8.
pub open spec fn answers_with_utf8(reply: ReplyText) -> bool {
    reply matches ReplyText::Exited { success, stdout } && success && valid_utf8(stdout)
}

/// A setup that is under way: the steps that are left.
#[derive(Debug, PartialEq, Eq)]
pub struct Setup {
    pub steps: Vec<Step>,
    /// Whether each command is printed before it runs.
    pub verbose: bool,
}

impl Setup {
    /// The texts of the steps that are left.
    pub open spec fn remaining(&self) -> Seq<StepText> {
        step_texts(self.steps@)
    }

    /// What is to be run next; `None` when the setup is done.
    pub fn next_action(&self) -> (action: Option<Action>)
        ensures
            action is None <==> self.remaining().len() == 0,
            action matches Some(a) ==> {
                &&& a.command@ == step_command(self.remaining()[0])
                &&& a.captures == step_captures(self.remaining()[0])
                &&& a.echo is Some <==> self.verbose
                &&& a.echo matches Some(line) ==> line@ == step_echo(self.remaining()[0])
                &&& match self.remaining()[0] {
                    StepText::Run { command, failure: _ } => a.command@ == command && !a.captures,
                    StepText::Ensure { check, add: _, failure: _ } => a.command@ == check
                        && !a.captures,
                    StepText::PinServer { server_ip } => a.command@.program == "ip"@
                        && a.command@.args.last() == server_ip && a.captures,
                    StepText::AdapterRoutes { adapter: _, gateway: _ } => a.command@.program
                        == "powershell"@ && a.captures,
                }
            },
    {
        if self.steps.len() == 0 {
            return None;
        }
        let step = &self.steps[0];
        assert(self.remaining()[0] == step@);
        let (command, captures) = match step {
            Step::Run { command, failure: _ } => (copy_command(command), false),
            Step::Ensure { check, add: _, failure: _ } => (copy_command(check), false),
            Step::PinServer { server_ip } => (query_route(server_ip.as_str()), true),
            Step::AdapterRoutes { adapter, gateway: _ } => (query_adapter(adapter.as_str()), true),
        };
        let echo = if self.verbose {
            Some(
                match step {
                    Step::AdapterRoutes { adapter, gateway: _ } => echo_adapter_query(
                        adapter.as_str(),
                    ),
                    _ => echo_line(&command),
                },
            )
        } else {
            None
        };
        Some(Action { command, captures, echo })
    }

    /// Takes the answer to the command of the first step. After an error nothing is left to run.
    pub fn reply(&mut self, reply: &Reply) -> (out: Result<(), Error>)
        requires
            old(self).remaining().len() > 0,
        ensures
            final(self).verbose == old(self).verbose,
            match after_reply(old(self).remaining(), reply@) {
                Ok(rest) => out is Ok && final(self).remaining() == rest,
                Err(e) => out matches Err(error) && error@ == e && final(self).remaining().len()
                    == 0,
            },
            reply@ is IoError ==> (out matches Err(error) && error@ is Io),
            reply@ matches ReplyText::Exited { success, stdout: _ } ==> match old(
                self,
            ).remaining()[0] {
                StepText::Run { command: _, failure } => if success {
                    out is Ok && final(self).remaining() == old(self).remaining().drop_first()
                } else {
                    out matches Err(error) && error@ == ErrorText::Other(failure)
                },
                StepText::Ensure { check: _, add, failure } => out is Ok && final(self).remaining()
                    == if success {
                    old(self).remaining().drop_first()
                } else {
                    old(self).remaining().update(0, StepText::Run { command: add, failure })
                },
                _ => out is Ok && (!success ==> final(self).remaining() == old(
                    self,
                ).remaining().drop_first()),
            },
            answers_with_utf8(reply@) ==> match old(self).remaining()[0] {
                StepText::PinServer { server_ip } => final(self).remaining() == pin_steps(
                    server_ip,
                    route_of_words(words(decode_utf8(reply@->stdout))),
                ) + old(self).remaining().drop_first(),
                StepText::AdapterRoutes { adapter: _, gateway } => final(self).remaining()
                    == adapter_steps(gateway, trimmed(decode_utf8(reply@->stdout))) + old(
                    self,
                ).remaining().drop_first(),
                _ => true,
            },
    {
        let ghost before = self.remaining();
        let (success, stdout) = match reply {
            Reply::Exited { success, stdout } => (*success, stdout),
            Reply::IoError => {
                self.steps = Vec::new();
                return Err(Error::Io);
            },
        };
        let step = self.steps.remove(0);
        proof {
            assert(before[0] == step@);
            assert(step_texts(self.steps@) =~= before.drop_first());
            assert(Seq::<StepText>::empty() + before.drop_first() =~= before.drop_first());
        }
        match step {
            Step::Run { command: _, failure } => {
                if !success {
                    self.steps = Vec::new();
                    return Err(Error::Other(failure));
                }
            },
            Step::Ensure { check: _, add, failure } => {
                if !success {
                    self.steps.insert(0, Step::Run { command: add, failure });
                    proof {
                        assert(self.remaining() =~= seq![
                            StepText::Run { command: add@, failure: failure@ },
                        ] + before.drop_first());
                    }
                }
            },
            Step::PinServer { server_ip } => {
                let route = linux_route_get(success, stdout.as_slice());
                push_pin_step(&mut self.steps, server_ip.as_str(), &route);
            },
            Step::AdapterRoutes { adapter: _, gateway } => {
                let index = interface_index(success, stdout.as_slice());
                push_adapter_steps(&mut self.steps, gateway.as_str(), index.as_str());
            },
        }
        Ok(())
    }
}

fn copy_command(c: &Command) -> (out: Command)
    ensures
        out@ == c@,
{
    let mut args: Vec<String> = Vec::new();
    let mut i: usize = 0;
    while i < c.args.len()
        invariant
            i <= c.args.len(),
            args@ == c.args@.take(i as int),
        decreases c.args.len() - i,
    {
        args.push(c.args[i].clone());
        assert(args@ =~= c.args@.take(i + 1));
        i = i + 1;
    }
    assert(args@ =~= c.args@);
    Command { program: c.program.clone(), args }
}

/// The commands that a setup runs while it is answered by `replies` in turn, the one that is not
/// answered yet among them.
pub open spec fn transcript(steps: Seq<StepText>, replies: Seq<ReplyText>) -> Seq<CommandText>
    decreases replies.len(),
{
    if steps.len() == 0 {
        Seq::empty()
    } else if replies.len() == 0 {
        seq![step_command(steps[0])]
    } else {
        match after_reply(steps, replies[0]) {
            Ok(rest) => seq![step_command(steps[0])] + transcript(rest, replies.drop_first()),
            Err(_) => seq![step_command(steps[0])],
        }
    }
}

/// The steps that are left of a setup after it was answered by `replies`, or the error that ended it.
pub open spec fn after_replies(steps: Seq<StepText>, replies: Seq<ReplyText>) -> Result<
    Seq<StepText>,
    ErrorText,
>
    decreases replies.len(),
{
    if steps.len() == 0 || replies.len() == 0 {
        Ok(steps)
    } else {
        match after_reply(steps, replies[0]) {
            Ok(rest) => after_replies(rest, replies.drop_first()),
            Err(e) => Err(e),
        }
    }
}

/// Whether a command ran with the given success.
pub open spec fn exits(reply: ReplyText, success: bool) -> bool {
    reply matches ReplyText::Exited { success: s, stdout: _ } && s == success
}

/// Nothing is run after an error: whatever would have been answered later changes neither the
/// commands nor the error.
pub proof fn law_an_error_ends_the_setup(
    steps: Seq<StepText>,
    replies: Seq<ReplyText>,
    later: Seq<ReplyText>,
)
    requires
        after_replies(steps, replies) is Err,
    ensures
        transcript(steps, replies + later) == transcript(steps, replies),
        after_replies(steps, replies + later) == after_replies(steps, replies),
    decreases replies.len(),
{
    assert((replies + later)[0] == replies[0]);
    assert((replies + later).drop_first() =~= replies.drop_first() + later);
    if let Ok(rest) = after_reply(steps, replies[0]) {
        law_an_error_ends_the_setup(rest, replies.drop_first(), later);
    }
}

/// The error of a setup is the I/O error of a command that could not be run, or the message of the
/// step whose command had to succeed and did not.
pub proof fn law_errors_come_from_commands(steps: Seq<StepText>, reply: ReplyText)
    requires
        steps.len() > 0,
    ensures
        after_reply(steps, reply) == Err::<Seq<StepText>, ErrorText>(ErrorText::Io)
            <==> reply is IoError,
        after_reply(steps, reply) is Err && !(reply is IoError) <==> exits(reply, false)
            && steps[0] is Run,
        exits(reply, false) ==> (steps[0] matches StepText::Run { command: _, failure }
            ==> after_reply(steps, reply) == Err::<Seq<StepText>, ErrorText>(
            ErrorText::Other(failure),
        )),
{
}

/// Commands, each with the success it has.
pub open spec fn script_commands(script: Seq<(CommandText, bool)>) -> Seq<CommandText> {
    script.map_values(|line: (CommandText, bool)| line.0)
}

/// Whether `replies` answers every command of a script with the success it has there.
pub open spec fn answers(script: Seq<(CommandText, bool)>, replies: Seq<ReplyText>) -> bool {
    &&& replies.len() == script.len()
    &&& forall|i: int| 0 <= i < script.len() ==> exits(#[trigger] replies[i], script[i].1)
}

/// Whether a setup that is answered as in the script runs the commands of the script and is then
/// done.
pub open spec fn follows(steps: Seq<StepText>, script: Seq<(CommandText, bool)>) -> bool {
    forall|replies: Seq<ReplyText>| #[trigger]
        answers(script, replies) ==> transcript(steps, replies) == script_commands(script)
            && after_replies(steps, replies) == Ok::<Seq<StepText>, ErrorText>(Seq::empty())
}

pub(crate) proof fn lemma_follows_nothing()
    ensures
        follows(Seq::empty(), Seq::empty()),
{
    assert forall|replies: Seq<ReplyText>| #[trigger] answers(Seq::empty(), replies) implies
        transcript(Seq::empty(), replies) == script_commands(Seq::empty()) by {
        assert(script_commands(Seq::empty()) =~= Seq::<CommandText>::empty());
    }
}

/// A command that has to succeed and does, before a setup that follows its script.
pub(crate) proof fn lemma_follows_run(
    c: CommandText,
    failure: Seq<char>,
    rest: Seq<StepText>,
    script: Seq<(CommandText, bool)>,
)
    requires
        follows(rest, script),
    ensures
        follows(seq![StepText::Run { command: c, failure }] + rest, seq![(c, true)] + script),
{
    let steps = seq![StepText::Run { command: c, failure }] + rest;
    let longer = seq![(c, true)] + script;
    assert forall|replies: Seq<ReplyText>| #[trigger] answers(longer, replies) implies transcript(
        steps,
        replies,
    ) == script_commands(longer) && after_replies(steps, replies) == Ok::<
        Seq<StepText>,
        ErrorText,
    >(Seq::empty()) by {
        lemma_answers_tail(longer, replies);
        assert(longer.drop_first() =~= script);
        assert(exits(replies[0], longer[0].1));
        assert(Seq::<StepText>::empty() + steps.drop_first() =~= rest);
        assert(script_commands(longer) =~= seq![c] + script_commands(script));
    }
}

/// A rule that is there, before a setup that follows its script.
pub(crate) proof fn lemma_follows_present(
    check: CommandText,
    add: CommandText,
    failure: Seq<char>,
    rest: Seq<StepText>,
    script: Seq<(CommandText, bool)>,
)
    requires
        follows(rest, script),
    ensures
        follows(
            seq![StepText::Ensure { check, add, failure }] + rest,
            seq![(check, true)] + script,
        ),
{
    let steps = seq![StepText::Ensure { check, add, failure }] + rest;
    let longer = seq![(check, true)] + script;
    assert forall|replies: Seq<ReplyText>| #[trigger] answers(longer, replies) implies transcript(
        steps,
        replies,
    ) == script_commands(longer) && after_replies(steps, replies) == Ok::<
        Seq<StepText>,
        ErrorText,
    >(Seq::empty()) by {
        lemma_answers_tail(longer, replies);
        assert(longer.drop_first() =~= script);
        assert(exits(replies[0], longer[0].1));
        assert(Seq::<StepText>::empty() + steps.drop_first() =~= rest);
        assert(script_commands(longer) =~= seq![check] + script_commands(script));
    }
}

/// A rule that is missing and gets added, before a setup that follows its script.
pub(crate) proof fn lemma_follows_missing(
    check: CommandText,
    add: CommandText,
    failure: Seq<char>,
    rest: Seq<StepText>,
    script: Seq<(CommandText, bool)>,
)
    requires
        follows(rest, script),
    ensures
        follows(
            seq![StepText::Ensure { check, add, failure }] + rest,
            seq![(check, false)] + (seq![(add, true)] + script),
        ),
{
    let steps = seq![StepText::Ensure { check, add, failure }] + rest;
    let added = seq![StepText::Run { command: add, failure }] + rest;
    let inner = seq![(add, true)] + script;
    let longer = seq![(check, false)] + inner;
    lemma_follows_run(add, failure, rest, script);
    assert forall|replies: Seq<ReplyText>| #[trigger] answers(longer, replies) implies transcript(
        steps,
        replies,
    ) == script_commands(longer) && after_replies(steps, replies) == Ok::<
        Seq<StepText>,
        ErrorText,
    >(Seq::empty()) by {
        lemma_answers_tail(longer, replies);
        assert(longer.drop_first() =~= inner);
        assert(exits(replies[0], longer[0].1));
        assert(steps.drop_first() =~= rest);
        assert(script_commands(longer) =~= seq![check] + script_commands(inner));
    }
}

proof fn lemma_answers_tail(script: Seq<(CommandText, bool)>, replies: Seq<ReplyText>)
    requires
        script.len() > 0,
        answers(script, replies),
    ensures
        answers(script.drop_first(), replies.drop_first()),
{
    let tail = script.drop_first();
    assert forall|i: int| 0 <= i < tail.len() implies exits(
        #[trigger] replies.drop_first()[i],
        tail[i].1,
    ) by {
        assert(exits(replies[i + 1], script[i + 1].1));
    }
}

/// A command that has to succeed, before a setup whose commands begin a plan whatever is answered:
/// together they begin the longer plan.
pub(crate) proof fn lemma_run_then_plan(
    c: CommandText,
    rest: Seq<StepText>,
    replies: Seq<ReplyText>,
    plan: Seq<CommandText>,
)
    requires
        replies.len() > 0 ==> transcript(rest, replies.drop_first()).is_prefix_of(plan),
    ensures
        transcript(seq![run_step(c)] + rest, replies).is_prefix_of(seq![c] + plan),
{
    let steps = seq![run_step(c)] + rest;
    assert(Seq::<StepText>::empty() + steps.drop_first() =~= rest);
    if replies.len() > 0 && exits(replies[0], true) {
        let tail = transcript(rest, replies.drop_first());
        assert(seq![c] + tail =~= (seq![c] + plan).take(1 + tail.len() as int));
    }
}

/// Only the output of a command that asks for something matters: for any other step it changes
/// nothing.
pub proof fn law_only_captured_output_matters(
    step: StepText,
    success: bool,
    stdout: Seq<u8>,
    other: Seq<u8>,
)
    ensures
        step_captures(step) <==> step is PinServer || step is AdapterRoutes,
        !step_captures(step) ==> step_result(step, success, stdout) == step_result(
            step,
            success,
            other,
        ),
        !success ==> step_result(step, success, stdout) == step_result(step, success, other),
{
}

/// A command that has to succeed leads to nothing more where it does and ends the setup where it does
/// not; a rule that is there leads to nothing more, and one that is missing to the command that adds
/// it, which has to succeed.
pub proof fn law_commands_have_to_succeed(
    command: CommandText,
    add: CommandText,
    failure: Seq<char>,
    stdout: Seq<u8>,
)
    ensures
        step_result(StepText::Run { command, failure }, true, stdout) == Ok::<
            Seq<StepText>,
            ErrorText,
        >(Seq::empty()),
        step_result(StepText::Run { command, failure }, false, stdout) == Err::<
            Seq<StepText>,
            ErrorText,
        >(ErrorText::Other(failure)),
        step_result(StepText::Ensure { check: command, add, failure }, true, stdout) == Ok::<
            Seq<StepText>,
            ErrorText,
        >(Seq::empty()),
        step_result(StepText::Ensure { check: command, add, failure }, false, stdout) == Ok::<
            Seq<StepText>,
            ErrorText,
        >(seq![StepText::Run { command: add, failure }]),
        step_command(StepText::Run { command, failure }) == command,
        step_command(StepText::Ensure { check: command, add, failure }) == command,
{
}

/// A question never ends the setup, whatever comes of it: where it has no answer, nothing is added.
pub proof fn law_questions_do_not_end_the_setup(
    text: Seq<char>,
    gateway: Seq<char>,
    success: bool,
    stdout: Seq<u8>,
)
    ensures
        step_result(StepText::PinServer { server_ip: text }, success, stdout) matches Ok(new)
            && new.len() <= 1 && (!success ==> new.len() == 0),
        step_result(StepText::AdapterRoutes { adapter: text, gateway }, success, stdout) matches Ok(
            new,
        ) && (new.len() == 0 || new.len() == 2) && (!success ==> new.len() == 0),
{
    if !success {
        assert(trimmed(captured(success, stdout)) =~= Seq::<char>::empty());
    }
}

/// The steps after the first one are kept, in order and behind what comes of the first.
pub proof fn law_later_steps_are_kept(steps: Seq<StepText>, reply: ReplyText)
    requires
        steps.len() > 0,
    ensures
        after_reply(steps, reply) matches Ok(rest) ==> steps.drop_first().is_suffix_of(rest),
{
    if let Ok(rest) = after_reply(steps, reply) {
        let later = steps.drop_first();
        assert(rest.skip(rest.len() - later.len()) =~= later);
    }
}

/// What is printed before a command runs tells that command: the line of it, or the script that it
/// hands to the shell.
pub proof fn law_the_printed_command_is_run(step: StepText)
    ensures
        !(step is AdapterRoutes) ==> step_echo(step) == "[client] exec: "@ + command_line(
            step_command(step),
        ),
        step is AdapterRoutes ==> step_echo(step) == "[client] exec: powershell -Command "@
            + step_command(step).args.last(),
{
}

/// The step that runs a command runs that command, and its failure is reported with the line of it.
pub proof fn law_a_failed_command_is_reported(c: CommandText, stdout: Seq<u8>)
    ensures
        step_command(run_step(c)) == c,
        !step_captures(run_step(c)),
        step_result(run_step(c), false, stdout) == Err::<Seq<StepText>, ErrorText>(
            ErrorText::Other("Command failed: "@ + command_line(c)),
        ),
{
}

} // verus!

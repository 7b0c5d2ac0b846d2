//! Commands of the operating system, and the errors that end a setup.

use vstd::prelude::*;
use vstd::string::*;

use crate::text::{
    is_word, join_words, joined, law_joined_grows_by_item, law_space_separates,
    law_word_is_itself, law_words_of_joined, texts, words,
};

verus! {

/// A program and its arguments.
#[derive(Debug, PartialEq, Eq)]
pub struct Command {
    pub program: String,
    pub args: Vec<String>,
}

/// The texts of a command.
#[verifier::ext_equal]
pub struct CommandText {
    pub program: Seq<char>,
    pub args: Seq<Seq<char>>,
}

impl View for Command {
    type V = CommandText;

    open spec fn view(&self) -> CommandText {
        CommandText { program: self.program@, args: texts(self.args@) }
    }
}

/// The texts of a list of string slices.
pub open spec fn slice_texts(list: Seq<&str>) -> Seq<Seq<char>> {
    list.map_values(|s: &str| s@)
}

/// A command from its program and arguments.
pub fn command(program: &str, args: Vec<&str>) -> (c: Command)
    ensures
        c@ == (CommandText { program: program@, args: slice_texts(args@) }),
{
    let mut list: Vec<String> = Vec::new();
    let mut i: usize = 0;
    while i < args.len()
        invariant
            i <= args.len(),
            texts(list@) == slice_texts(args@).take(i as int),
        decreases args.len() - i,
    {
        let ghost before = texts(list@);
        list.push(args[i].to_owned());
        proof {
            assert(texts(list@) =~= before.push(args@[i as int]@));
            assert(slice_texts(args@)[i as int] == args@[i as int]@);
            assert(texts(list@) =~= slice_texts(args@).take(i + 1));
        }
        i = i + 1;
    }
    assert(texts(list@) =~= slice_texts(args@));
    Command { program: program.to_owned(), args: list }
}

/// A command as one line: the program, a space, and the arguments with spaces between them.
pub open spec fn command_line(c: CommandText) -> Seq<char> {
    c.program + seq![' '] + joined(c.args, seq![' '])
}

/// What is reported of a command that ended without success.
pub open spec fn failure_text(c: CommandText) -> Seq<char> {
    "Command failed: "@ + command_line(c)
}

/// What the client prints before it runs a command, where it prints anything.
pub open spec fn echo_text(c: CommandText) -> Seq<char> {
    "[client] exec: "@ + command_line(c)
}

fn push_command_line(out: &mut String, c: &Command)
    ensures
        final(out)@ == old(out)@ + command_line(c@),
{
    out.append(c.program.as_str());
    out.push(' ');
    let args = join_words(&c.args);
    out.append(args.as_str());
    assert(out@ =~= old(out)@ + command_line(c@));
}

/// What is reported of a command that ended without success.
pub fn failure_message(c: &Command) -> (out: String)
    ensures
        out@ == failure_text(c@),
{
    let mut out = "Command failed: ".to_owned();
    push_command_line(&mut out, c);
    out
}

/// What the client prints before it runs a command.
pub fn echo_line(c: &Command) -> (out: String)
    ensures
        out@ == echo_text(c@),
{
    let mut out = "[client] exec: ".to_owned();
    push_command_line(&mut out, c);
    out
}

/// Why a setup ended early.
#[derive(Debug, PartialEq, Eq)]
pub enum Error {
    /// An argument cannot be used.
    InvalidInput(String),
    /// A command ended without success.
    Other(String),
    /// A command could not be run at all.
    Io,
}

/// The texts of an error.
#[verifier::ext_equal]
pub enum ErrorText {
    InvalidInput(Seq<char>),
    Other(Seq<char>),
    Io,
}

impl View for Error {
    type V = ErrorText;

    open spec fn view(&self) -> ErrorText {
        match self {
            Error::InvalidInput(s) => ErrorText::InvalidInput(s@),
            Error::Other(s) => ErrorText::Other(s@),
            Error::Io => ErrorText::Io,
        }
    }
}

/// A command as one line is its program and its arguments, each argument after one space: each further
/// argument comes at the end.
pub proof fn law_command_line_grows_by_argument(c: CommandText, arg: Seq<char>)
    ensures
        c.args.len() == 0 ==> command_line(c) == c.program.push(' '),
        command_line((CommandText { program: c.program, args: seq![arg] })) == c.program + seq![' ']
            + arg,
        c.args.len() > 0 ==> command_line(
            (CommandText { program: c.program, args: c.args.push(arg) }),
        ) == command_line(c) + seq![' '] + arg,
{
    law_joined_grows_by_item(c.args, arg, seq![' ']);
    if c.args.len() == 0 {
        assert(c.args =~= Seq::<Seq<char>>::empty());
        assert(command_line(c) =~= c.program.push(' '));
    } else {
        assert(command_line((CommandText { program: c.program, args: c.args.push(arg) }))
            =~= command_line(c) + seq![' '] + arg);
    }
}

/// A command of words, as one line, splits into its program and its arguments again.
pub proof fn law_command_line_splits_into_the_command(c: CommandText)
    requires
        is_word(c.program),
        forall|i: int| 0 <= i < c.args.len() ==> is_word(#[trigger] c.args[i]),
    ensures
        words(command_line(c)) == seq![c.program] + c.args,
{
    law_words_of_joined(c.args);
    law_word_is_itself(c.program);
    law_space_separates(c.program, joined(c.args, seq![' ']));
}

/// What is reported of a failed command, and what is printed before a command, is a fixed beginning
/// and then the line of that very command.
pub proof fn law_messages_end_with_the_command(c: CommandText)
    ensures
        "Command failed: "@.is_prefix_of(failure_text(c)),
        failure_text(c).skip("Command failed: "@.len() as int) == command_line(c),
        "[client] exec: "@.is_prefix_of(echo_text(c)),
        echo_text(c).skip("[client] exec: "@.len() as int) == command_line(c),
{
    let failed = "Command failed: "@;
    let exec = "[client] exec: "@;
    assert(failure_text(c).take(failed.len() as int) =~= failed);
    assert(failure_text(c).skip(failed.len() as int) =~= command_line(c));
    assert(echo_text(c).take(exec.len() as int) =~= exec);
    assert(echo_text(c).skip(exec.len() as int) =~= command_line(c));
}

} // verus!

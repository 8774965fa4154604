//! Commands that are run outside the library, and what comes back.
//!
//! An operation that needs commands is a function of the replies so far. It
//! either names the next command, whose reply is then added to the list, or is
//! done, and tells how many of the replies it has read.

use vstd::prelude::*;
use vstd::utf8;

verus! {

/// A program and its arguments.
#[derive(Debug)]
pub struct Command {
    pub program: String,
    pub args: Vec<String>,
}

/// A command as contracts speak of it.
pub struct CommandView {
    pub program: Seq<char>,
    pub args: Seq<Seq<char>>,
}

impl DeepView for Command {
    type V = CommandView;

    open spec fn deep_view(&self) -> CommandView {
        CommandView { program: self.program@, args: self.args.deep_view() }
    }
}

/// What a command that ran left behind.
#[derive(Debug)]
pub struct Output {
    pub success: bool,
    pub stdout: Vec<u8>,
    pub stderr: Vec<u8>,
}

/// The output of a command, or why it could not be started.
pub type Reply = Result<Output, String>;

/// What an operation does next.
#[derive(Debug)]
pub enum Step<T> {
    /// Run the command and call again with its reply added.
    Run(Command),
    /// The result, and the number of replies that were read.
    Done(T, usize),
}

/// A step as contracts speak of it.
pub enum StepView<V> {
    Run(CommandView),
    Done(V, int),
}

impl<T: DeepView> DeepView for Step<T> {
    type V = StepView<T::V>;

    open spec fn deep_view(&self) -> StepView<T::V> {
        match self {
            Step::Run(c) => StepView::Run(c.deep_view()),
            Step::Done(t, n) => StepView::Done(t.deep_view(), *n as int),
        }
    }
}

/// A result, seen through the views of what it holds.
pub open spec fn result_view<T: DeepView>(r: Result<T, String>) -> Result<T::V, Seq<char>> {
    match r {
        Ok(t) => Ok(t.deep_view()),
        Err(e) => Err(e@),
    }
}

/// A step towards a result, seen through the views of what it holds.
pub open spec fn step_view<T: DeepView>(s: Step<Result<T, String>>) -> StepView<
    Result<T::V, Seq<char>>,
> {
    match s {
        Step::Run(c) => StepView::Run(c.deep_view()),
        Step::Done(r, n) => StepView::Done(result_view(r), n as int),
    }
}

/// The text that `String::from_utf8_lossy` reads from bytes.
pub uninterp spec fn utf8_lossy(bytes: Seq<u8>) -> Seq<char>;

/// `String::from_utf8_lossy`: the text is a function of the bytes, and where
/// they are valid UTF-8 it is the text that they encode. Where they are not,
/// which of them become replacement characters is left unsaid.
#[verifier::external_body]
fn lossy(bytes: &[u8]) -> (r: String)
    ensures
        r@ == utf8_lossy(bytes@),
        utf8::valid_utf8(bytes@) ==> r@ == utf8::decode_utf8(bytes@),
{
    String::from_utf8_lossy(bytes).into_owned()
}

/// What a reply says: its output if the command went well, else its errors.
pub open spec fn answer(reply: Reply) -> Result<Seq<char>, Seq<char>> {
    match reply {
        Ok(out) => if out.success {
            Ok(utf8_lossy(out.stdout@))
        } else {
            Err(utf8_lossy(out.stderr@))
        },
        Err(e) => Err(e@),
    }
}

/// The output of the command if it went well, else what it said of the error.
pub fn run_ok(reply: &Reply) -> (r: Result<String, String>)
    ensures
        result_view(r) == answer(*reply),
        *reply matches Ok(out) ==> (out.success && utf8::valid_utf8(out.stdout@) ==> result_view(r)
            == Ok::<Seq<char>, Seq<char>>(utf8::decode_utf8(out.stdout@))),
        *reply matches Ok(out) ==> (!out.success && utf8::valid_utf8(out.stderr@) ==> result_view(r)
            == Err::<Seq<char>, Seq<char>>(utf8::decode_utf8(out.stderr@))),
{
    match reply {
        Ok(out) => if out.success {
            Ok(lossy(&out.stdout))
        } else {
            Err(lossy(&out.stderr))
        },
        Err(e) => Err(e.clone()),
    }
}

/// The command could be started and went well.
pub open spec fn went_well(reply: Reply) -> bool {
    reply matches Ok(out) && out.success
}

/// Could the command be started, and did it go well?
pub fn succeeded(reply: &Reply) -> (r: bool)
    ensures
        r == went_well(*reply),
{
    match reply {
        Ok(out) => out.success,
        Err(_) => false,
    }
}

/// The error for a git that could not be started.
pub fn launch_failure(why: &str) -> (r: String)
    ensures
        r@ == "failed to run git: "@ + why@,
{
    let mut r = "failed to run git: ".to_owned();
    r.append(why);
    r
}

/// The arguments with one more at the end.
pub fn with(mut args: Vec<String>, arg: &str) -> (r: Vec<String>)
    ensures
        r.deep_view() == args.deep_view().push(arg@),
{
    let ghost before = args.deep_view();
    args.push(arg.to_owned());
    assert(args.deep_view() =~= before.push(arg@));
    args
}

/// One argument.
pub fn arg(first: &str) -> (r: Vec<String>)
    ensures
        r.deep_view() == seq![first@],
{
    let none: Vec<String> = Vec::new();
    assert(none.deep_view() =~= Seq::<Seq<char>>::empty());
    let r = with(none, first);
    assert(r.deep_view() =~= seq![first@]);
    r
}

/// A git command.
pub open spec fn git_command(args: Seq<Seq<char>>) -> CommandView {
    CommandView { program: "git"@, args }
}

/// A git command.
pub fn git(args: Vec<String>) -> (r: Command)
    ensures
        r.deep_view() == git_command(args.deep_view()),
{
    Command { program: "git".to_owned(), args }
}

/// Run one command and take what its reply says.
pub open spec fn asked(command: CommandView, replies: Seq<Reply>) -> StepView<
    Result<Seq<char>, Seq<char>>,
> {
    if replies.len() == 0 {
        StepView::Run(command)
    } else {
        StepView::Done(answer(replies[0]), 1)
    }
}

/// Run one command and take what its reply says.
pub fn ask(command: Command, replies: &[Reply]) -> (r: Step<Result<String, String>>)
    ensures
        step_view(r) == asked(command.deep_view(), replies@),
{
    if replies.len() == 0 {
        Step::Run(command)
    } else {
        Step::Done(run_ok(&replies[0]), 1)
    }
}

/// Run one command for what it does; its output does not matter.
pub open spec fn done(command: CommandView, replies: Seq<Reply>) -> StepView<
    Result<(), Seq<char>>,
> {
    if replies.len() == 0 {
        StepView::Run(command)
    } else {
        StepView::Done(
            match answer(replies[0]) {
                Ok(_) => Ok(()),
                Err(e) => Err(e),
            },
            1,
        )
    }
}

/// Run one command for what it does; its output does not matter.
pub fn perform(command: Command, replies: &[Reply]) -> (r: Step<Result<(), String>>)
    ensures
        step_view(r) == done(command.deep_view(), replies@),
{
    match ask(command, replies) {
        Step::Run(c) => Step::Run(c),
        Step::Done(Ok(_), n) => Step::Done(Ok(()), n),
        Step::Done(Err(e), n) => Step::Done(Err(e), n),
    }
}

// ---------------------------------------------------------------------------
// Laws
// ---------------------------------------------------------------------------
/// A command that went well says what it wrote to its output, one that did not
/// says what it wrote to its error output, and one that could not be started says
/// why.
pub proof fn replies_are_taken_at_their_word(reply: Reply)
    ensures
        answer(reply) is Ok <==> went_well(reply),
        reply matches Ok(out) ==> (out.success ==> answer(reply) == Ok::<Seq<char>, Seq<char>>(
            utf8_lossy(out.stdout@),
        )),
        reply matches Ok(out) ==> (!out.success ==> answer(reply) == Err::<Seq<char>, Seq<char>>(
            utf8_lossy(out.stderr@),
        )),
        reply matches Err(e) ==> answer(reply) == Err::<Seq<char>, Seq<char>>(e@),
{
}

/// One command is run, as it is given, and its reply is the first one; nothing
/// more is read.
pub proof fn one_command_takes_one_reply(command: CommandView, replies: Seq<Reply>)
    ensures
        asked(command, seq![]) == StepView::<Result<Seq<char>, Seq<char>>>::Run(command),
        done(command, seq![]) == StepView::<Result<(), Seq<char>>>::Run(command),
        replies.len() > 0 ==> asked(command, replies) == StepView::Done(answer(replies[0]), 1),
        replies.len() > 0 ==> (answer(replies[0]) is Ok ==> done(command, replies)
            == StepView::<Result<(), Seq<char>>>::Done(Ok(()), 1)),
        replies.len() > 0 ==> (answer(replies[0]) matches Err(e) ==> done(command, replies)
            == StepView::<Result<(), Seq<char>>>::Done(Err(e), 1)),
        git_command(command.args).program == "git"@,
        git_command(command.args).args == command.args,
{
}

} // verus!

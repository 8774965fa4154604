//! Background git jobs that may ask for a password: what is decided about them.
//!
//! git asks through a helper program, which sends its prompt over a socket; the
//! answer goes back the same way. Starting the job and serving the socket is
//! left to the program around this library.

use crate::text;
use vstd::prelude::*;

verus! {

/// What a job reports. `R` is what takes the answer to a prompt.
#[derive(Debug)]
pub enum JobEvent<R> {
    /// git asks for a password.
    Askpass { prompt: String, reply: R },
    /// The job is over: what git wrote to its error output, or why it failed.
    Done(Result<String, String>),
}

/// How a job ended.
#[derive(Debug)]
pub enum Exit {
    Success,
    /// With the exit status in words.
    Failure(String),
    /// There was no process to wait for.
    NotStarted,
}

/// The first of the lines that is not blank, without the blanks around it.
pub open spec fn first_said(lines: Seq<Seq<char>>) -> Option<Seq<char>>
    decreases lines.len(),
{
    if lines.len() == 0 {
        None
    } else if text::trimmed(lines[0]).len() > 0 {
        Some(text::trimmed(lines[0]))
    } else {
        first_said(lines.drop_first())
    }
}

/// The first line that is not blank, without the blanks around it.
pub fn first_nonempty(s: &str) -> (r: Option<String>)
    ensures
        r.deep_view() == first_said(text::lines_of(s@)),
{
    let lines = text::lines(s);
    let ghost all = lines.deep_view();
    let n = lines.len();
    assert(all.skip(0) =~= all);
    for i in 0..n
        invariant
            n == lines@.len(),
            all == lines.deep_view(),
            first_said(all.skip(i as int)) == first_said(all),
            all == text::lines_of(s@),
    {
        assert(all.skip(i as int)[0] == lines@[i as int]@);
        let line = text::trim(lines[i].as_str());
        if line.unicode_len() > 0 {
            return Some(line.to_owned());
        }
        assert(all.skip(i as int).drop_first() =~= all.skip(i + 1));
    }
    assert(all.skip(n as int).len() == 0);
    None
}

/// What a job that ended so and wrote `errors` comes to.
pub open spec fn outcome(how: Exit, errors: Seq<char>) -> Result<Seq<char>, Seq<char>> {
    match how {
        Exit::Success => Ok(errors),
        Exit::Failure(status) => Err(
            match first_said(text::lines_of(errors)) {
                Some(line) => line,
                None => "git exited with "@ + status@,
            },
        ),
        Exit::NotStarted => Err("git did not start"@),
    }
}

/// What a job that ended so comes to: its error output if it went well, else the
/// first thing that it said there.
pub fn job_result(how: Exit, errors: String) -> (r: Result<String, String>)
    ensures
        crate::command::result_view(r) == outcome(how, errors@),
{
    match how {
        Exit::Success => Ok(errors),
        Exit::Failure(status) => match first_nonempty(errors.as_str()) {
            Some(line) => Err(line),
            None => {
                let mut why = "git exited with ".to_owned();
                why.append(status.as_str());
                Err(why)
            },
        },
        Exit::NotStarted => Err("git did not start".to_owned()),
    }
}

/// The line without the line feeds and carriage returns at its end.
pub open spec fn without_line_end(line: Seq<char>) -> Seq<char>
    decreases line.len(),
{
    if line.len() > 0 && (line.last() == '\n' || line.last() == '\r') {
        without_line_end(line.drop_last())
    } else {
        line
    }
}

/// The prompt in a line that the helper sent.
pub fn prompt_of(line: &str) -> (r: String)
    ensures
        r@ == without_line_end(line@),
{
    let v = text::to_chars(line);
    let mut to: usize = v.len();
    assert(v@.take(to as int) =~= line@);
    while to > 0 && (v[to - 1] == '\n' || v[to - 1] == '\r')
        invariant
            v@ == line@,
            to <= v@.len(),
            without_line_end(v@.take(to as int)) == without_line_end(line@),
        decreases to,
    {
        assert(v@.take(to as int).drop_last() =~= v@.take(to - 1));
        to -= 1;
    }
    let r = text::from_chars(&v, 0, to);
    assert(r@ =~= v@.take(to as int));
    r
}

/// The name of the directory that holds the socket of a job.
pub fn socket_dir_name(process: u32, nanos: u32) -> (r: String)
    ensures
        r@ == "spor-askpass-"@ + text::decimal(process as nat) + "-"@ + text::decimal(nanos as nat),
{
    let mut name = "spor-askpass-".to_owned();
    text::push_number(&mut name, process as u64);
    name.append("-");
    text::push_number(&mut name, nanos as u64);
    name
}

// ---------------------------------------------------------------------------
// Starting the job
// ---------------------------------------------------------------------------
/// What a variable in the environment of a job is set to.
#[derive(Debug, Clone, Copy, PartialEq, Eq)]
pub enum Setting {
    /// The path of this program, which is the helper.
    Program,
    /// The path of the socket.
    Socket,
    /// This text.
    Text(&'static str),
}

/// The same as contracts speak of it.
pub enum SettingView {
    Program,
    Socket,
    Text(Seq<char>),
}

impl DeepView for Setting {
    type V = SettingView;

    open spec fn deep_view(&self) -> SettingView {
        match self {
            Setting::Program => SettingView::Program,
            Setting::Socket => SettingView::Socket,
            Setting::Text(s) => SettingView::Text(s@),
        }
    }
}

/// A variable in the environment of a job.
#[derive(Debug, Clone, Copy)]
pub struct Variable {
    pub name: &'static str,
    pub value: Setting,
}

/// The same as contracts speak of it.
pub struct VariableView {
    pub name: Seq<char>,
    pub value: SettingView,
}

impl DeepView for Variable {
    type V = VariableView;

    open spec fn deep_view(&self) -> VariableView {
        VariableView { name: self.name@, value: self.value.deep_view() }
    }
}

/// The variables that a job is started with: ssh and git ask this program, even
/// where a terminal is attached; this program knows that it is asked, and by
/// which socket to answer; and git does not read the terminal.
pub open spec fn environment() -> Seq<VariableView> {
    seq![
        VariableView { name: "SSH_ASKPASS"@, value: SettingView::Program },
        VariableView { name: "SSH_ASKPASS_REQUIRE"@, value: SettingView::Text("force"@) },
        VariableView { name: "GIT_ASKPASS"@, value: SettingView::Program },
        VariableView { name: "SPOR_ASKPASS"@, value: SettingView::Text("1"@) },
        VariableView { name: "SPOR_ASKPASS_SOCK"@, value: SettingView::Socket },
        VariableView { name: "GIT_TERMINAL_PROMPT"@, value: SettingView::Text("0"@) },
    ]
}

/// The variables that a job is started with.
pub fn job_environment() -> (r: Vec<Variable>)
    ensures
        r.deep_view() == environment(),
{
    let r = vec![
        Variable { name: "SSH_ASKPASS", value: Setting::Program },
        Variable { name: "SSH_ASKPASS_REQUIRE", value: Setting::Text("force") },
        Variable { name: "GIT_ASKPASS", value: Setting::Program },
        Variable { name: "SPOR_ASKPASS", value: Setting::Text("1") },
        Variable { name: "SPOR_ASKPASS_SOCK", value: Setting::Socket },
        Variable { name: "GIT_TERMINAL_PROMPT", value: Setting::Text("0") },
    ];
    assert(r.deep_view() =~= environment());
    r
}

// ---------------------------------------------------------------------------
// Serving the socket
// ---------------------------------------------------------------------------
/// What came of asking the socket for a connection.
#[derive(Debug, Clone, Copy, PartialEq, Eq)]
pub enum Accepted {
    Connection,
    /// No one is waiting to be served.
    WouldBlock,
    Failure,
}

/// What the server of the socket does next.
#[derive(Debug, Clone, Copy, PartialEq, Eq)]
pub enum Serving {
    /// Hand the connection on, then ask again.
    Serve,
    /// Ask again after this many milliseconds.
    Pause(u64),
    Stop,
}

/// How long the server waits before it asks again, in milliseconds.
pub const ACCEPT_PAUSE: u64 = 40;

/// A connection is served, even after the job is over. Where there is none the
/// server waits, until the job is over; a failure ends it.
pub open spec fn served(event: Accepted, over: bool) -> Serving {
    match event {
        Accepted::Connection => Serving::Serve,
        Accepted::WouldBlock => if over {
            Serving::Stop
        } else {
            Serving::Pause(ACCEPT_PAUSE)
        },
        Accepted::Failure => Serving::Stop,
    }
}

/// What the server of the socket does next; `over` tells whether the job is.
pub fn serve(event: Accepted, over: bool) -> (r: Serving)
    ensures
        r == served(event, over),
{
    match event {
        Accepted::Connection => Serving::Serve,
        Accepted::WouldBlock => if over {
            Serving::Stop
        } else {
            Serving::Pause(ACCEPT_PAUSE)
        },
        Accepted::Failure => Serving::Stop,
    }
}

/// The error number for an operation that is not permitted.
pub fn libc_eperm() -> (r: i32)
    ensures
        r == 1,
{
    1
}

/// May the child go on where it could not start a session of its own? Only where
/// the operation was not permitted: it leads one already.
pub fn leads_a_session(error: Option<i32>) -> (r: bool)
    ensures
        r == (error == Some(1i32)),
{
    match error {
        Some(number) => number == libc_eperm(),
        None => false,
    }
}

// ---------------------------------------------------------------------------
// Laws
// ---------------------------------------------------------------------------
/// A job that went well tells all that it wrote; one that failed tells the first
/// thing that it said, without the blanks around it, or its exit status where it
/// said nothing; one that did not start says so.
pub proof fn jobs_tell_how_they_ended(
    blank: Seq<char>,
    said: Seq<char>,
    rest: Seq<char>,
    status: String,
    errors: Seq<char>,
)
    requires
        !blank.contains('\n') && !said.contains('\n'),
        blank.len() == 0 || blank.last() != '\r',
        said.len() == 0 || said.last() != '\r',
        text::trimmed(blank).len() == 0,
        text::trimmed(said).len() > 0,
    ensures
        outcome(Exit::Success, errors) == Ok::<Seq<char>, Seq<char>>(errors),
        outcome(Exit::NotStarted, errors) == Err::<Seq<char>, Seq<char>>("git did not start"@),
        outcome(Exit::Failure(status), said + seq!['\n'] + rest) == Err::<Seq<char>, Seq<char>>(
            text::trimmed(said),
        ),
        outcome(Exit::Failure(status), blank + seq!['\n'] + (said + seq!['\n'] + rest)) == Err::<
            Seq<char>,
            Seq<char>,
        >(text::trimmed(said)),
        outcome(Exit::Failure(status), Seq::empty()) == Err::<Seq<char>, Seq<char>>(
            "git exited with "@ + status@,
        ),
{
    let one = said + seq!['\n'] + rest;
    text::first_line_is_split_off(said, rest);
    text::first_line_is_split_off(blank, one);
    assert((seq![said] + text::lines_of(rest))[0] == said);
    let two = seq![blank] + text::lines_of(one);
    assert(two[0] == blank);
    assert(two.drop_first() =~= text::lines_of(one));
    assert(text::lines_of(Seq::<char>::empty()) =~= Seq::<Seq<char>>::empty());
}

/// What is told of a failure is the first line that is not blank.
pub proof fn first_thing_said_is_told(lines: Seq<Seq<char>>, k: int)
    requires
        0 <= k < lines.len(),
        text::trimmed(lines[k]).len() > 0,
        forall|j: int| 0 <= j < k ==> text::trimmed(#[trigger] lines[j]).len() == 0,
    ensures
        first_said(lines) == Some(text::trimmed(lines[k])),
    decreases k,
{
    if k > 0 {
        let rest = lines.drop_first();
        assert(text::trimmed(lines[0]).len() == 0);
        assert forall|j: int| 0 <= j < k - 1 implies text::trimmed(#[trigger] rest[j]).len() == 0 by {
            assert(rest[j] == lines[j + 1]);
        }
        first_thing_said_is_told(rest, k - 1);
    }
}

/// A prompt is the line that was sent, without what ends it.
pub proof fn prompt_loses_its_line_end(prompt: Seq<char>, end: Seq<char>)
    requires
        prompt.len() == 0 || (prompt.last() != '\n' && prompt.last() != '\r'),
        forall|i: int| 0 <= i < end.len() ==> #[trigger] end[i] == '\n' || end[i] == '\r',
    ensures
        without_line_end(prompt + end) == prompt,
    decreases end.len(),
{
    let line = prompt + end;
    if end.len() > 0 {
        let less = end.drop_last();
        assert(line.last() == end[end.len() - 1]);
        assert(line.drop_last() =~= prompt + less);
        assert forall|i: int| 0 <= i < less.len() implies #[trigger] less[i] == '\n' || less[i]
            == '\r' by {
            assert(less[i] == end[i]);
        }
        prompt_loses_its_line_end(prompt, less);
    } else {
        assert(line =~= prompt);
    }
}

/// Whoever connects is served, also after the job is over; the server waits while
/// the job runs and stops once it is over and no one waits, or on a failure.
pub proof fn server_stops_with_the_job(event: Accepted, over: bool)
    ensures
        served(event, over) is Serve <==> event is Connection,
        served(event, over) is Stop <==> event is Failure || (event is WouldBlock && over),
        served(event, over) is Pause <==> event is WouldBlock && !over,
        served(event, over) matches Serving::Pause(ms) ==> 0 < ms < 1000,
{
}

/// git and ssh ask this program for every password, which knows the socket to
/// answer by, and neither reads the terminal.
pub proof fn passwords_are_asked_of_this_program()
    ensures
        environment().contains(
            VariableView { name: "SSH_ASKPASS"@, value: SettingView::Program },
        ),
        environment().contains(
            VariableView { name: "GIT_ASKPASS"@, value: SettingView::Program },
        ),
        environment().contains(
            VariableView { name: "SSH_ASKPASS_REQUIRE"@, value: SettingView::Text("force"@) },
        ),
        environment().contains(
            VariableView { name: "SPOR_ASKPASS"@, value: SettingView::Text("1"@) },
        ),
        environment().contains(
            VariableView { name: "SPOR_ASKPASS_SOCK"@, value: SettingView::Socket },
        ),
        environment().contains(
            VariableView { name: "GIT_TERMINAL_PROMPT"@, value: SettingView::Text("0"@) },
        ),
{
    let all = environment();
    assert(all[0].name == "SSH_ASKPASS"@);
    assert(all[1].name == "SSH_ASKPASS_REQUIRE"@);
    assert(all[2].name == "GIT_ASKPASS"@);
    assert(all[3].name == "SPOR_ASKPASS"@);
    assert(all[4].name == "SPOR_ASKPASS_SOCK"@);
    assert(all[5].name == "GIT_TERMINAL_PROMPT"@);
}

} // verus!

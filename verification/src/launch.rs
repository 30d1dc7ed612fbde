//! How an invocation gets to codex: through a broker that runs already, through one that it
//! starts, or directly; and which program codex is.

use vstd::prelude::*;
use crate::args;
use crate::args::should_attach_to_existing;
use crate::args::should_run_codex_direct;
use crate::text;
use crate::text::push_texts;
use crate::text::text_eq;

verus! {

/// The argument that makes the process a broker.
pub const INTERNAL_SERVER_ARG: &'static str = "--coder-server";

/// What is said where a broker is not told what to run.
pub const SERVER_ARG_ERROR: &'static str = "--coder-server expects a config path";

/// What is said where a broker that was started cannot be reached.
pub const WAIT_ERROR: &'static str = "timed out waiting for coder broker to start";

/// How long a broker that was started is waited for, in nanoseconds.
pub const WAIT_LIMIT: u128 = 10_000_000_000;

/// The node program that codex is run with where both are found.
pub const NODE_PATH: &'static str = "C:\\Programs\\nodejs\\node.exe";

/// The script that node runs as codex.
pub const CODEX_JS_PATH: &'static str =
    "C:\\Programs\\nodejs\\node_modules\\@openai\\codex\\bin\\codex.js";

/// The extensions of programs where the environment names none.
pub const DEFAULT_PATHEXT: &'static str = ".COM;.EXE;.BAT;.CMD";

/// What a process is.
#[derive(Debug)]
pub enum Startup {
    /// A broker, which reads what to run from a file.
    Server { config_path: String },
    /// A foreground client.
    Client,
}

/// What a process is, as a value: a broker with its file, a client, or neither.
pub enum Role {
    Server(Seq<char>),
    Client,
    Misused(Seq<char>),
}

/// What a process is, by its arguments.
pub open spec fn role(args: Seq<Seq<char>>) -> Role {
    if args.len() == 0 || args[0] != INTERNAL_SERVER_ARG@ {
        Role::Client
    } else if args.len() == 2 {
        Role::Server(args[1])
    } else {
        Role::Misused(SERVER_ARG_ERROR@)
    }
}

/// What a process is, as a value.
pub open spec fn role_view(r: Result<Startup, &'static str>) -> Role {
    match r {
        Ok(Startup::Server { config_path }) => Role::Server(config_path@),
        Ok(Startup::Client) => Role::Client,
        Err(message) => Role::Misused(message@),
    }
}

/// What a process is, by its arguments. A broker has one argument more.
pub fn startup(args: &[String]) -> (r: Result<Startup, &'static str>)
    ensures
        ({
            let given = text::texts(args@);
            if given.len() > 0 && given[0] == INTERNAL_SERVER_ARG@ {
                if given.len() == 2 {
                    r matches Ok(Startup::Server { config_path }) && config_path@ == given[1]
                } else {
                    r matches Err(message) && message@ == SERVER_ARG_ERROR@
                }
            } else {
                r matches Ok(Startup::Client)
            }
        }),
        role_view(r) == role(text::texts(args@)),
{
    if args.len() == 0 || !text_eq(args[0].as_str(), INTERNAL_SERVER_ARG) {
        return Ok(Startup::Client);
    }
    if args.len() != 2 {
        return Err(SERVER_ARG_ERROR);
    }
    Ok(Startup::Server { config_path: args[1].clone() })
}

/// How an invocation gets to codex.
#[derive(Clone, Copy, Debug, PartialEq, Eq, Structural)]
pub enum Launch {
    /// It attaches to the broker that it is connected to.
    Attach,
    /// It runs codex without a broker.
    RunDirect,
    /// It starts a broker and attaches to that.
    StartBroker,
}

/// How an invocation gets to codex, where `connected` says whether a broker of its session was
/// reached, and `state_file` whether there is a file that describes one.
pub open spec fn launch(args: Seq<Seq<char>>, connected: bool, state_file: bool) -> Launch {
    if args::attaches(args) && connected {
        Launch::Attach
    } else if args::runs_direct(args) || (state_file && !args::attaches(args)) {
        Launch::RunDirect
    } else {
        Launch::StartBroker
    }
}

/// How an invocation gets to codex.
pub fn choose_launch(args: &[String], connected: bool, state_file: bool) -> (r: Launch)
    ensures
        r == launch(text::texts(args@), connected, state_file),
{
    let attach: bool = should_attach_to_existing(args);
    if attach && connected {
        Launch::Attach
    } else if should_run_codex_direct(args) || (state_file && !attach) {
        Launch::RunDirect
    } else {
        Launch::StartBroker
    }
}

/// What has been found out about a broker that may run already.
#[derive(Clone, Copy, Debug, PartialEq, Eq, Structural)]
pub enum Probe {
    /// Whether there is a file that describes it.
    StateFile(bool),
    /// The port that the file names; none where the file cannot be read.
    Port(Option<u16>),
    /// Whether it could be connected to.
    Connected(bool),
}

/// What is done next to reach a broker.
#[derive(Clone, Copy, Debug, PartialEq, Eq, Structural)]
pub enum ProbeStep {
    ReadState,
    Connect(u16),
    /// There is a broker.
    Reached,
    /// There is none, and nothing says that there is one.
    Absent,
    /// There is none, and the file that says there is one is removed.
    Stale,
}

/// What is done next to reach a broker, for what has been found out.
pub open spec fn next_probe(found: Probe) -> ProbeStep {
    match found {
        Probe::StateFile(present) => if present {
            ProbeStep::ReadState
        } else {
            ProbeStep::Absent
        },
        Probe::Port(Some(port)) => ProbeStep::Connect(port),
        Probe::Port(None) => ProbeStep::Stale,
        Probe::Connected(reached) => if reached {
            ProbeStep::Reached
        } else {
            ProbeStep::Stale
        },
    }
}

/// What is done next to reach a broker that may run already.
pub fn connect_existing(found: Probe) -> (r: ProbeStep)
    ensures
        r == (match found {
            Probe::StateFile(true) => ProbeStep::ReadState,
            Probe::StateFile(false) => ProbeStep::Absent,
            Probe::Port(Some(port)) => ProbeStep::Connect(port),
            Probe::Port(None) => ProbeStep::Stale,
            Probe::Connected(true) => ProbeStep::Reached,
            Probe::Connected(false) => ProbeStep::Stale,
        }),
        r == next_probe(found),
{
    match found {
        Probe::StateFile(present) => if present {
            ProbeStep::ReadState
        } else {
            ProbeStep::Absent
        },
        Probe::Port(port) => match port {
            Some(port) => ProbeStep::Connect(port),
            None => ProbeStep::Stale,
        },
        Probe::Connected(reached) => if reached {
            ProbeStep::Reached
        } else {
            ProbeStep::Stale
        },
    }
}

/// Whether a broker that was started is waited for any longer, where `elapsed` nanoseconds have
/// passed.
#[derive(Clone, Copy, Debug, PartialEq, Eq, Structural)]
pub enum WaitStep {
    Reached,
    Retry,
    TimedOut,
}

/// Whether a broker is waited for any longer.
pub open spec fn waited(reached: bool, elapsed: u128) -> WaitStep {
    if reached {
        WaitStep::Reached
    } else if elapsed > WAIT_LIMIT {
        WaitStep::TimedOut
    } else {
        WaitStep::Retry
    }
}

/// Whether a broker that was started is waited for any longer, where `elapsed` nanoseconds have
/// passed.
pub fn wait_for_server(reached: bool, elapsed: u128) -> (r: WaitStep)
    ensures
        r == (if reached {
            WaitStep::Reached
        } else if elapsed > WAIT_LIMIT {
            WaitStep::TimedOut
        } else {
            WaitStep::Retry
        }),
        r == waited(reached, elapsed),
{
    if reached {
        WaitStep::Reached
    } else if elapsed > WAIT_LIMIT {
        WaitStep::TimedOut
    } else {
        WaitStep::Retry
    }
}

/// A program: one that the environment names, or one that is known by its name.
#[derive(Debug)]
pub enum CodexProgram<P> {
    Custom(P),
    Known(&'static str),
}

/// The command that codex is run with.
#[derive(Debug)]
pub struct ResolvedCodexCommand<P> {
    pub program: CodexProgram<P>,
    pub args: Vec<String>,
}

/// The program that is run as codex where the environment names none.
pub open spec fn known_program(node_and_script: bool) -> Seq<char> {
    if node_and_script {
        NODE_PATH@
    } else {
        "codex"@
    }
}

/// The arguments of the program that is run as codex.
pub open spec fn program_args(
    named: bool,
    node_and_script: bool,
    args: Seq<Seq<char>>,
) -> Seq<Seq<char>> {
    if !named && node_and_script {
        seq![CODEX_JS_PATH@] + args
    } else {
        args
    }
}

/// The command that codex is run with: the program that the environment names, or node with the
/// script of codex where both are installed, or else `codex`. The arguments come last, unchanged.
pub fn resolve_codex_command<P>(custom: Option<P>, node_and_script: bool, codex_args: &[String])
    -> (r: ResolvedCodexCommand<P>)
    ensures
        match custom {
            Some(program) => r.program == CodexProgram::Custom(program),
            None => r.program matches CodexProgram::Known(name) && name@ == (if node_and_script {
                NODE_PATH@
            } else {
                "codex"@
            }),
        },
        text::texts(r.args@) == (if custom is None && node_and_script {
            seq![CODEX_JS_PATH@] + text::texts(codex_args@)
        } else {
            text::texts(codex_args@)
        }),
        custom is None ==> (r.program matches CodexProgram::Known(name) && name@ == known_program(
            node_and_script,
        )),
        text::texts(r.args@) == program_args(
            custom is Some,
            node_and_script,
            text::texts(codex_args@),
        ),
{
    let mut args: Vec<String> = Vec::new();
    let program: CodexProgram<P> = match custom {
        Some(program) => CodexProgram::Custom(program),
        None => if node_and_script {
            args.push(CODEX_JS_PATH.to_string());
            CodexProgram::Known(NODE_PATH)
        } else {
            CodexProgram::Known("codex")
        },
    };
    assert(text::texts(args@) =~= if custom is None && node_and_script {
        seq![CODEX_JS_PATH@]
    } else {
        Seq::empty()
    });
    push_texts(&mut args, codex_args);
    assert(text::texts(args@) =~= if custom is None && node_and_script {
        seq![CODEX_JS_PATH@] + text::texts(codex_args@)
    } else {
        text::texts(codex_args@)
    });
    ResolvedCodexCommand { program, args }
}

/// What is said where codex cannot be found.
pub open spec fn missing_codex(program: Seq<char>) -> Seq<char> {
    "Codex executable was not found: "@ + program
        + ". Install the Codex CLI so `codex` is on PATH, or set CODER_CODEX to the Codex executable path."@
}

/// Fails where codex has not been found, with a message that says what can be done about it.
pub fn ensure_codex_available(found: bool, program: &str) -> (r: Result<(), String>)
    ensures
        match r {
            Ok(()) => found,
            Err(message) => !found && message@ == missing_codex(program@),
        },
{
    if found {
        return Ok(());
    }
    let mut message: String = "Codex executable was not found: ".to_string();
    message.append(program);
    message.append(
        ". Install the Codex CLI so `codex` is on PATH, or set CODER_CODEX to the Codex executable path.",
    );
    Err(message)
}

/// The exit code after a direct run of codex.
pub open spec fn direct_code(status: Option<i32>) -> i32 {
    match status {
        Some(code) => code,
        None => 1,
    }
}

/// Whether a program is given by a path.
pub open spec fn path_like(absolute: bool, components: usize) -> bool {
    absolute || components > 1
}

/// The exit code after a direct run of codex, where `status` is the code that it ended with. One
/// that ended without a code counts as failed.
pub fn direct_exit_code(status: Option<i32>) -> (r: i32)
    ensures
        r == (match status {
            Some(code) => code,
            None => 1i32,
        }),
        r == direct_code(status),
{
    match status {
        Some(code) => code,
        None => 1,
    }
}

/// Whether a program is given by a path: an absolute one, or one of several components.
pub fn is_path_like(absolute: bool, components: usize) -> (r: bool)
    ensures
        r == (absolute || components > 1),
        r == path_like(absolute, components),
{
    absolute || components > 1
}

/// A place where a program may be.
#[derive(Clone, Copy, Debug, PartialEq, Eq, Structural)]
pub enum Candidate {
    /// The path that the program is given by.
    Itself,
    /// In a directory of the search path.
    InDirectory(usize),
    /// In a directory of the search path, with one of the extensions of programs.
    WithExtension(usize, usize),
}

/// The first place to look for a program, where `directories` is the length of the search path,
/// if there is one.
pub open spec fn first_place(path_like: bool, directories: Option<usize>) -> Option<Candidate> {
    if path_like {
        Some(Candidate::Itself)
    } else if directories is Some && directories->0 > 0 {
        Some(Candidate::InDirectory(0))
    } else {
        None
    }
}

/// The place to look at after `current`. Where `bare` says that the program has no extension of
/// its own, each of the extensions is tried in a directory before the next one.
pub open spec fn next_place(
    current: Candidate,
    bare: bool,
    directories: usize,
    extensions: usize,
) -> Option<Candidate> {
    let following = |i: usize| if i + 1 < directories {
        Some(Candidate::InDirectory((i + 1) as usize))
    } else {
        None
    };
    match current {
        Candidate::Itself => None,
        Candidate::InDirectory(i) => if bare && extensions > 0 {
            Some(Candidate::WithExtension(i, 0))
        } else {
            following(i)
        },
        Candidate::WithExtension(i, j) => if j + 1 < extensions {
            Some(Candidate::WithExtension(i, (j + 1) as usize))
        } else {
            following(i)
        },
    }
}

/// The first place to look for a program.
pub fn first_candidate(path_like: bool, directories: Option<usize>) -> (r: Option<Candidate>)
    ensures
        r == first_place(path_like, directories),
{
    if path_like {
        return Some(Candidate::Itself);
    }
    match directories {
        Some(n) => if n > 0 {
            Some(Candidate::InDirectory(0))
        } else {
            None
        },
        None => None,
    }
}

/// The place to look at after `current`, where the program was not found there.
pub fn next_candidate(current: Candidate, bare: bool, directories: usize, extensions: usize) -> (r:
    Option<Candidate>)
    ensures
        r == next_place(current, bare, directories, extensions),
{
    let i: usize = match current {
        Candidate::Itself => {
            return None;
        },
        Candidate::InDirectory(i) => {
            if bare && extensions > 0 {
                return Some(Candidate::WithExtension(i, 0));
            }
            i
        },
        Candidate::WithExtension(i, j) => {
            if extensions > 0 && j < extensions - 1 {
                return Some(Candidate::WithExtension(i, j + 1));
            }
            i
        },
    };
    if directories > 0 && i < directories - 1 {
        Some(Candidate::InDirectory(i + 1))
    } else {
        None
    }
}

/// The pieces of a list of extensions that are not empty.
pub open spec fn extensions_in(list: Seq<char>) -> Seq<Seq<char>> {
    text::split(list, ';').filter(|piece: Seq<char>| piece.len() > 0)
}

/// The extensions of programs, where `pathext` is the list that the environment names.
pub fn windows_path_extensions(pathext: Option<&str>) -> (r: Vec<String>)
    ensures
        text::texts(r@) == extensions_in(
            match pathext {
                Some(list) => list@,
                None => DEFAULT_PATHEXT@,
            },
        ),
{
    let list: &str = match pathext {
        Some(list) => list,
        None => DEFAULT_PATHEXT,
    };
    let ghost pred = |piece: Seq<char>| piece.len() > 0;
    let mut out: Vec<String> = Vec::new();
    let mut piece = String::new();
    let mut rest = list.chars();
    let ghost mut k: int = 0;
    proof {
        assert(list@.take(0) =~= Seq::empty());
        assert(list@.skip(0) =~= list@);
        let none = text::split(list@.take(0), ';');
        assert(none.drop_last() =~= Seq::empty());
        reveal(Seq::filter);
        assert(text::texts(out@) =~= none.drop_last().filter(pred));
    }
    loop
        invariant
            0 <= k <= list@.len(),
            pred == (|piece: Seq<char>| piece.len() > 0),
            vstd::std_specs::iter::IteratorSpec::remaining(&rest) == list@.skip(k),
            text::split(list@.take(k), ';').len() > 0,
            text::texts(out@) == text::split(list@.take(k), ';').drop_last().filter(pred),
            piece@ == text::split(list@.take(k), ';').last(),
        ensures
            text::split(list@, ';').len() > 0,
            text::texts(out@) == text::split(list@, ';').drop_last().filter(pred),
            piece@ == text::split(list@, ';').last(),
        decreases list@.len() - k,
    {
        match rest.next() {
            None => {
                assert(list@.take(k) =~= list@);
                break;
            },
            Some(ch) => {
                let ghost before = text::split(list@.take(k), ';');
                let ghost found = text::texts(out@);
                proof {
                    reveal(Seq::filter);
                    assert(list@.take(k + 1).drop_last() =~= list@.take(k));
                    assert(list@.take(k + 1).last() == ch);
                }
                if ch == ';' {
                    if !piece.as_str().is_empty() {
                        let ghost last = piece@;
                        out.push(piece);
                        assert(text::texts(out@) =~= found.push(last));
                    }
                    piece = String::new();
                    proof {
                        assert(text::split(list@.take(k + 1), ';').drop_last() =~= before);
                        assert(text::texts(out@) =~= before.filter(pred));
                    }
                } else {
                    piece.push(ch);
                    proof {
                        assert(text::split(list@.take(k + 1), ';').drop_last()
                            =~= before.drop_last());
                    }
                }
                proof {
                    k = k + 1;
                }
            },
        }
    }
    proof {
        reveal(Seq::filter);
    }
    if !piece.as_str().is_empty() {
        let ghost found = text::texts(out@);
        let ghost last = piece@;
        out.push(piece);
        assert(text::texts(out@) =~= found.push(last));
    }
    assert(text::texts(out@) =~= extensions_in(list@));
    out
}

/// A broker that runs already is attached to by plain `coder` and by `coder resume`, and by them
/// alone.
pub proof fn law_running_broker_is_reattached(args: Seq<Seq<char>>, state_file: bool)
    ensures
        args.len() == 0 || args[0] == "resume"@ ==> launch(args, true, state_file)
            == Launch::Attach,
        launch(args, true, state_file) == Launch::Attach <==> args::attaches(args),
{
    if args.len() == 0 || args[0] == "resume"@ {
        args::law_plain_invocations_attach(args);
    }
}

/// Without a broker that can be reached, plain `coder` and `coder resume` start one, unless they
/// only ask for information.
pub proof fn law_broker_is_started_where_none_runs(args: Seq<Seq<char>>, state_file: bool)
    requires
        args.len() == 0 || args[0] == "resume"@,
        forall|i: int| 0 <= i < args.len() ==> !args::information_flag(#[trigger] args[i]),
    ensures
        launch(args, false, state_file) == Launch::StartBroker,
{
    args::law_plain_invocations_attach(args);
    args::law_attached_sessions_have_a_broker(args);
}

/// No second broker is started beside one that has left its file: another invocation of the
/// session runs codex directly.
pub proof fn law_other_invocations_leave_a_broker_alone(args: Seq<Seq<char>>, connected: bool)
    requires
        !args::attaches(args),
    ensures
        launch(args, connected, true) == Launch::RunDirect,
{
}

/// Whether a place is one of those in the search path.
pub open spec fn in_search_path(place: Candidate, directories: usize, extensions: usize) -> bool {
    match place {
        Candidate::Itself => false,
        Candidate::InDirectory(i) => i < directories,
        Candidate::WithExtension(i, j) => i < directories && j < extensions,
    }
}

/// The number of a place in the order of the search, for a program without an extension.
pub open spec fn place_number(place: Candidate, extensions: usize) -> int {
    match place {
        Candidate::Itself => 0,
        Candidate::InDirectory(i) => i * (extensions + 1),
        Candidate::WithExtension(i, j) => i * (extensions + 1) + j + 1,
    }
}

/// The search for a program without an extension goes through all places of the search path, one
/// after the other, and leaves none out.
pub proof fn law_search_visits_every_place(
    place: Candidate,
    directories: usize,
    extensions: usize,
)
    requires
        in_search_path(place, directories, extensions),
    ensures
        first_place(false, Some(directories)) == Some(Candidate::InDirectory(0)),
        place_number(Candidate::InDirectory(0), extensions) == 0,
        match next_place(place, true, directories, extensions) {
            Some(next) => in_search_path(next, directories, extensions) && place_number(
                next,
                extensions,
            ) == place_number(place, extensions) + 1,
            None => place_number(place, extensions) + 1 == directories * (extensions + 1),
        },
{
    let i: int = match place {
        Candidate::InDirectory(i) => i as int,
        Candidate::WithExtension(i, _) => i as int,
        Candidate::Itself => 0,
    };
    let width: int = extensions + 1;
    assert((i + 1) * width == i * width + width) by (nonlinear_arith);
    assert(0 * width == 0) by (nonlinear_arith);
    if i + 1 == directories {
        assert((i + 1) * width == directories * width);
    }
}

/// Different places have different numbers in the order of the search.
pub proof fn law_search_order_is_strict(
    a: Candidate,
    b: Candidate,
    directories: usize,
    extensions: usize,
)
    requires
        in_search_path(a, directories, extensions),
        in_search_path(b, directories, extensions),
        place_number(a, extensions) == place_number(b, extensions),
    ensures
        a == b,
{
    let (i, x): (int, int) = match a {
        Candidate::InDirectory(i) => (i as int, 0),
        Candidate::WithExtension(i, j) => (i as int, j + 1),
        Candidate::Itself => (0, 0),
    };
    let (k, y): (int, int) = match b {
        Candidate::InDirectory(i) => (i as int, 0),
        Candidate::WithExtension(i, j) => (i as int, j + 1),
        Candidate::Itself => (0, 0),
    };
    let width: int = extensions + 1;
    assert(i == k && x == y) by (nonlinear_arith)
        requires
            0 <= x < width,
            0 <= y < width,
            i * width + x == k * width + y,
    ;
}

/// The search for a program with an extension goes through the directories alone.
pub proof fn law_search_with_extension_tries_directories_alone(
    i: usize,
    directories: usize,
    extensions: usize,
)
    requires
        i < directories,
    ensures
        next_place(Candidate::InDirectory(i), false, directories, extensions) == (if i + 1
            < directories {
            Some(Candidate::InDirectory((i + 1) as usize))
        } else {
            None
        }),
{
}

/// An invocation attaches where it may and a broker was reached, and only there.
pub proof fn law_who_is_attached(args: Seq<Seq<char>>, connected: bool, state_file: bool)
    ensures
        launch(args, connected, state_file) == Launch::Attach <==> connected && args::attaches(args),
        launch(args, false, state_file) != Launch::Attach,
{
}

/// A command that is no interactive session runs directly, whether or not there is a state file, and
/// no broker is started for it. So does an invocation that asks for information and has reached no
/// broker to attach to.
pub proof fn law_direct_invocations_have_no_broker(
    args: Seq<Seq<char>>,
    connected: bool,
    state_file: bool,
    i: int,
)
    ensures
        args::positional(args) matches Some(command) ==> (args::direct_command(command) ==> launch(
            args,
            connected,
            state_file,
        ) == Launch::RunDirect),
        0 <= i < args.len() && args::information_flag(args[i]) && !(connected && args::attaches(
            args,
        )) ==> launch(args, connected, state_file) == Launch::RunDirect,
{
    args::law_who_runs_directly(args, i);
    args::lemma_positional_index(args);
}

/// The first argument decides: with one of the commands that are no interactive session in front,
/// codex runs directly, whatever follows and whatever broker there is.
pub proof fn law_direct_command_runs_directly(
    args: Seq<Seq<char>>,
    connected: bool,
    state_file: bool,
)
    requires
        args.len() > 0,
        args[0] == "exec"@ || args[0] == "e"@ || args[0] == "review"@ || args[0] == "login"@
            || args[0] == "logout"@ || args[0] == "mcp"@ || args[0] == "plugin"@ || args[0]
            == "mcp-server"@ || args[0] == "app-server"@ || args[0] == "remote-control"@ || args[0]
            == "app"@ || args[0] == "completion"@ || args[0] == "update"@ || args[0] == "doctor"@
            || args[0] == "sandbox"@ || args[0] == "debug"@ || args[0] == "apply"@ || args[0]
            == "a"@ || args[0] == "fork"@ || args[0] == "cloud"@ || args[0] == "features"@
            || args[0] == "help"@,
    ensures
        launch(args, connected, state_file) == Launch::RunDirect,
{
    reveal_strlit("exec");
    reveal_strlit("e");
    reveal_strlit("review");
    reveal_strlit("login");
    reveal_strlit("logout");
    reveal_strlit("mcp");
    reveal_strlit("plugin");
    reveal_strlit("mcp-server");
    reveal_strlit("app-server");
    reveal_strlit("remote-control");
    reveal_strlit("app");
    reveal_strlit("completion");
    reveal_strlit("update");
    reveal_strlit("doctor");
    reveal_strlit("sandbox");
    reveal_strlit("debug");
    reveal_strlit("apply");
    reveal_strlit("a");
    reveal_strlit("fork");
    reveal_strlit("cloud");
    reveal_strlit("features");
    reveal_strlit("help");
    assert(args::direct_command(args[0]));
    args::law_first_argument_decides(args);
    law_direct_invocations_have_no_broker(args, connected, state_file, 0);
}

/// Where no broker was reached, an interactive session starts one: `resume` and plain `coder` always,
/// a prompt where no file says that there is a broker already. With such a file a prompt runs codex
/// directly.
pub proof fn law_interactive_sessions_have_a_broker(args: Seq<Seq<char>>, state_file: bool)
    requires
        !args::runs_direct(args),
    ensures
        args::attaches(args) ==> launch(args, false, state_file) == Launch::StartBroker,
        launch(args, false, false) == Launch::StartBroker,
        !args::attaches(args) ==> launch(args, false, true) == Launch::RunDirect,
        !args::attaches(args) ==> launch(args, true, state_file) == launch(args, false, state_file),
{
}

/// A process is a broker by its first argument and one more, which names its file. With any other
/// number of them it is misused, and every other process is a client.
pub proof fn law_roles(config: Seq<char>, args: Seq<Seq<char>>)
    ensures
        role(seq!["--coder-server"@, config]) == Role::Server(config),
        args.len() > 0 && args[0] == "--coder-server"@ && args.len() != 2 ==> role(args)
            == Role::Misused("--coder-server expects a config path"@),
        args.len() == 0 || args[0] != "--coder-server"@ ==> role(args) == Role::Client,
{
}

/// A broker is looked for step by step: the file, the port in it, the connection. The file goes where
/// it cannot be read or leads nowhere.
pub proof fn law_probe_steps(port: u16)
    ensures
        next_probe(Probe::StateFile(false)) == ProbeStep::Absent,
        next_probe(Probe::StateFile(true)) == ProbeStep::ReadState,
        next_probe(Probe::Port(Some(port))) == ProbeStep::Connect(port),
        next_probe(Probe::Port(None)) == ProbeStep::Stale,
        next_probe(Probe::Connected(true)) == ProbeStep::Reached,
        next_probe(Probe::Connected(false)) == ProbeStep::Stale,
{
}

/// A broker that was started is waited for until it is reached, ten seconds at most.
pub proof fn law_waiting_ends(elapsed: u128)
    ensures
        waited(true, elapsed) == WaitStep::Reached,
        elapsed <= 10_000_000_000 ==> waited(false, elapsed) == WaitStep::Retry,
        elapsed > 10_000_000_000 ==> waited(false, elapsed) == WaitStep::TimedOut,
{
}

/// The arguments reach codex as they are, at the end of its own, and a program that the environment
/// names gets no others.
pub proof fn law_arguments_reach_codex(named: bool, node_and_script: bool, args: Seq<Seq<char>>)
    ensures
        ({
            let all = program_args(named, node_and_script, args);
            &&& all.len() >= args.len()
            &&& all.skip(all.len() - args.len()) == args
            &&& named || !node_and_script ==> all.len() == args.len()
            &&& !named && node_and_script ==> all.len() == args.len() + 1 && all[0]
                == "C:\\Programs\\nodejs\\node_modules\\@openai\\codex\\bin\\codex.js"@
        }),
        known_program(true) == "C:\\Programs\\nodejs\\node.exe"@,
        known_program(false) == "codex"@,
{
    let all = program_args(named, node_and_script, args);
    assert(all.skip(all.len() - args.len()) =~= args);
}

/// A program that is given by a path is looked for there alone.
pub proof fn law_path_is_looked_for_alone(
    bare: bool,
    directories: usize,
    extensions: usize,
    path: Option<usize>,
)
    ensures
        first_place(true, path) == Some(Candidate::Itself),
        next_place(Candidate::Itself, bare, directories, extensions) is None,
        first_place(false, None) is None,
        first_place(false, Some(0)) is None,
{
}

/// Extensions are the parts of a list between the semicolons, in their order, without the empty
/// ones.
pub proof fn law_extensions_of_a_list(a: Seq<char>, b: Seq<char>)
    requires
        !a.contains(';'),
    ensures
        a.len() > 0 ==> extensions_in(a) == seq![a],
        a.len() == 0 ==> extensions_in(a).len() == 0,
        extensions_in(a + seq![';'] + b) == extensions_in(a) + extensions_in(b),
{
    text::law_split_at_first_separator(a, ';', b);
    let pred = |piece: Seq<char>| piece.len() > 0;
    let rest = text::split(b, ';');
    lemma_filter_first(a, rest);
    reveal(Seq::filter);
    assert(seq![a].drop_last() =~= Seq::empty());
    assert(seq![a].last() == a);
    assert(Seq::<Seq<char>>::empty().filter(pred) =~= Seq::empty());
    assert(extensions_in(a) =~= if a.len() > 0 {
        seq![a]
    } else {
        Seq::empty()
    });
}

proof fn lemma_filter_first(first: Seq<char>, rest: Seq<Seq<char>>)
    ensures
        ({
            let pred = |piece: Seq<char>| piece.len() > 0;
            (seq![first] + rest).filter(pred) == seq![first].filter(pred) + rest.filter(pred)
        }),
    decreases rest.len(),
{
    reveal(Seq::filter);
    let pred = |piece: Seq<char>| piece.len() > 0;
    let all = seq![first] + rest;
    if rest.len() == 0 {
        assert(all =~= seq![first]);
        assert(seq![first].filter(pred) + rest.filter(pred) =~= seq![first].filter(pred));
    } else {
        lemma_filter_first(first, rest.drop_last());
        assert(all.drop_last() =~= seq![first] + rest.drop_last());
        assert(all.last() == rest.last());
        assert(all.filter(pred) =~= seq![first].filter(pred) + rest.filter(pred));
    }
}

/// Where codex is missing, the message names the program that was looked for, and says what can be
/// done.
pub proof fn law_missing_codex_is_explained(program: Seq<char>)
    ensures
        ({
            let start = "Codex executable was not found: "@;
            &&& start.is_prefix_of(missing_codex(program))
            &&& missing_codex(program).skip(start.len() as int) == program
                + ". Install the Codex CLI so `codex` is on PATH, or set CODER_CODEX to the Codex executable path."@
        }),
{
    let start = "Codex executable was not found: "@;
    assert(missing_codex(program).subrange(0, start.len() as int) =~= start);
    assert(missing_codex(program).skip(start.len() as int) =~= program
        + ". Install the Codex CLI so `codex` is on PATH, or set CODER_CODEX to the Codex executable path."@);
}

/// A direct run passes on the exit code that it got, and fails where it got none. A program is given
/// by a path where that is absolute or has more than one component.
pub proof fn law_direct_runs_and_paths(code: i32, components: usize)
    ensures
        direct_code(Some(code)) == code,
        direct_code(None) == 1,
        path_like(true, components),
        components >= 2 ==> path_like(false, components),
        components <= 1 ==> !path_like(false, components),
{
}

} // verus!

//! How the arguments for codex are read: which of them are options, which is the command, and
//! whether the invocation belongs to a broker.

use vstd::prelude::*;
use crate::text;
use crate::text::contains_char;
use crate::text::starts_with;
use crate::text::text_eq;

verus! {

/// Options that take the next argument as their value.
pub open spec fn is_value_option(arg: Seq<char>) -> bool {
    ||| arg == "-c"@
    ||| arg == "--config"@
    ||| arg == "-i"@
    ||| arg == "--image"@
    ||| arg == "-m"@
    ||| arg == "--model"@
    ||| arg == "--local-provider"@
    ||| arg == "-p"@
    ||| arg == "--profile"@
    ||| arg == "-s"@
    ||| arg == "--sandbox"@
    ||| arg == "-C"@
    ||| arg == "--cd"@
    ||| arg == "--add-dir"@
    ||| arg == "-a"@
    ||| arg == "--ask-for-approval"@
    ||| arg == "--remote"@
    ||| arg == "--remote-auth-token-env"@
    ||| arg == "--enable"@
    ||| arg == "--disable"@
}

/// Options that carry their value behind an equals sign.
pub open spec fn is_inline_value_option(arg: Seq<char>) -> bool {
    ||| "--config="@.is_prefix_of(arg)
    ||| "--image="@.is_prefix_of(arg)
    ||| "--model="@.is_prefix_of(arg)
    ||| "--local-provider="@.is_prefix_of(arg)
    ||| "--profile="@.is_prefix_of(arg)
    ||| "--sandbox="@.is_prefix_of(arg)
    ||| "--cd="@.is_prefix_of(arg)
    ||| "--add-dir="@.is_prefix_of(arg)
    ||| "--ask-for-approval="@.is_prefix_of(arg)
    ||| "--remote="@.is_prefix_of(arg)
    ||| "--remote-auth-token-env="@.is_prefix_of(arg)
    ||| "--enable="@.is_prefix_of(arg)
    ||| "--disable="@.is_prefix_of(arg)
}

/// Whether an argument is an option that takes a value.
pub open spec fn takes_value(arg: Seq<char>) -> bool {
    is_value_option(arg) || is_inline_value_option(arg)
}

/// Whether an argument is an option that takes a value.
pub fn option_takes_value(arg: &str) -> (r: bool)
    ensures
        r == takes_value(arg@),
{
    text_eq(arg, "-c")
        || text_eq(arg, "--config")
        || text_eq(arg, "-i")
        || text_eq(arg, "--image")
        || text_eq(arg, "-m")
        || text_eq(arg, "--model")
        || text_eq(arg, "--local-provider")
        || text_eq(arg, "-p")
        || text_eq(arg, "--profile")
        || text_eq(arg, "-s")
        || text_eq(arg, "--sandbox")
        || text_eq(arg, "-C")
        || text_eq(arg, "--cd")
        || text_eq(arg, "--add-dir")
        || text_eq(arg, "-a")
        || text_eq(arg, "--ask-for-approval")
        || text_eq(arg, "--remote")
        || text_eq(arg, "--remote-auth-token-env")
        || text_eq(arg, "--enable")
        || text_eq(arg, "--disable")
        || starts_with(arg, "--config=")
        || starts_with(arg, "--image=")
        || starts_with(arg, "--model=")
        || starts_with(arg, "--local-provider=")
        || starts_with(arg, "--profile=")
        || starts_with(arg, "--sandbox=")
        || starts_with(arg, "--cd=")
        || starts_with(arg, "--add-dir=")
        || starts_with(arg, "--ask-for-approval=")
        || starts_with(arg, "--remote=")
        || starts_with(arg, "--remote-auth-token-env=")
        || starts_with(arg, "--enable=")
        || starts_with(arg, "--disable=")
}

/// Whether a long option carries a value behind an equals sign.
pub open spec fn inline_value(arg: Seq<char>) -> bool {
    "--"@.is_prefix_of(arg) && arg.contains('=')
}

/// Whether a long option carries a value behind an equals sign.
pub fn has_inline_value(arg: &str) -> (r: bool)
    ensures
        r == inline_value(arg@),
{
    starts_with(arg, "--") && contains_char(arg, '=')
}

/// The flags that codex has for an interactive session.
pub open spec fn known_flag(arg: Seq<char>) -> bool {
    ||| arg == "--oss"@
    ||| arg == "--strict-config"@
    ||| arg == "--dangerously-bypass-approvals-and-sandbox"@
    ||| arg == "--dangerously-bypass-hook-trust"@
    ||| arg == "--search"@
    ||| arg == "--no-alt-screen"@
}

/// Whether an argument is a flag that codex has for an interactive session.
pub fn is_known_flag(arg: &str) -> (r: bool)
    ensures
        r == known_flag(arg@),
{
    text_eq(arg, "--oss")
        || text_eq(arg, "--strict-config")
        || text_eq(arg, "--dangerously-bypass-approvals-and-sandbox")
        || text_eq(arg, "--dangerously-bypass-hook-trust")
        || text_eq(arg, "--search")
        || text_eq(arg, "--no-alt-screen")
}

/// The commands of codex that are no interactive session.
pub open spec fn direct_command(command: Seq<char>) -> bool {
    ||| command == "exec"@
    ||| command == "e"@
    ||| command == "review"@
    ||| command == "login"@
    ||| command == "logout"@
    ||| command == "mcp"@
    ||| command == "plugin"@
    ||| command == "mcp-server"@
    ||| command == "app-server"@
    ||| command == "remote-control"@
    ||| command == "app"@
    ||| command == "completion"@
    ||| command == "update"@
    ||| command == "doctor"@
    ||| command == "sandbox"@
    ||| command == "debug"@
    ||| command == "apply"@
    ||| command == "a"@
    ||| command == "fork"@
    ||| command == "cloud"@
    ||| command == "features"@
    ||| command == "help"@
}

/// Whether a command of codex is no interactive session.
pub fn is_direct_codex_command(command: &str) -> (r: bool)
    ensures
        r == direct_command(command@),
{
    text_eq(command, "exec")
        || text_eq(command, "e")
        || text_eq(command, "review")
        || text_eq(command, "login")
        || text_eq(command, "logout")
        || text_eq(command, "mcp")
        || text_eq(command, "plugin")
        || text_eq(command, "mcp-server")
        || text_eq(command, "app-server")
        || text_eq(command, "remote-control")
        || text_eq(command, "app")
        || text_eq(command, "completion")
        || text_eq(command, "update")
        || text_eq(command, "doctor")
        || text_eq(command, "sandbox")
        || text_eq(command, "debug")
        || text_eq(command, "apply")
        || text_eq(command, "a")
        || text_eq(command, "fork")
        || text_eq(command, "cloud")
        || text_eq(command, "features")
        || text_eq(command, "help")
}

/// The flags that only ask for information.
pub open spec fn information_flag(arg: Seq<char>) -> bool {
    ||| arg == "--help"@
    ||| arg == "-h"@
    ||| arg == "--version"@
    ||| arg == "-V"@
}

fn is_information_flag(arg: &str) -> (r: bool)
    ensures
        r == information_flag(arg@),
{
    text_eq(arg, "--help")
        || text_eq(arg, "-h")
        || text_eq(arg, "--version")
        || text_eq(arg, "-V")
}

/// How many arguments an option takes up, with its value.
pub open spec fn option_width(arg: Seq<char>) -> int {
    if takes_value(arg) && !inline_value(arg) {
        2
    } else {
        1
    }
}

/// Whether an argument is an option.
pub open spec fn is_option(arg: Seq<char>) -> bool {
    takes_value(arg) || "-"@.is_prefix_of(arg)
}

/// The index of the first argument at or after `i` that is `--` or no option. Values of options
/// do not count.
pub open spec fn first_argument(args: Seq<Seq<char>>, i: int) -> int
    decreases args.len() + 1 - i,
{
    if i >= args.len() {
        args.len() as int
    } else if args[i] == "--"@ || !is_option(args[i]) {
        i
    } else {
        first_argument(args, i + option_width(args[i]))
    }
}

/// The index of the first positional argument. Behind `--` there is none.
pub open spec fn positional_index(args: Seq<Seq<char>>) -> Option<int> {
    let i = first_argument(args, 0);
    if i < args.len() && args[i] != "--"@ {
        Some(i)
    } else {
        None
    }
}

/// The first positional argument.
pub open spec fn positional(args: Seq<Seq<char>>) -> Option<Seq<char>> {
    match positional_index(args) {
        Some(i) => Some(args[i]),
        None => None,
    }
}

fn argument_index(args: &[String]) -> (r: usize)
    ensures
        r == first_argument(text::texts(args@), 0),
        r <= args@.len(),
{
    let n: usize = args.len();
    let mut i: usize = 0;
    while i < n
        invariant
            n == args@.len(),
            i <= n,
            first_argument(text::texts(args@), 0) == first_argument(text::texts(args@), i as int),
        decreases n - i,
    {
        let arg: &str = args[i].as_str();
        if text_eq(arg, "--") {
            return i;
        }
        let takes: bool = option_takes_value(arg);
        if !takes && !starts_with(arg, "-") {
            return i;
        }
        let width: usize = if takes && !has_inline_value(arg) {
            2
        } else {
            1
        };
        let ghost next = i as int + width as int;
        i = if n - i <= width {
            n
        } else {
            i + width
        };
        assert(first_argument(text::texts(args@), next) == first_argument(text::texts(args@), i as int));
    }
    n
}

/// An index that was found, as a mathematical number.
pub open spec fn index_view(r: Option<usize>) -> Option<int> {
    match r {
        Some(i) => Some(i as int),
        None => None,
    }
}

/// The index of the first positional argument.
pub fn first_positional_index(args: &[String]) -> (r: Option<usize>)
    ensures
        index_view(r) == positional_index(text::texts(args@)),
        r matches Some(i) ==> i < args@.len(),
{
    let i: usize = argument_index(args);
    if i < args.len() && !text_eq(args[i].as_str(), "--") {
        Some(i)
    } else {
        None
    }
}

/// The first positional argument.
pub fn first_positional(args: &[String]) -> (r: Option<String>)
    ensures
        text::text_view(r) == positional(text::texts(args@)),
{
    match first_positional_index(args) {
        Some(i) => Some(args[i].clone()),
        None => None,
    }
}

/// What a resumed session is called in the arguments behind `resume`: the first positional
/// argument, or the argument behind `--`.
pub open spec fn target(args: Seq<Seq<char>>) -> Option<Seq<char>> {
    let i = first_argument(args, 0);
    if i >= args.len() {
        None
    } else if args[i] != "--"@ {
        Some(args[i])
    } else if i + 1 < args.len() {
        Some(args[i + 1])
    } else {
        None
    }
}

/// What a resumed session is called in the arguments behind `resume`.
pub fn resume_target(args: &[String]) -> (r: Option<String>)
    ensures
        text::text_view(r) == target(text::texts(args@)),
{
    let i: usize = argument_index(args);
    if i >= args.len() {
        return None;
    }
    if !text_eq(args[i].as_str(), "--") {
        return Some(args[i].clone());
    }
    if args.len() - i > 1 {
        Some(args[i + 1].clone())
    } else {
        None
    }
}

/// Whether an option at or after `i`, before the first argument that is none, is unknown.
pub open spec fn unknown_option(args: Seq<Seq<char>>, i: int) -> bool
    decreases args.len() + 1 - i,
{
    if i >= args.len() || args[i] == "--"@ || !is_option(args[i]) {
        false
    } else if takes_value(args[i]) || known_flag(args[i]) {
        unknown_option(args, i + option_width(args[i]))
    } else {
        true
    }
}

/// Whether there is an unknown option before the first argument that is no option.
pub fn has_unknown_option(args: &[String]) -> (r: bool)
    ensures
        r == unknown_option(text::texts(args@), 0),
{
    let n: usize = args.len();
    let mut i: usize = 0;
    while i < n
        invariant
            n == args@.len(),
            i <= n,
            unknown_option(text::texts(args@), 0) == unknown_option(text::texts(args@), i as int),
        decreases n - i,
    {
        let arg: &str = args[i].as_str();
        if text_eq(arg, "--") {
            return false;
        }
        let takes: bool = option_takes_value(arg);
        if !takes {
            if !starts_with(arg, "-") {
                return false;
            }
            if !is_known_flag(arg) {
                return true;
            }
        }
        let width: usize = if takes && !has_inline_value(arg) {
            2
        } else {
            1
        };
        let ghost next = i as int + width as int;
        i = if n - i <= width {
            n
        } else {
            i + width
        };
        assert(unknown_option(text::texts(args@), next) == unknown_option(text::texts(args@), i as int));
    }
    false
}

/// Whether an invocation attaches to a broker that runs already.
pub open spec fn attaches(args: Seq<Seq<char>>) -> bool {
    args.len() == 0 || positional(args) == Some("resume"@)
}

/// Whether an invocation attaches to a broker that runs already.
pub fn should_attach_to_existing(args: &[String]) -> (r: bool)
    ensures
        r == attaches(text::texts(args@)),
{
    if args.len() == 0 {
        return true;
    }
    match first_positional(args) {
        Some(command) => text_eq(command.as_str(), "resume"),
        None => false,
    }
}

/// Whether an invocation runs codex without a broker.
pub open spec fn runs_direct(args: Seq<Seq<char>>) -> bool {
    if args.len() == 0 {
        false
    } else if exists|i: int| 0 <= i < args.len() && information_flag(#[trigger] args[i]) {
        true
    } else {
        match positional(args) {
            Some(command) => command != "resume"@ && direct_command(command),
            None => unknown_option(args, 0),
        }
    }
}

fn asks_for_information(args: &[String]) -> (r: bool)
    ensures
        r == (exists|i: int|
            0 <= i < text::texts(args@).len() && information_flag(#[trigger] text::texts(args@)[i])),
{
    let mut i: usize = 0;
    while i < args.len()
        invariant
            i <= args@.len(),
            forall|j: int| 0 <= j < i ==> !information_flag(#[trigger] text::texts(args@)[j]),
        decreases args@.len() - i,
    {
        if is_information_flag(args[i].as_str()) {
            assert(information_flag(text::texts(args@)[i as int]));
            return true;
        }
        i = i + 1;
    }
    false
}

/// Whether an invocation runs codex without a broker.
pub fn should_run_codex_direct(args: &[String]) -> (r: bool)
    ensures
        r == runs_direct(text::texts(args@)),
{
    if args.len() == 0 {
        return false;
    }
    if asks_for_information(args) {
        return true;
    }
    match first_positional(args) {
        Some(command) => !text_eq(command.as_str(), "resume") && is_direct_codex_command(
            command.as_str(),
        ),
        None => has_unknown_option(args),
    }
}

proof fn lemma_prefix_first(prefix: Seq<char>, text: Seq<char>)
    requires
        prefix.is_prefix_of(text),
        prefix.len() > 0,
    ensures
        text.len() > 0,
        text[0] == prefix[0],
{
    assert(text.subrange(0, prefix.len() as int)[0] == text[0]);
}

/// All options begin with a dash.
pub proof fn lemma_option_has_dash(arg: Seq<char>)
    requires
        is_option(arg),
    ensures
        arg.len() > 0,
        arg[0] == '-',
{
    reveal_strlit("-");
    if "-"@.is_prefix_of(arg) {
        lemma_prefix_first("-"@, arg);
    }
    reveal_strlit("-c");
    reveal_strlit("--config");
    reveal_strlit("-i");
    reveal_strlit("--image");
    reveal_strlit("-m");
    reveal_strlit("--model");
    reveal_strlit("--local-provider");
    reveal_strlit("-p");
    reveal_strlit("--profile");
    reveal_strlit("-s");
    reveal_strlit("--sandbox");
    reveal_strlit("-C");
    reveal_strlit("--cd");
    reveal_strlit("--add-dir");
    reveal_strlit("-a");
    reveal_strlit("--ask-for-approval");
    reveal_strlit("--remote");
    reveal_strlit("--remote-auth-token-env");
    reveal_strlit("--enable");
    reveal_strlit("--disable");
    reveal_strlit("--config=");
    if "--config="@.is_prefix_of(arg) {
        lemma_prefix_first("--config="@, arg);
    }
    reveal_strlit("--image=");
    if "--image="@.is_prefix_of(arg) {
        lemma_prefix_first("--image="@, arg);
    }
    reveal_strlit("--model=");
    if "--model="@.is_prefix_of(arg) {
        lemma_prefix_first("--model="@, arg);
    }
    reveal_strlit("--local-provider=");
    if "--local-provider="@.is_prefix_of(arg) {
        lemma_prefix_first("--local-provider="@, arg);
    }
    reveal_strlit("--profile=");
    if "--profile="@.is_prefix_of(arg) {
        lemma_prefix_first("--profile="@, arg);
    }
    reveal_strlit("--sandbox=");
    if "--sandbox="@.is_prefix_of(arg) {
        lemma_prefix_first("--sandbox="@, arg);
    }
    reveal_strlit("--cd=");
    if "--cd="@.is_prefix_of(arg) {
        lemma_prefix_first("--cd="@, arg);
    }
    reveal_strlit("--add-dir=");
    if "--add-dir="@.is_prefix_of(arg) {
        lemma_prefix_first("--add-dir="@, arg);
    }
    reveal_strlit("--ask-for-approval=");
    if "--ask-for-approval="@.is_prefix_of(arg) {
        lemma_prefix_first("--ask-for-approval="@, arg);
    }
    reveal_strlit("--remote=");
    if "--remote="@.is_prefix_of(arg) {
        lemma_prefix_first("--remote="@, arg);
    }
    reveal_strlit("--remote-auth-token-env=");
    if "--remote-auth-token-env="@.is_prefix_of(arg) {
        lemma_prefix_first("--remote-auth-token-env="@, arg);
    }
    reveal_strlit("--enable=");
    if "--enable="@.is_prefix_of(arg) {
        lemma_prefix_first("--enable="@, arg);
    }
    reveal_strlit("--disable=");
    if "--disable="@.is_prefix_of(arg) {
        lemma_prefix_first("--disable="@, arg);
    }
}

/// `resume` is no option.
pub proof fn lemma_resume_is_a_command()
    ensures
        !is_option("resume"@),
        "resume"@ != "--"@,
{
    reveal_strlit("resume");
    reveal_strlit("--");
    if is_option("resume"@) {
        lemma_option_has_dash("resume"@);
    }
}

/// Plain `coder`, and `coder resume` with whatever follows, attach to a broker that runs already.
pub proof fn law_plain_invocations_attach(args: Seq<Seq<char>>)
    requires
        args.len() == 0 || args[0] == "resume"@,
    ensures
        attaches(args),
{
    if args.len() > 0 {
        lemma_resume_is_a_command();
        assert(first_argument(args, 0) == 0);
    }
}

/// An invocation that attaches to a broker runs codex without one only to ask for information.
pub proof fn law_attached_sessions_have_a_broker(args: Seq<Seq<char>>)
    requires
        attaches(args),
        forall|i: int| 0 <= i < args.len() ==> !information_flag(#[trigger] args[i]),
    ensures
        !runs_direct(args),
{
}

proof fn lemma_first_argument_shifts(args: Seq<Seq<char>>, width: int, i: int)
    requires
        0 <= width <= args.len(),
        0 <= i,
    ensures
        first_argument(args, i + width) == first_argument(args.skip(width), i) + width,
        unknown_option(args, i + width) == unknown_option(args.skip(width), i),
    decreases args.len() + 1 - i,
{
    let rest = args.skip(width);
    if i < rest.len() {
        assert(rest[i] == args[i + width]);
        if rest[i] != "--"@ && is_option(rest[i]) {
            lemma_first_argument_shifts(args, width, i + option_width(rest[i]));
        }
    }
}

/// An option in front of other arguments, with its value, changes neither the command, nor the
/// target, nor whether there is an unknown option behind it.
pub proof fn law_leading_option_is_skipped(args: Seq<Seq<char>>)
    requires
        args.len() > 0,
        args[0] != "--"@,
        takes_value(args[0]) || known_flag(args[0]),
        option_width(args[0]) <= args.len(),
    ensures
        positional(args) == positional(args.skip(option_width(args[0]))),
        target(args) == target(args.skip(option_width(args[0]))),
        unknown_option(args, 0) == unknown_option(args.skip(option_width(args[0])), 0),
{
    let width = option_width(args[0]);
    let rest = args.skip(width);
    lemma_known_flag_is_option(args[0]);
    lemma_first_argument_shifts(args, width, 0);
    lemma_first_argument_bounds(rest, 0);
    assert(first_argument(args, 0) == first_argument(args, width));
    let i = first_argument(rest, 0);
    assert(i < rest.len() ==> rest[i] == args[i + width]);
    assert(i + 1 < rest.len() ==> rest[i + 1] == args[i + 1 + width]);
}

proof fn lemma_first_argument_bounds(args: Seq<Seq<char>>, i: int)
    requires
        0 <= i,
    ensures
        0 <= first_argument(args, i) <= args.len(),
    decreases args.len() + 1 - i,
{
    if i < args.len() && args[i] != "--"@ && is_option(args[i]) {
        lemma_first_argument_bounds(args, i + option_width(args[i]));
    }
}

proof fn lemma_known_flag_is_option(arg: Seq<char>)
    requires
        takes_value(arg) || known_flag(arg),
    ensures
        is_option(arg),
{
    reveal_strlit("-");
    reveal_strlit("--oss");
    reveal_strlit("--strict-config");
    reveal_strlit("--dangerously-bypass-approvals-and-sandbox");
    reveal_strlit("--dangerously-bypass-hook-trust");
    reveal_strlit("--search");
    reveal_strlit("--no-alt-screen");
    if known_flag(arg) {
        assert("-"@ =~= arg.subrange(0, 1));
    }
}

/// Behind `--` nothing is read as an option or a command; it may name a conversation to resume.
pub proof fn law_double_dash_ends_options(args: Seq<Seq<char>>)
    requires
        args.len() > 0,
        args[0] == "--"@,
    ensures
        positional(args) is None,
        !unknown_option(args, 0),
        target(args) == (if args.len() > 1 {
            Some(args[1])
        } else {
            None
        }),
{
}

/// The flags that an interactive session takes are these six.
pub proof fn law_known_flags(arg: Seq<char>)
    ensures
        known_flag(arg) <==> seq![
            "--oss"@,
            "--strict-config"@,
            "--dangerously-bypass-approvals-and-sandbox"@,
            "--dangerously-bypass-hook-trust"@,
            "--search"@,
            "--no-alt-screen"@,
        ].contains(arg),
{
    let listed = seq![
        "--oss"@,
        "--strict-config"@,
        "--dangerously-bypass-approvals-and-sandbox"@,
        "--dangerously-bypass-hook-trust"@,
        "--search"@,
        "--no-alt-screen"@,
    ];
    assert(listed[0] == "--oss"@);
    assert(listed[1] == "--strict-config"@);
    assert(listed[2] == "--dangerously-bypass-approvals-and-sandbox"@);
    assert(listed[3] == "--dangerously-bypass-hook-trust"@);
    assert(listed[4] == "--search"@);
    assert(listed[5] == "--no-alt-screen"@);
}

/// The commands that are no interactive session are these, and no others.
pub proof fn law_direct_commands(command: Seq<char>)
    ensures
        direct_command(command) <==> seq![
            "exec"@,
            "e"@,
            "review"@,
            "login"@,
            "logout"@,
            "mcp"@,
            "plugin"@,
            "mcp-server"@,
            "app-server"@,
            "remote-control"@,
            "app"@,
            "completion"@,
            "update"@,
            "doctor"@,
            "sandbox"@,
            "debug"@,
            "apply"@,
            "a"@,
            "fork"@,
            "cloud"@,
            "features"@,
            "help"@,
        ].contains(command),
{
    let listed = seq![
        "exec"@,
        "e"@,
        "review"@,
        "login"@,
        "logout"@,
        "mcp"@,
        "plugin"@,
        "mcp-server"@,
        "app-server"@,
        "remote-control"@,
        "app"@,
        "completion"@,
        "update"@,
        "doctor"@,
        "sandbox"@,
        "debug"@,
        "apply"@,
        "a"@,
        "fork"@,
        "cloud"@,
        "features"@,
        "help"@,
    ];
    assert(listed[0] == "exec"@);
    assert(listed[1] == "e"@);
    assert(listed[2] == "review"@);
    assert(listed[3] == "login"@);
    assert(listed[4] == "logout"@);
    assert(listed[5] == "mcp"@);
    assert(listed[6] == "plugin"@);
    assert(listed[7] == "mcp-server"@);
    assert(listed[8] == "app-server"@);
    assert(listed[9] == "remote-control"@);
    assert(listed[10] == "app"@);
    assert(listed[11] == "completion"@);
    assert(listed[12] == "update"@);
    assert(listed[13] == "doctor"@);
    assert(listed[14] == "sandbox"@);
    assert(listed[15] == "debug"@);
    assert(listed[16] == "apply"@);
    assert(listed[17] == "a"@);
    assert(listed[18] == "fork"@);
    assert(listed[19] == "cloud"@);
    assert(listed[20] == "features"@);
    assert(listed[21] == "help"@);
}

/// Only these four flags ask for information alone.
pub proof fn law_information_flags(arg: Seq<char>)
    ensures
        information_flag(arg) <==> seq![
            "--help"@,
            "-h"@,
            "--version"@,
            "-V"@,
        ].contains(arg),
{
    let listed = seq![
        "--help"@,
        "-h"@,
        "--version"@,
        "-V"@,
    ];
    assert(listed[0] == "--help"@);
    assert(listed[1] == "-h"@);
    assert(listed[2] == "--version"@);
    assert(listed[3] == "-V"@);
}

/// The options that take the next argument as their value are these, and no others.
pub proof fn law_value_option_names(arg: Seq<char>)
    ensures
        is_value_option(arg) <==> seq![
            "-c"@,
            "--config"@,
            "-i"@,
            "--image"@,
            "-m"@,
            "--model"@,
            "--local-provider"@,
            "-p"@,
            "--profile"@,
            "-s"@,
            "--sandbox"@,
            "-C"@,
            "--cd"@,
            "--add-dir"@,
            "-a"@,
            "--ask-for-approval"@,
            "--remote"@,
            "--remote-auth-token-env"@,
            "--enable"@,
            "--disable"@,
        ].contains(arg),
{
    let listed = seq![
        "-c"@,
        "--config"@,
        "-i"@,
        "--image"@,
        "-m"@,
        "--model"@,
        "--local-provider"@,
        "-p"@,
        "--profile"@,
        "-s"@,
        "--sandbox"@,
        "-C"@,
        "--cd"@,
        "--add-dir"@,
        "-a"@,
        "--ask-for-approval"@,
        "--remote"@,
        "--remote-auth-token-env"@,
        "--enable"@,
        "--disable"@,
    ];
    assert(listed[0] == "-c"@);
    assert(listed[1] == "--config"@);
    assert(listed[2] == "-i"@);
    assert(listed[3] == "--image"@);
    assert(listed[4] == "-m"@);
    assert(listed[5] == "--model"@);
    assert(listed[6] == "--local-provider"@);
    assert(listed[7] == "-p"@);
    assert(listed[8] == "--profile"@);
    assert(listed[9] == "-s"@);
    assert(listed[10] == "--sandbox"@);
    assert(listed[11] == "-C"@);
    assert(listed[12] == "--cd"@);
    assert(listed[13] == "--add-dir"@);
    assert(listed[14] == "-a"@);
    assert(listed[15] == "--ask-for-approval"@);
    assert(listed[16] == "--remote"@);
    assert(listed[17] == "--remote-auth-token-env"@);
    assert(listed[18] == "--enable"@);
    assert(listed[19] == "--disable"@);
}

proof fn lemma_prefix_holds(prefix: Seq<char>, text: Seq<char>, i: int)
    requires
        prefix.is_prefix_of(text),
        0 <= i < prefix.len(),
    ensures
        i < text.len(),
        text[i] == prefix[i],
{
    assert(text.subrange(0, prefix.len() as int)[i] == text[i]);
}

/// A long option that takes a value may carry it behind `=`, whatever the value is, and only such
/// an option does.
pub proof fn law_long_options_carry_values(arg: Seq<char>, value: Seq<char>)
    ensures
        ({
            let names = seq![
                "--config"@,
                "--image"@,
                "--model"@,
                "--local-provider"@,
                "--profile"@,
                "--sandbox"@,
                "--cd"@,
                "--add-dir"@,
                "--ask-for-approval"@,
                "--remote"@,
                "--remote-auth-token-env"@,
                "--enable"@,
                "--disable"@,
            ];
            &&& forall|i: int|
                0 <= i < names.len() ==> is_inline_value_option(
                    (#[trigger] names[i]) + seq!['='] + value,
                )
            &&& is_inline_value_option(arg) ==> exists|i: int|
                0 <= i < names.len() && ((#[trigger] names[i]) + seq!['=']).is_prefix_of(arg)
        }),
{
    let names = seq![
        "--config"@,
        "--image"@,
        "--model"@,
        "--local-provider"@,
        "--profile"@,
        "--sandbox"@,
        "--cd"@,
        "--add-dir"@,
        "--ask-for-approval"@,
        "--remote"@,
        "--remote-auth-token-env"@,
        "--enable"@,
        "--disable"@,
    ];
    reveal_strlit("--config");
    reveal_strlit("--config=");
    assert("--config="@ =~= "--config"@ + seq!['=']);
    lemma_begins("--config="@, value);
    assert(names[0] == "--config"@);
    reveal_strlit("--image");
    reveal_strlit("--image=");
    assert("--image="@ =~= "--image"@ + seq!['=']);
    lemma_begins("--image="@, value);
    assert(names[1] == "--image"@);
    reveal_strlit("--model");
    reveal_strlit("--model=");
    assert("--model="@ =~= "--model"@ + seq!['=']);
    lemma_begins("--model="@, value);
    assert(names[2] == "--model"@);
    reveal_strlit("--local-provider");
    reveal_strlit("--local-provider=");
    assert("--local-provider="@ =~= "--local-provider"@ + seq!['=']);
    lemma_begins("--local-provider="@, value);
    assert(names[3] == "--local-provider"@);
    reveal_strlit("--profile");
    reveal_strlit("--profile=");
    assert("--profile="@ =~= "--profile"@ + seq!['=']);
    lemma_begins("--profile="@, value);
    assert(names[4] == "--profile"@);
    reveal_strlit("--sandbox");
    reveal_strlit("--sandbox=");
    assert("--sandbox="@ =~= "--sandbox"@ + seq!['=']);
    lemma_begins("--sandbox="@, value);
    assert(names[5] == "--sandbox"@);
    reveal_strlit("--cd");
    reveal_strlit("--cd=");
    assert("--cd="@ =~= "--cd"@ + seq!['=']);
    lemma_begins("--cd="@, value);
    assert(names[6] == "--cd"@);
    reveal_strlit("--add-dir");
    reveal_strlit("--add-dir=");
    assert("--add-dir="@ =~= "--add-dir"@ + seq!['=']);
    lemma_begins("--add-dir="@, value);
    assert(names[7] == "--add-dir"@);
    reveal_strlit("--ask-for-approval");
    reveal_strlit("--ask-for-approval=");
    assert("--ask-for-approval="@ =~= "--ask-for-approval"@ + seq!['=']);
    lemma_begins("--ask-for-approval="@, value);
    assert(names[8] == "--ask-for-approval"@);
    reveal_strlit("--remote");
    reveal_strlit("--remote=");
    assert("--remote="@ =~= "--remote"@ + seq!['=']);
    lemma_begins("--remote="@, value);
    assert(names[9] == "--remote"@);
    reveal_strlit("--remote-auth-token-env");
    reveal_strlit("--remote-auth-token-env=");
    assert("--remote-auth-token-env="@ =~= "--remote-auth-token-env"@ + seq!['=']);
    lemma_begins("--remote-auth-token-env="@, value);
    assert(names[10] == "--remote-auth-token-env"@);
    reveal_strlit("--enable");
    reveal_strlit("--enable=");
    assert("--enable="@ =~= "--enable"@ + seq!['=']);
    lemma_begins("--enable="@, value);
    assert(names[11] == "--enable"@);
    reveal_strlit("--disable");
    reveal_strlit("--disable=");
    assert("--disable="@ =~= "--disable"@ + seq!['=']);
    lemma_begins("--disable="@, value);
    assert(names[12] == "--disable"@);
}

proof fn lemma_begins(prefix: Seq<char>, rest: Seq<char>)
    ensures
        prefix.is_prefix_of(prefix + rest),
{
    assert((prefix + rest).subrange(0, prefix.len() as int) =~= prefix);
}

/// An option takes the next argument as its value where it is one of the names that do, and no
/// other argument does: a value behind `=` is part of its option.
pub proof fn law_value_is_the_next_argument(arg: Seq<char>)
    ensures
        is_value_option(arg) ==> takes_value(arg) && option_width(arg) == 2,
        !is_value_option(arg) ==> option_width(arg) == 1,
        takes_value(arg) <==> is_value_option(arg) || is_inline_value_option(arg),
{
    reveal_strlit("--");
    reveal_strlit("-c");
    reveal_strlit("--config");
    reveal_strlit("-i");
    reveal_strlit("--image");
    reveal_strlit("-m");
    reveal_strlit("--model");
    reveal_strlit("--local-provider");
    reveal_strlit("-p");
    reveal_strlit("--profile");
    reveal_strlit("-s");
    reveal_strlit("--sandbox");
    reveal_strlit("-C");
    reveal_strlit("--cd");
    reveal_strlit("--add-dir");
    reveal_strlit("-a");
    reveal_strlit("--ask-for-approval");
    reveal_strlit("--remote");
    reveal_strlit("--remote-auth-token-env");
    reveal_strlit("--enable");
    reveal_strlit("--disable");
    if is_value_option(arg) {
        if "--"@.is_prefix_of(arg) {
            lemma_prefix_holds("--"@, arg, 0);
            lemma_prefix_holds("--"@, arg, 1);
        }
        assert(!inline_value(arg));
    }
    reveal_strlit("--config=");
    if "--config="@.is_prefix_of(arg) {
        lemma_inline_value("--config="@, arg);
    }
    reveal_strlit("--image=");
    if "--image="@.is_prefix_of(arg) {
        lemma_inline_value("--image="@, arg);
    }
    reveal_strlit("--model=");
    if "--model="@.is_prefix_of(arg) {
        lemma_inline_value("--model="@, arg);
    }
    reveal_strlit("--local-provider=");
    if "--local-provider="@.is_prefix_of(arg) {
        lemma_inline_value("--local-provider="@, arg);
    }
    reveal_strlit("--profile=");
    if "--profile="@.is_prefix_of(arg) {
        lemma_inline_value("--profile="@, arg);
    }
    reveal_strlit("--sandbox=");
    if "--sandbox="@.is_prefix_of(arg) {
        lemma_inline_value("--sandbox="@, arg);
    }
    reveal_strlit("--cd=");
    if "--cd="@.is_prefix_of(arg) {
        lemma_inline_value("--cd="@, arg);
    }
    reveal_strlit("--add-dir=");
    if "--add-dir="@.is_prefix_of(arg) {
        lemma_inline_value("--add-dir="@, arg);
    }
    reveal_strlit("--ask-for-approval=");
    if "--ask-for-approval="@.is_prefix_of(arg) {
        lemma_inline_value("--ask-for-approval="@, arg);
    }
    reveal_strlit("--remote=");
    if "--remote="@.is_prefix_of(arg) {
        lemma_inline_value("--remote="@, arg);
    }
    reveal_strlit("--remote-auth-token-env=");
    if "--remote-auth-token-env="@.is_prefix_of(arg) {
        lemma_inline_value("--remote-auth-token-env="@, arg);
    }
    reveal_strlit("--enable=");
    if "--enable="@.is_prefix_of(arg) {
        lemma_inline_value("--enable="@, arg);
    }
    reveal_strlit("--disable=");
    if "--disable="@.is_prefix_of(arg) {
        lemma_inline_value("--disable="@, arg);
    }
}

proof fn lemma_inline_value(prefix: Seq<char>, arg: Seq<char>)
    requires
        prefix.is_prefix_of(arg),
        prefix.len() > 2,
        prefix[0] == '-' && prefix[1] == '-',
        prefix.last() == '=',
    ensures
        inline_value(arg),
{
    reveal_strlit("--");
    lemma_prefix_holds(prefix, arg, 0);
    lemma_prefix_holds(prefix, arg, 1);
    lemma_prefix_holds(prefix, arg, prefix.len() - 1);
    assert(arg.subrange(0, 2) =~= "--"@);
    assert(arg[prefix.len() - 1] == '=');
}

/// A value is carried where an argument begins with `--` and holds `=`, and nowhere else.
pub proof fn law_inline_values(arg: Seq<char>, i: int)
    ensures
        arg.len() >= 2 && arg[0] == '-' && arg[1] == '-' && 0 <= i < arg.len() && arg[i] == '='
            ==> inline_value(arg),
        arg.len() < 2 || arg[0] != '-' || arg[1] != '-' ==> !inline_value(arg),
        (forall|j: int| 0 <= j < arg.len() ==> arg[j] != '=') ==> !inline_value(arg),
{
    reveal_strlit("--");
    if arg.len() >= 2 && arg[0] == '-' && arg[1] == '-' {
        assert(arg.subrange(0, 2) =~= "--"@);
    }
    if "--"@.is_prefix_of(arg) {
        lemma_prefix_holds("--"@, arg, 0);
        lemma_prefix_holds("--"@, arg, 1);
    }
}

/// An option is an argument that begins with a dash.
pub proof fn law_options_begin_with_a_dash(arg: Seq<char>)
    ensures
        is_option(arg) <==> (arg.len() > 0 && arg[0] == '-'),
{
    reveal_strlit("-");
    if is_option(arg) {
        lemma_option_has_dash(arg);
    }
    if arg.len() > 0 && arg[0] == '-' {
        assert(arg.subrange(0, 1) =~= "-"@);
    }
}

/// The first argument that is no option decides: it is the command, and behind `resume` it is the
/// target, whatever follows it. No option in front of it is unknown.
pub proof fn law_first_argument_decides(args: Seq<Seq<char>>)
    requires
        args.len() > 0,
        args[0].len() == 0 || args[0][0] != '-',
    ensures
        positional_index(args) == Some(0int),
        positional(args) == Some(args[0]),
        target(args) == Some(args[0]),
        !unknown_option(args, 0),
{
    reveal_strlit("--");
    law_options_begin_with_a_dash(args[0]);
    assert(first_argument(args, 0) == 0);
}

/// Different conversations are different targets, also with the same arguments behind them.
pub proof fn law_different_conversations_are_different_targets(
    a: Seq<char>,
    b: Seq<char>,
    rest: Seq<Seq<char>>,
    other: Seq<Seq<char>>,
)
    requires
        a != b,
        a.len() == 0 || a[0] != '-',
        b.len() == 0 || b[0] != '-',
    ensures
        target(seq![a] + rest) != target(seq![b] + rest),
        target(seq![a] + rest) != target(seq![b] + other),
        target(seq![a] + rest) == target(seq![a] + other),
{
    law_first_argument_decides(seq![a] + rest);
    law_first_argument_decides(seq![b] + rest);
    law_first_argument_decides(seq![a] + other);
    law_first_argument_decides(seq![b] + other);
}

/// An option in front of other arguments is passed over, with its value where it takes the next
/// argument: the command and the target are those of what follows. An option that is neither known
/// nor takes a value is unknown. An option without the value that it takes leaves nothing.
pub proof fn law_options_are_passed_over(args: Seq<Seq<char>>)
    requires
        args.len() > 0,
        args[0].len() > 0 && args[0][0] == '-',
        args[0] != "--"@,
    ensures
        ({
            let width: int = if is_value_option(args[0]) {
                2
            } else {
                1
            };
            let rest = args.skip(width);
            &&& args.len() >= width ==> {
                &&& positional(args) == positional(rest)
                &&& target(args) == target(rest)
                &&& positional_index(args) == (match positional_index(rest) {
                    Some(i) => Some(i + width),
                    None => None,
                })
                &&& takes_value(args[0]) || known_flag(args[0]) ==> unknown_option(args, 0)
                    == unknown_option(rest, 0)
            }
            &&& args.len() < width ==> positional(args) is None && positional_index(args) is None
                && target(args) is None && !unknown_option(args, 0)
            &&& !takes_value(args[0]) && !known_flag(args[0]) ==> unknown_option(args, 0)
        }),
        positional(Seq::empty()) is None,
        positional_index(Seq::empty()) is None,
        target(Seq::empty()) is None,
        !unknown_option(Seq::empty(), 0),
{
    law_options_begin_with_a_dash(args[0]);
    law_value_is_the_next_argument(args[0]);
    let width = option_width(args[0]);
    assert(first_argument(args, 0) == first_argument(args, width));
    if args.len() >= width {
        let rest = args.skip(width);
        lemma_first_argument_shifts(args, width, 0);
        lemma_first_argument_bounds(rest, 0);
        let i = first_argument(rest, 0);
        assert(i < rest.len() ==> rest[i] == args[i + width]);
        assert(i + 1 < rest.len() ==> rest[i + 1] == args[i + 1 + width]);
    } else {
        assert(first_argument(args, width) == args.len());
        assert(!unknown_option(args, width));
    }
}

/// An invocation attaches without arguments, and where its command is `resume`.
pub proof fn law_who_attaches(args: Seq<Seq<char>>)
    ensures
        args.len() == 0 ==> attaches(args),
        args.len() > 0 ==> attaches(args) == (positional(args) == Some("resume"@)),
{
}

/// Codex is run directly for information, for a command that is no interactive session, and for
/// options that are not known where there is no command. It is not for `resume`, for a prompt, or
/// without arguments.
pub proof fn law_who_runs_directly(args: Seq<Seq<char>>, i: int)
    ensures
        0 <= i < args.len() && information_flag(args[i]) ==> runs_direct(args),
        args.len() == 0 ==> !runs_direct(args),
        positional(args) matches Some(command) ==> direct_command(command) ==> runs_direct(args),
        (forall|j: int| 0 <= j < args.len() ==> !information_flag(#[trigger] args[j])) ==> {
            &&& positional(args) matches Some(command) ==> runs_direct(args) == direct_command(
                command,
            )
            &&& args.len() > 0 && positional(args) is None ==> runs_direct(args) == unknown_option(
                args,
                0,
            )
        },
        !direct_command("resume"@),
{
    lemma_first_argument_bounds(args, 0);
    reveal_strlit("resume");
    reveal_strlit("exec");
    reveal_strlit("e");
    reveal_strlit("review");
    reveal_strlit("login");
    reveal_strlit("logout");
    reveal_strlit("mcp");
    reveal_strlit("plugin");
    reveal_strlit("mcp-server");
    reveal_strlit("app-server");
    reveal_strlit("remote-control");
    reveal_strlit("app");
    reveal_strlit("completion");
    reveal_strlit("update");
    reveal_strlit("doctor");
    reveal_strlit("sandbox");
    reveal_strlit("debug");
    reveal_strlit("apply");
    reveal_strlit("a");
    reveal_strlit("fork");
    reveal_strlit("cloud");
    reveal_strlit("features");
    reveal_strlit("help");
    assert("resume"@[0] == 'r' && "resume"@[1] == 'e' && "resume"@[2] == 's');
}

/// The index of the first positional argument lies within the arguments.
pub proof fn lemma_positional_index(args: Seq<Seq<char>>)
    ensures
        positional_index(args) matches Some(i) ==> 0 <= i < args.len(),
{
    lemma_first_argument_bounds(args, 0);
}

} // verus!

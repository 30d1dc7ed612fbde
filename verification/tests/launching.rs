use coder::launch::Candidate;
use coder::launch::CodexProgram;
use coder::launch::Launch;
use coder::launch::Probe;
use coder::launch::ProbeStep;
use coder::launch::Startup;
use coder::launch::WaitStep;
use coder::launch::choose_launch;
use coder::launch::connect_existing;
use coder::launch::direct_exit_code;
use coder::launch::ensure_codex_available;
use coder::launch::first_candidate;
use coder::launch::is_path_like;
use coder::launch::next_candidate;
use coder::launch::resolve_codex_command;
use coder::launch::startup;
use coder::launch::wait_for_server;
use coder::launch::windows_path_extensions;
use std::path::Path;

fn strings(values: &[&str]) -> Vec<String> {
    values.iter().map(|value| value.to_string()).collect()
}

fn search(path_like: bool, bare: bool, directories: Option<usize>, extensions: usize) -> Vec<Candidate> {
    let mut places = Vec::new();
    let mut place = first_candidate(path_like, directories);
    while let Some(current) = place {
        places.push(current);
        place = next_candidate(current, bare, directories.unwrap_or(0), extensions);
    }
    places
}

#[test]
fn detects_missing_path_like_codex_command() {
    let missing = Path::new("C:\\this\\path\\does-not-exist\\codex.exe");
    let path_like = is_path_like(missing.is_absolute(), missing.components().count());
    let directories = ["/usr/bin", "/bin"];
    for place in search(path_like, false, Some(directories.len()), 0) {
        match place {
            Candidate::Itself => assert!(!missing.is_file()),
            Candidate::InDirectory(i) => {
                assert!(!Path::new(directories[i]).join(missing).is_file())
            }
            Candidate::WithExtension(_, _) => panic!("unexpected extension"),
        }
    }
}

#[test]
fn broker_is_told_what_to_run() {
    assert!(matches!(startup(&[]), Ok(Startup::Client)));
    assert!(matches!(startup(&strings(&["resume", "--coder-server"])), Ok(Startup::Client)));
    match startup(&strings(&["--coder-server", "/tmp/x.config.json"])) {
        Ok(Startup::Server { config_path }) => assert_eq!(config_path, "/tmp/x.config.json"),
        other => panic!("unexpected {other:?}"),
    }
    for args in [strings(&["--coder-server"]), strings(&["--coder-server", "a", "b"])] {
        match startup(&args) {
            Err(message) => assert_eq!(message, "--coder-server expects a config path"),
            other => panic!("unexpected {other:?}"),
        }
    }
}

#[test]
fn running_brokers_are_reattached() {
    assert_eq!(choose_launch(&[], true, true), Launch::Attach);
    assert_eq!(choose_launch(&strings(&["resume"]), true, true), Launch::Attach);
    assert_eq!(choose_launch(&strings(&["exec"]), true, true), Launch::RunDirect);
}

#[test]
fn brokers_are_started_where_none_runs() {
    assert_eq!(choose_launch(&[], false, false), Launch::StartBroker);
    assert_eq!(choose_launch(&[], false, true), Launch::StartBroker);
    assert_eq!(choose_launch(&strings(&["resume", "id"]), false, true), Launch::StartBroker);
    assert_eq!(choose_launch(&strings(&["fix it"]), false, false), Launch::StartBroker);
    assert_eq!(choose_launch(&strings(&["fix it"]), false, true), Launch::RunDirect);
    assert_eq!(choose_launch(&strings(&["resume", "--help"]), false, false), Launch::RunDirect);
    assert_eq!(choose_launch(&strings(&["--bogus"]), false, false), Launch::RunDirect);
}

#[test]
fn brokers_are_probed() {
    assert_eq!(connect_existing(Probe::StateFile(false)), ProbeStep::Absent);
    assert_eq!(connect_existing(Probe::StateFile(true)), ProbeStep::ReadState);
    assert_eq!(connect_existing(Probe::Port(None)), ProbeStep::Stale);
    assert_eq!(connect_existing(Probe::Port(Some(4000))), ProbeStep::Connect(4000));
    assert_eq!(connect_existing(Probe::Connected(false)), ProbeStep::Stale);
    assert_eq!(connect_existing(Probe::Connected(true)), ProbeStep::Reached);
}

#[test]
fn brokers_are_waited_for() {
    assert_eq!(wait_for_server(true, u128::MAX), WaitStep::Reached);
    assert_eq!(wait_for_server(false, 0), WaitStep::Retry);
    assert_eq!(wait_for_server(false, 10_000_000_000), WaitStep::Retry);
    assert_eq!(wait_for_server(false, 10_000_000_001), WaitStep::TimedOut);
}

#[test]
fn codex_commands() {
    let args = strings(&["resume", "x"]);
    let custom = resolve_codex_command(Some("my-codex"), true, &args);
    assert!(matches!(custom.program, CodexProgram::Custom("my-codex")));
    assert_eq!(custom.args, args);
    let node = resolve_codex_command(None::<&str>, true, &args);
    assert!(matches!(node.program, CodexProgram::Known("C:\\Programs\\nodejs\\node.exe")));
    assert_eq!(
        node.args,
        strings(&["C:\\Programs\\nodejs\\node_modules\\@openai\\codex\\bin\\codex.js", "resume", "x"])
    );
    let plain = resolve_codex_command(None::<&str>, false, &args);
    assert!(matches!(plain.program, CodexProgram::Known("codex")));
    assert_eq!(plain.args, args);
}

#[test]
fn missing_codex_is_explained() {
    assert_eq!(ensure_codex_available(true, "codex"), Ok(()));
    assert_eq!(
        ensure_codex_available(false, "codex"),
        Err("Codex executable was not found: codex. Install the Codex CLI so `codex` is on PATH, or set CODER_CODEX to the Codex executable path.".to_string())
    );
}

#[test]
fn path_like_programs() {
    assert!(is_path_like(true, 1));
    assert!(is_path_like(false, 2));
    assert!(!is_path_like(false, 1));
    assert!(!is_path_like(false, 0));
}

#[test]
fn search_goes_through_every_place() {
    assert_eq!(search(true, true, Some(3), 2), vec![Candidate::Itself]);
    assert_eq!(search(false, true, None, 2), vec![]);
    assert_eq!(search(false, true, Some(0), 2), vec![]);
    assert_eq!(
        search(false, true, Some(2), 2),
        vec![
            Candidate::InDirectory(0),
            Candidate::WithExtension(0, 0),
            Candidate::WithExtension(0, 1),
            Candidate::InDirectory(1),
            Candidate::WithExtension(1, 0),
            Candidate::WithExtension(1, 1),
        ]
    );
    let directories = vec![Candidate::InDirectory(0), Candidate::InDirectory(1)];
    assert_eq!(search(false, false, Some(2), 2), directories);
    assert_eq!(search(false, true, Some(2), 0), directories);
}

#[test]
fn program_extensions() {
    assert_eq!(windows_path_extensions(None), strings(&[".COM", ".EXE", ".BAT", ".CMD"]));
    assert_eq!(windows_path_extensions(Some(".EXE;;.PS1;")), strings(&[".EXE", ".PS1"]));
    assert_eq!(windows_path_extensions(Some(".X")), strings(&[".X"]));
    assert_eq!(windows_path_extensions(Some("")), Vec::<String>::new());
}

#[test]
fn direct_runs_pass_on_their_exit_code() {
    assert_eq!(direct_exit_code(Some(0)), 0);
    assert_eq!(direct_exit_code(Some(-7)), -7);
    assert_eq!(direct_exit_code(None), 1);
}

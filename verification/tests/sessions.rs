use coder::args::first_positional;
use coder::args::first_positional_index;
use coder::args::has_inline_value;
use coder::args::has_unknown_option;
use coder::args::is_direct_codex_command;
use coder::args::is_known_flag;
use coder::args::option_takes_value;
use coder::args::resume_target;
use coder::args::should_attach_to_existing;
use coder::args::should_run_codex_direct;
use coder::session::base_directory;
use coder::session::client_options;
use coder::session::config_path;
use coder::session::derived_session_name;
use coder::session::milliseconds;
use coder::session::now_ms;
use coder::session::parse_client_args;
use coder::session::resume_session_name;
use coder::session::sanitize_session_name;
use coder::session::server_config;
use coder::session::session_for_invocation;
use coder::session::session_state;
use coder::session::short_hash;
use coder::session::state_path;
use std::collections::hash_map::DefaultHasher;
use std::hash::Hash;
use std::hash::Hasher;
use std::path::PathBuf;

fn strings(values: &[&str]) -> Vec<String> {
    values.iter().map(|value| value.to_string()).collect()
}

fn hash_of<T: Hash>(value: &T) -> u64 {
    let mut hasher = DefaultHasher::new();
    value.hash(&mut hasher);
    hasher.finish()
}

#[test]
fn derives_distinct_session_for_targeted_resume() {
    let args = vec![
        "resume".to_string(),
        "--cd".to_string(),
        ".".to_string(),
        "019e3fd6-0c53-7302-8c84-3f9d47d0370b".to_string(),
    ];

    assert_eq!(
        derived_session_name(&args, Some("/work")).as_deref(),
        Some("resume-019e3fd6-0c53-7302-8c84-3f9d47d0370b")
    );
}

#[test]
fn plain_resume_uses_default_session() {
    assert_eq!(derived_session_name(&["resume".to_string()], Some("/work")), None);
}

#[test]
fn resume_with_options_but_no_target_is_not_default() {
    let args = vec!["resume".to_string(), "--last".to_string()];
    assert!(
        derived_session_name(&args, Some("/work"))
            .as_deref()
            .is_some_and(|value| value.starts_with("resume-"))
    );
}

#[test]
fn untargeted_resume_is_named_after_the_invocation() {
    let args = strings(&["resume", "--last"]);
    let here = hash_of(&(Some(PathBuf::from("/work")), &args[..]));
    assert_eq!(
        derived_session_name(&args, Some("/work")),
        Some(format!("resume-{here:016x}"))
    );
    let nowhere = hash_of(&(None::<PathBuf>, &args[..]));
    assert_eq!(
        derived_session_name(&args, None),
        Some(format!("resume-{nowhere:016x}"))
    );
    assert_ne!(derived_session_name(&args, Some("/work")), derived_session_name(&args, Some("/other")));
    assert_eq!(
        session_for_invocation(&args, 0x0123456789abcdef).as_deref(),
        Some("resume-0123456789abcdef")
    );
}

#[test]
fn other_commands_have_no_session_of_their_own() {
    assert_eq!(session_for_invocation(&[], 1), None);
    assert_eq!(session_for_invocation(&strings(&["exec", "resume"]), 1), None);
    assert_eq!(session_for_invocation(&strings(&["--", "resume", "x"]), 1), None);
    assert_eq!(
        session_for_invocation(&strings(&["-m", "o3", "resume", "--", "a b"]), 1).as_deref(),
        Some("resume-ab")
    );
}

#[test]
fn session_names_are_sanitized() {
    assert_eq!(sanitize_session_name("worktree-a"), "worktree-a");
    assert_eq!(sanitize_session_name("A/b c:é_1.2"), "Abc_1.2");
    assert_eq!(sanitize_session_name(""), "default");
    assert_eq!(sanitize_session_name("///"), "default");
    for value in ["x y", "..", "ünïcode", "../../etc"] {
        let once = sanitize_session_name(value);
        assert_eq!(sanitize_session_name(&once), once);
    }
}

#[test]
fn long_targets_are_hashed() {
    let limit = "a".repeat(80);
    assert_eq!(resume_session_name(&limit), format!("resume-{limit}"));
    let long = "a".repeat(81);
    assert_eq!(resume_session_name(&long), format!("resume-{:016x}", hash_of(&long.as_str())));
    let noisy = format!("{}///", "b".repeat(80));
    assert_eq!(resume_session_name(&noisy), format!("resume-{}", "b".repeat(80)));
    assert_eq!(resume_session_name("!"), "resume-default");
    assert_ne!(resume_session_name("one"), resume_session_name("two"));
}

#[test]
fn hashes_have_sixteen_digits() {
    for value in ["", "a", "session", "漢字"] {
        assert_eq!(short_hash(value), format!("{:016x}", hash_of(&value)));
        assert_eq!(short_hash(value).len(), 16);
    }
}

#[test]
fn environment_names_the_session() {
    let args = strings(&["resume", "abc"]);
    let named = parse_client_args(args.clone(), Some("work tree"), None);
    assert_eq!(named.session, "worktree");
    assert_eq!(named.codex_args, args);
    assert_eq!(parse_client_args(args.clone(), None, None).session, "resume-abc");
    assert_eq!(parse_client_args(args, Some(""), None).session, "default");
    assert_eq!(parse_client_args(Vec::new(), None, None).session, "default");
    assert_eq!(parse_client_args(strings(&["exec"]), None, None).session, "default");
    let last = client_options(strings(&["resume", "--last"]), None, 255);
    assert_eq!(last.session, "resume-00000000000000ff");
}

#[test]
fn session_files() {
    assert_eq!(state_path("default"), "default.state.json");
    assert_eq!(config_path("default"), "default.config.json");
    let one = parse_client_args(strings(&["resume", "one"]), None, None).session;
    let two = parse_client_args(strings(&["resume", "--cd", "/x", "two"]), None, None).session;
    assert_ne!(state_path(&one), state_path(&two));
    assert_ne!(state_path(&one), state_path("default"));
    assert_ne!(state_path(&one), config_path(&one));
}

#[test]
fn base_directories_in_order() {
    assert_eq!(base_directory(Some("a"), Some("b"), "c"), "a");
    assert_eq!(base_directory(None, Some("b"), "c"), "b");
    assert_eq!(base_directory(None, None, "c"), "c");
}

#[test]
fn files_hold_the_session() {
    let args = strings(&["resume", "x"]);
    let config = server_config("resume-x", "/work", &args, "/tmp/resume-x.state.json");
    assert_eq!(config.version, 1);
    assert_eq!(config.session, "resume-x");
    assert_eq!(config.cwd, "/work");
    assert_eq!(config.args, args);
    assert_eq!(config.state_path, "/tmp/resume-x.state.json");
    let state = session_state(&config, 4000, 77, 123456);
    assert_eq!(state.version, 1);
    assert_eq!(state.session, "resume-x");
    assert_eq!(state.port, 4000);
    assert_eq!(state.server_pid, 77);
    assert_eq!(state.cwd, "/work");
    assert_eq!(state.args, args);
    assert_eq!(state.started_at_ms, 123456);
}

#[test]
fn clock_counts_milliseconds() {
    assert_eq!(milliseconds(None), 0);
    assert_eq!(milliseconds(Some((1, 999_999_999))), 1999);
    assert_eq!(milliseconds(Some((u64::MAX, 0))), u64::MAX as u128 * 1000);
    let first = now_ms();
    assert!(first > 1_600_000_000_000);
    assert!(first < 100_000_000_000_000);
}

#[test]
fn options_with_values() {
    for arg in ["-c", "--config", "-i", "--image", "-m", "--model", "--local-provider", "-p",
        "--profile", "-s", "--sandbox", "-C", "--cd", "--add-dir", "-a", "--ask-for-approval",
        "--remote", "--remote-auth-token-env", "--enable", "--disable"] {
        assert!(option_takes_value(arg));
        assert!(!has_inline_value(arg));
        assert!(!is_known_flag(arg));
        if arg.starts_with("--") {
            let inline = format!("{arg}=value");
            assert!(option_takes_value(&inline));
            assert!(has_inline_value(&inline));
        }
    }
    assert!(!option_takes_value("-c=x"));
    assert!(!option_takes_value("--search"));
    assert!(!option_takes_value("--configx"));
    assert!(!has_inline_value("-c=x"));
    assert!(!has_inline_value("a=b"));
    assert!(has_inline_value("--="));
}

#[test]
fn known_flags_and_commands() {
    for flag in ["--oss", "--strict-config", "--dangerously-bypass-approvals-and-sandbox",
        "--dangerously-bypass-hook-trust", "--search", "--no-alt-screen"] {
        assert!(is_known_flag(flag));
    }
    assert!(!is_known_flag("--last"));
    for command in ["exec", "e", "review", "login", "logout", "mcp", "plugin", "mcp-server",
        "app-server", "remote-control", "app", "completion", "update", "doctor", "sandbox",
        "debug", "apply", "a", "fork", "cloud", "features", "help"] {
        assert!(is_direct_codex_command(command));
    }
    assert!(!is_direct_codex_command("resume"));
    assert!(!is_direct_codex_command(""));
}

#[test]
fn positional_arguments() {
    assert_eq!(first_positional_index(&[]), None);
    assert_eq!(first_positional_index(&strings(&["--model", "o3", "exec"])), Some(2));
    assert_eq!(first_positional_index(&strings(&["--model=o3", "exec"])), Some(1));
    assert_eq!(first_positional_index(&strings(&["--last", "exec"])), Some(1));
    assert_eq!(first_positional_index(&strings(&["--model"])), None);
    assert_eq!(first_positional_index(&strings(&["--", "exec"])), None);
    assert_eq!(first_positional(&strings(&["-m", "o3", "fix it"])).as_deref(), Some("fix it"));
    assert_eq!(first_positional(&strings(&["-x"])), None);
}

#[test]
fn resume_targets() {
    assert_eq!(resume_target(&[]), None);
    assert_eq!(resume_target(&strings(&["--last"])), None);
    assert_eq!(resume_target(&strings(&["--cd", ".", "id"])).as_deref(), Some("id"));
    assert_eq!(resume_target(&strings(&["--", "-id"])).as_deref(), Some("-id"));
    assert_eq!(resume_target(&strings(&["--"])), None);
}

#[test]
fn unknown_options() {
    assert!(!has_unknown_option(&[]));
    assert!(!has_unknown_option(&strings(&["--search", "-m", "--bogus"])));
    assert!(has_unknown_option(&strings(&["--search", "--bogus"])));
    assert!(!has_unknown_option(&strings(&["prompt", "--bogus"])));
    assert!(!has_unknown_option(&strings(&["--", "--bogus"])));
}

#[test]
fn attaching_invocations() {
    assert!(should_attach_to_existing(&[]));
    assert!(should_attach_to_existing(&strings(&["resume"])));
    assert!(should_attach_to_existing(&strings(&["--cd", ".", "resume", "x"])));
    assert!(!should_attach_to_existing(&strings(&["exec"])));
    assert!(!should_attach_to_existing(&strings(&["--search"])));
    assert!(!should_attach_to_existing(&strings(&["--", "resume"])));
}

#[test]
fn direct_invocations() {
    assert!(!should_run_codex_direct(&[]));
    for flag in ["--help", "-h", "--version", "-V"] {
        assert!(should_run_codex_direct(&strings(&["resume", flag])));
    }
    assert!(!should_run_codex_direct(&strings(&["resume", "--bogus"])));
    assert!(should_run_codex_direct(&strings(&["exec"])));
    assert!(!should_run_codex_direct(&strings(&["fix the bug"])));
    assert!(should_run_codex_direct(&strings(&["--bogus"])));
    assert!(!should_run_codex_direct(&strings(&["--search"])));
}

//! The names of broker sessions, the files that describe them, and what those files hold.

use std::collections::hash_map::DefaultHasher;
use std::hash::Hash;
use std::hash::Hasher;
use std::path::PathBuf;
use std::time::UNIX_EPOCH;
use vstd::prelude::*;
use crate::args;
use crate::args::first_positional_index;
use crate::args::resume_target;
use crate::text;
use crate::text::hex16;
use crate::text::push_texts;
use crate::text::text_eq;

verus! {

/// The version of the files that describe a session.
pub const STATE_VERSION: u32 = 1;

/// The session that is used where none is asked for.
pub const DEFAULT_SESSION: &'static str = "default";

/// The longest target that a session of a resumed conversation is named after.
pub const MAX_TARGET_LEN: usize = 80;

/// The characters that a session name is made of.
pub open spec fn allowed(ch: char) -> bool {
    ||| 'a' <= ch <= 'z'
    ||| 'A' <= ch <= 'Z'
    ||| '0' <= ch <= '9'
    ||| ch == '-'
    ||| ch == '_'
    ||| ch == '.'
}

/// The characters of a text that a session name can hold, in their order.
pub open spec fn kept(value: Seq<char>) -> Seq<char> {
    value.filter(|ch: char| allowed(ch))
}

/// The session name for a text.
pub open spec fn session_name(value: Seq<char>) -> Seq<char> {
    if kept(value).len() == 0 {
        DEFAULT_SESSION@
    } else {
        kept(value)
    }
}

fn is_allowed(ch: char) -> (r: bool)
    ensures
        r == allowed(ch),
{
    ('a' <= ch && ch <= 'z') || ('A' <= ch && ch <= 'Z') || ('0' <= ch && ch <= '9') || ch == '-'
        || ch == '_' || ch == '.'
}

/// The session name for a text: what a file name can safely hold of it.
pub fn sanitize_session_name(value: &str) -> (r: String)
    ensures
        r@ == session_name(value@),
{
    let mut out = String::new();
    let mut rest = value.chars();
    let ghost mut k: int = 0;
    proof {
        reveal(Seq::filter);
        assert(value@.take(0) =~= Seq::empty());
        assert(value@.skip(0) =~= value@);
    }
    loop
        invariant
            0 <= k <= value@.len(),
            vstd::std_specs::iter::IteratorSpec::remaining(&rest) == value@.skip(k),
            out@ == kept(value@.take(k)),
        ensures
            out@ == kept(value@),
        decreases value@.len() - k,
    {
        match rest.next() {
            None => {
                assert(value@.take(k) =~= value@);
                break;
            },
            Some(ch) => {
                proof {
                    reveal(Seq::filter);
                    assert(value@.take(k + 1).drop_last() =~= value@.take(k));
                }
                if is_allowed(ch) {
                    out.push(ch);
                }
                proof {
                    k = k + 1;
                }
            },
        }
    }
    if out.as_str().is_empty() {
        DEFAULT_SESSION.to_string()
    } else {
        out
    }
}

/// What `str` feeds to a hasher.
pub uninterp spec fn str_writes(value: Seq<char>) -> Seq<Seq<u8>>;

/// `Hash::hash` of std for `str`: it feeds the text to the hasher, in a way that depends on
/// the text alone.
#[verifier::external_body]
fn feed_text(value: &str, hasher: &mut DefaultHasher)
    ensures
        final(hasher)@ == old(hasher)@ + str_writes(value@),
{
    value.hash(hasher)
}

/// The hash of a text under a fresh `DefaultHasher`.
pub open spec fn text_hash(value: Seq<char>) -> u64 {
    <DefaultHasher as vstd::std_specs::hash::DefaultHasherAdditionalSpecFns>::spec_finish(
        str_writes(value),
    )
}

/// The hash of a text, as sixteen hexadecimal digits.
pub fn short_hash(value: &str) -> (r: String)
    ensures
        r@ == text::hex_digits(text_hash(value@)),
{
    let mut hasher = DefaultHasher::new();
    feed_text(value, &mut hasher);
    assert(hasher@ =~= str_writes(value@));
    hex16(hasher.finish())
}

/// What a resumed conversation is known by: its target, or the hash of a target that is too
/// long for a file name.
pub open spec fn resume_key(target: Seq<char>) -> Seq<char> {
    if session_name(target).len() <= MAX_TARGET_LEN {
        session_name(target)
    } else {
        text::hex_digits(text_hash(target))
    }
}

/// The session of a resumed conversation.
pub open spec fn resume_name(target: Seq<char>) -> Seq<char> {
    "resume-"@ + resume_key(target)
}

proof fn lemma_kept_is_allowed(value: Seq<char>)
    ensures
        forall|i: int| 0 <= i < kept(value).len() ==> allowed(#[trigger] kept(value)[i]),
        kept(value).len() <= value.len(),
    decreases value.len(),
{
    reveal(Seq::filter);
    if value.len() > 0 {
        lemma_kept_is_allowed(value.drop_last());
        let before = kept(value.drop_last());
        assert forall|i: int| 0 <= i < kept(value).len() implies allowed(
            #[trigger] kept(value)[i],
        ) by {
            if i < before.len() {
                assert(allowed(before[i]));
            }
        }
    }
}

/// A session name is not empty and is made of characters that a file name can hold.
pub proof fn law_session_name_is_safe(value: Seq<char>)
    ensures
        session_name(value).len() > 0,
        forall|i: int|
            0 <= i < session_name(value).len() ==> allowed(#[trigger] session_name(value)[i]),
{
    reveal_strlit("default");
    lemma_kept_is_allowed(value);
}

/// The session of a resumed conversation.
pub fn resume_session_name(target: &str) -> (r: String)
    ensures
        r@ == resume_name(target@),
{
    let sanitized: String = sanitize_session_name(target);
    proof {
        law_session_name_is_safe(target@);
        assert(vstd::utf8::is_ascii_chars(sanitized@)) by {
            assert forall|i: int| 0 <= i < sanitized@.len() implies (
            #[trigger] sanitized@[i]) as nat <= 127 by {
                assert(allowed(session_name(target@)[i]));
            }
        }
        vstd::utf8::is_ascii_chars_encode_utf8(sanitized@);
    }
    let mut name: String = "resume-".to_string();
    if sanitized.as_str().as_bytes().len() <= MAX_TARGET_LEN {
        name.append(sanitized.as_str());
    } else {
        name.append(short_hash(target).as_str());
    }
    name
}

/// The arguments behind `resume`, where that is the command.
pub open spec fn resume_args(args: Seq<Seq<char>>) -> Option<Seq<Seq<char>>> {
    match args::positional_index(args) {
        Some(i) => if args[i] == "resume"@ {
            Some(args.skip(i + 1))
        } else {
            None
        },
        None => None,
    }
}

/// The session that the arguments ask for: that of a target, or for a `resume` with options
/// alone, that of the whole invocation, of which `hash` is the hash. Plain `resume` and all other
/// commands ask for none.
pub open spec fn derived(args: Seq<Seq<char>>, hash: u64) -> Option<Seq<char>> {
    match resume_args(args) {
        Some(rest) => if rest.len() == 0 {
            None
        } else {
            match args::target(rest) {
                Some(target) => Some(resume_name(target)),
                None => Some("resume-"@ + text::hex_digits(hash)),
            }
        },
        None => None,
    }
}

/// The session that the arguments ask for, where `hash` is the hash of the invocation.
pub fn session_for_invocation(args: &[String], hash: u64) -> (r: Option<String>)
    ensures
        text::text_view(r) == derived(text::texts(args@), hash),
{
    let index: usize = match first_positional_index(args) {
        Some(i) => i,
        None => {
            return None;
        },
    };
    if !text_eq(args[index].as_str(), "resume") {
        return None;
    }
    let rest: &[String] = vstd::slice::slice_subrange(args, index + 1, args.len());
    assert(text::texts(rest@) =~= text::texts(args@).skip(index + 1));
    if rest.len() == 0 {
        return None;
    }
    match resume_target(rest) {
        Some(target) => Some(resume_session_name(target.as_str())),
        None => {
            let mut name: String = "resume-".to_string();
            name.append(hex16(hash).as_str());
            Some(name)
        },
    }
}

/// Whether a hasher that had been fed `before` has been fed `after` once it has taken an
/// invocation. That differs between machines: the width and the byte order of lengths, and the
/// separators of a path, go into it.
pub uninterp spec fn invocation_fed(
    cwd: Option<Seq<char>>,
    args: Seq<Seq<char>>,
    before: Seq<Seq<u8>>,
    after: Seq<Seq<u8>>,
) -> bool;

/// `Hash::hash` of std for a pair of an optional `PathBuf` and a slice of `String`: what the
/// hasher has been fed then comes from what it had been fed before, from the directory and from
/// the arguments.
#[verifier::external_body]
fn feed_invocation(cwd: Option<&str>, args: &[String], hasher: &mut DefaultHasher)
    ensures
        invocation_fed(text::optional(cwd), text::texts(args@), old(hasher)@, final(hasher)@),
{
    (cwd.map(PathBuf::from), args).hash(hasher)
}

/// Whether `hash` is the hash of an invocation: of its arguments and of the directory that it is
/// made in.
pub open spec fn invocation_hash(
    cwd: Option<Seq<char>>,
    args: Seq<Seq<char>>,
    hash: u64,
) -> bool {
    exists|after: Seq<Seq<u8>>|
        #![trigger invocation_fed(cwd, args, Seq::empty(), after)]
        invocation_fed(cwd, args, Seq::empty(), after) && hash
            == <DefaultHasher as vstd::std_specs::hash::DefaultHasherAdditionalSpecFns>::spec_finish(
            after,
        )
}

fn hash_invocation(cwd: Option<&str>, args: &[String]) -> (r: u64)
    ensures
        invocation_hash(text::optional(cwd), text::texts(args@), r),
{
    let mut hasher = DefaultHasher::new();
    feed_invocation(cwd, args, &mut hasher);
    hasher.finish()
}

/// The session that the arguments ask for, in the directory `cwd`.
pub fn derived_session_name(args: &[String], cwd: Option<&str>) -> (r: Option<String>)
    ensures
        exists|hash: u64|
            invocation_hash(text::optional(cwd), text::texts(args@), hash) && text::text_view(r)
                == derived(text::texts(args@), hash),
{
    session_for_invocation(args, hash_invocation(cwd, args))
}

/// What the foreground process is to do.
#[derive(Debug)]
pub struct ClientOptions {
    pub session: String,
    pub codex_args: Vec<String>,
}

/// The session that is used: the one that the environment names, or else the one that the
/// arguments ask for, or else the default one.
pub open spec fn chosen_session(
    wanted: Option<Seq<char>>,
    args: Seq<Seq<char>>,
    hash: u64,
) -> Seq<char> {
    match wanted {
        Some(value) => session_name(value),
        None => match derived(args, hash) {
            Some(name) => name,
            None => DEFAULT_SESSION@,
        },
    }
}

/// Decides on the session, where `hash` is the hash of the invocation. All arguments go to codex.
pub fn client_options(args: Vec<String>, wanted: Option<&str>, hash: u64) -> (r: ClientOptions)
    ensures
        r.session@ == chosen_session(text::optional(wanted), text::texts(args@), hash),
        r.codex_args@ == args@,
{
    let session: String = match wanted {
        Some(value) => sanitize_session_name(value),
        None => match session_for_invocation(args.as_slice(), hash) {
            Some(name) => name,
            None => DEFAULT_SESSION.to_string(),
        },
    };
    ClientOptions { session, codex_args: args }
}

/// Decides on the session, for an invocation in the directory `cwd` with the session `wanted` in
/// its environment. All arguments go to codex.
pub fn parse_client_args(args: Vec<String>, wanted: Option<&str>, cwd: Option<&str>) -> (r:
    ClientOptions)
    ensures
        exists|hash: u64|
            invocation_hash(text::optional(cwd), text::texts(args@), hash) && r.session@
                == chosen_session(text::optional(wanted), text::texts(args@), hash),
        r.codex_args@ == args@,
{
    let hash: u64 = hash_invocation(cwd, args.as_slice());
    client_options(args, wanted, hash)
}

/// The first of the directories that there is.
pub open spec fn first_directory<P>(local: Option<P>, roaming: Option<P>, temporary: P) -> P {
    match (local, roaming) {
        (Some(path), _) => path,
        (None, Some(path)) => path,
        (None, None) => temporary,
    }
}

/// The name of the file that describes a session.
pub open spec fn state_file(session: Seq<char>) -> Seq<char> {
    session + ".state.json"@
}

/// The name of the file that configures the broker of a session.
pub open spec fn config_file(session: Seq<char>) -> Seq<char> {
    session + ".config.json"@
}

/// The first of the directories that there is: the two that the environment names, then the one
/// for temporary files.
pub fn base_directory<P>(local: Option<P>, roaming: Option<P>, temporary: P) -> (r: P)
    ensures
        r == (match (local, roaming) {
            (Some(path), _) => path,
            (None, Some(path)) => path,
            (None, None) => temporary,
        }),
        r == first_directory(local, roaming, temporary),
{
    match local {
        Some(path) => path,
        None => match roaming {
            Some(path) => path,
            None => temporary,
        },
    }
}

/// The name of the file that tells clients how to reach the broker of a session.
pub fn state_path(session: &str) -> (r: String)
    ensures
        r@ == session@ + ".state.json"@,
        r@ == state_file(session@),
{
    let mut name: String = session.to_string();
    name.append(".state.json");
    name
}

/// The name of the file that tells a broker what to run.
pub fn config_path(session: &str) -> (r: String)
    ensures
        r@ == session@ + ".config.json"@,
        r@ == config_file(session@),
{
    let mut name: String = session.to_string();
    name.append(".config.json");
    name
}

/// What a broker is to run, and where.
#[derive(Debug)]
pub struct ServerConfig {
    pub version: u32,
    pub session: String,
    pub cwd: String,
    pub args: Vec<String>,
    pub state_path: String,
}

/// How clients reach a broker, and what it runs.
#[derive(Debug)]
pub struct SessionState {
    pub version: u32,
    pub session: String,
    pub port: u16,
    pub server_pid: u32,
    pub cwd: String,
    pub args: Vec<String>,
    pub started_at_ms: u128,
}

fn copy_texts(values: &[String]) -> (r: Vec<String>)
    ensures
        text::texts(r@) == text::texts(values@),
{
    let mut out: Vec<String> = Vec::new();
    push_texts(&mut out, values);
    assert(text::texts(out@) =~= text::texts(values@));
    out
}

/// The configuration of a broker for a session.
pub fn server_config(session: &str, cwd: &str, args: &[String], state_path: &str) -> (r:
    ServerConfig)
    ensures
        r.version == STATE_VERSION,
        r.session@ == session@,
        r.cwd@ == cwd@,
        text::texts(r.args@) == text::texts(args@),
        r.state_path@ == state_path@,
{
    ServerConfig {
        version: STATE_VERSION,
        session: session.to_string(),
        cwd: cwd.to_string(),
        args: copy_texts(args),
        state_path: state_path.to_string(),
    }
}

/// How clients reach the broker that was started with `config`.
pub fn session_state(
    config: &ServerConfig,
    port: u16,
    server_pid: u32,
    started_at_ms: u128,
) -> (r: SessionState)
    ensures
        r.version == STATE_VERSION,
        r.session@ == config.session@,
        r.port == port,
        r.server_pid == server_pid,
        r.cwd@ == config.cwd@,
        text::texts(r.args@) == text::texts(config.args@),
        r.started_at_ms == started_at_ms,
{
    SessionState {
        version: STATE_VERSION,
        session: config.session.clone(),
        port,
        server_pid,
        cwd: config.cwd.clone(),
        args: copy_texts(config.args.as_slice()),
        started_at_ms,
    }
}

/// `SystemTime::elapsed` of std, for the Unix epoch: the whole seconds that have passed since then
/// by the clock of the system, and the nanoseconds beyond them, of which there are fewer than make
/// a second. `None` where the clock is set before the epoch.
#[verifier::external_body]
fn time_since_epoch() -> (r: Option<(u64, u32)>)
    ensures
        r matches Some((_, nanoseconds)) ==> nanoseconds < 1_000_000_000,
{
    UNIX_EPOCH.elapsed().ok().map(|time| (time.as_secs(), time.subsec_nanos()))
}

/// The milliseconds of a reading of the clock. A clock that is set before the epoch counts as
/// being at it.
pub open spec fn epoch_ms(reading: Option<(u64, u32)>) -> int {
    match reading {
        Some((seconds, nanoseconds)) => seconds * 1000 + nanoseconds as int / 1_000_000,
        None => 0,
    }
}

/// The milliseconds of a reading of the clock.
pub fn milliseconds(reading: Option<(u64, u32)>) -> (r: u128)
    ensures
        r == epoch_ms(reading),
{
    match reading {
        Some((seconds, nanoseconds)) => seconds as u128 * 1000 + (nanoseconds / 1_000_000) as u128,
        None => 0,
    }
}

/// The milliseconds since the Unix epoch.
pub fn now_ms() -> (r: u128)
    ensures
        exists|reading: Option<(u64, u32)>|
            (reading matches Some((_, nanoseconds)) ==> nanoseconds < 1_000_000_000) && r
                == #[trigger] epoch_ms(reading),
        r <= u64::MAX * 1000 + 999,
{
    let reading: Option<(u64, u32)> = time_since_epoch();
    milliseconds(reading)
}

proof fn lemma_kept_keeps(value: Seq<char>)
    requires
        forall|i: int| 0 <= i < value.len() ==> allowed(#[trigger] value[i]),
    ensures
        kept(value) == value,
    decreases value.len(),
{
    reveal(Seq::filter);
    if value.len() > 0 {
        assert forall|i: int| 0 <= i < value.drop_last().len() implies allowed(
            #[trigger] value.drop_last()[i],
        ) by {
            assert(allowed(value[i]));
        }
        lemma_kept_keeps(value.drop_last());
        assert(allowed(value[value.len() - 1]));
        assert(value.drop_last().push(value.last()) =~= value);
    }
}

/// A text that is a session name already stays as it is.
pub proof fn law_clean_name_is_kept(value: Seq<char>)
    requires
        value.len() > 0,
        forall|i: int| 0 <= i < value.len() ==> allowed(#[trigger] value[i]),
    ensures
        session_name(value) == value,
{
    lemma_kept_keeps(value);
}

/// The session name of a session name is that name.
pub proof fn law_session_name_is_idempotent(value: Seq<char>)
    ensures
        session_name(session_name(value)) == session_name(value),
{
    law_session_name_is_safe(value);
    law_clean_name_is_kept(session_name(value));
}

/// Conversations that are known by different keys have different sessions, and none of them has
/// the default session.
pub proof fn law_targeted_resume_has_its_own_session(a: Seq<char>, b: Seq<char>)
    requires
        resume_key(a) != resume_key(b),
    ensures
        resume_name(a) != resume_name(b),
        resume_name(a) != DEFAULT_SESSION@,
        resume_name(b) != DEFAULT_SESSION@,
{
    reveal_strlit("resume-");
    reveal_strlit("default");
    assert(resume_name(a).skip(7) =~= resume_key(a));
    assert(resume_name(b).skip(7) =~= resume_key(b));
    assert(resume_name(a)[0] == 'r' && resume_name(b)[0] == 'r');
}

/// Different targets are known by different keys: short ones that are session names already,
/// always; long ones, where their hashes differ.
pub proof fn law_different_targets_have_different_keys(a: Seq<char>, b: Seq<char>)
    requires
        a != b,
        a.len() > 0 && b.len() > 0,
        forall|i: int| 0 <= i < a.len() ==> allowed(#[trigger] a[i]),
        forall|i: int| 0 <= i < b.len() ==> allowed(#[trigger] b[i]),
        a.len() > MAX_TARGET_LEN && b.len() > MAX_TARGET_LEN ==> text_hash(a) != text_hash(b),
        a.len() <= MAX_TARGET_LEN && b.len() > MAX_TARGET_LEN ==> a != text::hex_digits(
            text_hash(b),
        ),
        b.len() <= MAX_TARGET_LEN && a.len() > MAX_TARGET_LEN ==> b != text::hex_digits(
            text_hash(a),
        ),
    ensures
        resume_key(a) != resume_key(b),
{
    law_clean_name_is_kept(a);
    law_clean_name_is_kept(b);
    if a.len() > MAX_TARGET_LEN && b.len() > MAX_TARGET_LEN && resume_key(a) == resume_key(b) {
        text::law_hex_digits_injective(text_hash(a), text_hash(b));
    }
}

/// Plain `coder` and plain `coder resume` use the default session, wherever they are run.
pub proof fn law_plain_resume_uses_default_session(args: Seq<Seq<char>>, hash: u64)
    requires
        args.len() == 0 || (args.len() == 1 && args[0] == "resume"@),
    ensures
        derived(args, hash) is None,
        chosen_session(None, args, hash) == DEFAULT_SESSION@,
{
    if args.len() == 1 {
        args::lemma_resume_is_a_command();
        assert(args::first_argument(args, 0) == 0);
        assert(args.skip(1) =~= Seq::empty());
    }
}

/// A session that the environment names is used whatever the arguments are.
pub proof fn law_named_session_wins(
    value: Seq<char>,
    args: Seq<Seq<char>>,
    other_args: Seq<Seq<char>>,
    hash: u64,
    other_hash: u64,
)
    ensures
        chosen_session(Some(value), args, hash) == chosen_session(
            Some(value),
            other_args,
            other_hash,
        ),
{
}

/// The files of different sessions have different names, and so have the two files of a session.
pub proof fn law_session_files_are_apart(a: Seq<char>, b: Seq<char>)
    ensures
        a != b ==> a + ".state.json"@ != b + ".state.json"@,
        a != b ==> a + ".config.json"@ != b + ".config.json"@,
        a + ".state.json"@ != b + ".config.json"@,
{
    reveal_strlit(".state.json");
    reveal_strlit(".config.json");
    let s = ".state.json"@;
    let c = ".config.json"@;
    assert((a + s).take((a + s).len() - 11) =~= a);
    assert((b + s).take((b + s).len() - 11) =~= b);
    assert((a + c).take((a + c).len() - 12) =~= a);
    assert((b + c).take((b + c).len() - 12) =~= b);
    assert((a + s)[(a + s).len() - 6] == 'e');
    assert((b + c)[(b + c).len() - 6] == 'g');
}

/// `resume` with a target uses the session of that target, whatever options stand around it.
pub proof fn law_targeted_resume_uses_the_session_of_its_target(args: Seq<Seq<char>>, hash: u64)
    requires
        args.len() > 1,
        args[0] == "resume"@,
        args::target(args.skip(1)) is Some,
    ensures
        chosen_session(None, args, hash) == resume_name(args::target(args.skip(1))->0),
{
    args::lemma_resume_is_a_command();
    assert(args::first_argument(args, 0) == 0);
}

/// `resume` with options and no target uses a session of its own, not the default one.
pub proof fn law_untargeted_resume_is_not_default(args: Seq<Seq<char>>, hash: u64)
    requires
        args.len() > 1,
        args[0] == "resume"@,
        args::target(args.skip(1)) is None,
    ensures
        chosen_session(None, args, hash) == "resume-"@ + text::hex_digits(hash),
        chosen_session(None, args, hash) != DEFAULT_SESSION@,
{
    args::lemma_resume_is_a_command();
    assert(args::first_argument(args, 0) == 0);
    reveal_strlit("resume-");
    reveal_strlit("default");
    assert(chosen_session(None, args, hash)[0] == 'r');
}

/// Two resumed conversations that are known by different keys do not share a broker: neither
/// finds the file of the other's.
pub proof fn law_separate_resumes_do_not_share_a_broker(
    one: Seq<Seq<char>>,
    two: Seq<Seq<char>>,
    hash_one: u64,
    hash_two: u64,
)
    requires
        one.len() > 1 && one[0] == "resume"@,
        two.len() > 1 && two[0] == "resume"@,
        args::target(one.skip(1)) is Some,
        args::target(two.skip(1)) is Some,
        resume_key(args::target(one.skip(1))->0) != resume_key(args::target(two.skip(1))->0),
    ensures
        chosen_session(None, one, hash_one) + ".state.json"@ != chosen_session(None, two, hash_two)
            + ".state.json"@,
        chosen_session(None, one, hash_one) + ".state.json"@ != DEFAULT_SESSION@ + ".state.json"@,
{
    law_targeted_resume_uses_the_session_of_its_target(one, hash_one);
    law_targeted_resume_uses_the_session_of_its_target(two, hash_two);
    law_targeted_resume_has_its_own_session(
        args::target(one.skip(1))->0,
        args::target(two.skip(1))->0,
    );
    law_session_files_are_apart(
        chosen_session(None, one, hash_one),
        chosen_session(None, two, hash_two),
    );
    law_session_files_are_apart(chosen_session(None, one, hash_one), DEFAULT_SESSION@);
}

proof fn lemma_kept_of_two(a: Seq<char>, b: Seq<char>)
    ensures
        kept(a + b) == kept(a) + kept(b),
    decreases b.len(),
{
    reveal(Seq::filter);
    if b.len() == 0 {
        assert(a + b =~= a);
        assert(kept(a) + kept(b) =~= kept(a));
    } else {
        lemma_kept_of_two(a, b.drop_last());
        assert((a + b).drop_last() =~= a + b.drop_last());
        assert((a + b).last() == b.last());
        assert(kept(a + b) =~= kept(a) + kept(b));
    }
}

/// A session name holds the ASCII letters and digits of a text, its dashes, underscores and dots,
/// in their order, and nothing else. A text without any of them has the default name.
pub proof fn law_session_name_keeps_safe_characters(a: Seq<char>, ch: char, b: Seq<char>)
    ensures
        ({
            let code = ch as int;
            let safe = (0x61 <= code <= 0x7a) || (0x41 <= code <= 0x5a) || (0x30 <= code <= 0x39)
                || code == 0x2d || code == 0x5f || code == 0x2e;
            &&& safe ==> kept(a.push(ch) + b) == kept(a).push(ch) + kept(b)
            &&& !safe ==> kept(a.push(ch) + b) == kept(a + b)
            &&& !safe ==> session_name(a.push(ch) + b) == session_name(a + b)
        }),
        kept(a).len() > 0 ==> session_name(a) == kept(a),
        kept(a).len() == 0 ==> session_name(a) == "default"@,
        kept(Seq::empty()) == Seq::<char>::empty(),
{
    reveal(Seq::filter);
    lemma_kept_of_two(a.push(ch), b);
    lemma_kept_of_two(a, b);
    assert(a.push(ch).drop_last() =~= a);
    assert(kept(Seq::empty()) =~= Seq::<char>::empty());
}

/// A conversation is known by the name of its target where that has at most eighty characters, and
/// by the hash of the target otherwise. Its session is `resume-` and that key.
pub proof fn law_conversation_is_known_by_its_target(target: Seq<char>)
    ensures
        session_name(target).len() <= 80 ==> resume_name(target) == "resume-"@ + session_name(
            target,
        ),
        session_name(target).len() > 80 ==> resume_name(target) == "resume-"@ + text::hex_digits(
            text_hash(target),
        ),
        resume_name(target) == "resume-"@ + resume_key(target),
{
}

/// The name that the environment gives is the session, made safe. Without one, a command other than
/// `resume` uses the default session.
pub proof fn law_session_of_other_commands(wanted: Seq<char>, args: Seq<Seq<char>>, hash: u64)
    ensures
        chosen_session(Some(wanted), args, hash) == session_name(wanted),
        args::positional(args) != Some("resume"@) ==> derived(args, hash) is None && chosen_session(
            None,
            args,
            hash,
        ) == "default"@,
        derived(args, hash) matches Some(name) ==> chosen_session(None, args, hash) == name,
{
}

/// Options in front of `resume` do not change the session.
pub proof fn law_options_before_resume_do_not_count(args: Seq<Seq<char>>, hash: u64)
    requires
        args.len() > 0,
        args[0].len() > 0 && args[0][0] == '-',
        args[0] != "--"@,
    ensures
        ({
            let width: int = if args::is_value_option(args[0]) {
                2
            } else {
                1
            };
            &&& args.len() >= width ==> derived(args, hash) == derived(args.skip(width), hash)
            &&& args.len() < width ==> derived(args, hash) is None
        }),
{
    args::law_options_are_passed_over(args);
    let width: int = if args::is_value_option(args[0]) {
        2
    } else {
        1
    };
    if args.len() >= width {
        let rest = args.skip(width);
        if let Some(i) = args::positional_index(rest) {
            args::lemma_positional_index(rest);
            assert(rest[i] == args[i + width]);
            assert(rest.skip(i + 1) =~= args.skip(i + width + 1));
        }
    }
}

/// A reading of the clock counts a thousand milliseconds for each second, and one for each full
/// million of nanoseconds. A clock before the epoch counts nothing.
pub proof fn law_milliseconds_of_a_reading(seconds: u64, nanoseconds: u32, full: int)
    requires
        full * 1_000_000 <= nanoseconds < (full + 1) * 1_000_000,
    ensures
        epoch_ms(Some((seconds, nanoseconds))) == seconds * 1000 + full,
        epoch_ms(None) == 0,
{
}

/// The files of a session are named after it, and lie in the first directory that the environment
/// names, or else in the one for temporary files.
pub proof fn law_where_session_files_are<P>(session: Seq<char>, a: P, b: Option<P>, c: P)
    ensures
        session.is_prefix_of(state_file(session)),
        state_file(session).skip(session.len() as int) == ".state.json"@,
        session.is_prefix_of(config_file(session)),
        config_file(session).skip(session.len() as int) == ".config.json"@,
        first_directory(Some(a), b, c) == a,
        first_directory(None, Some(a), c) == a,
        first_directory(None, None, c) == c,
{
    assert(state_file(session).subrange(0, session.len() as int) =~= session);
    assert(config_file(session).subrange(0, session.len() as int) =~= session);
    assert(state_file(session).skip(session.len() as int) =~= ".state.json"@);
    assert(config_file(session).skip(session.len() as int) =~= ".config.json"@);
}

} // verus!

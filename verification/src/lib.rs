//! Decision logic of `coder`, a detachable wrapper around `codex`: which session an invocation
//! belongs to, what travels between a client and its broker, what becomes of output and input on
//! the way, and what the broker does when the program exits.

pub mod text;
pub mod escape;
pub mod terminal;
pub mod shared;
pub mod output;
pub mod frame;
pub mod foreground;
pub mod keys;
pub mod input;
pub mod args;
pub mod session;
pub mod broker;
pub mod launch;

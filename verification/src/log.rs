//! The log: whether verbose messages are written, where the log file is,
//! and the lines written to it. The application appends the lines to the
//! file and measures the time since startup.

use vstd::prelude::*;
use vstd::string::StringExecFns;

use crate::text::{decimal, push_char, push_decimal};

verus! {

broadcast use vstd::string::group_string_axioms;

/// The logging settings.
pub struct LogState {
    path: Option<String>,
    verbose: bool,
}

/// The abstract content of a `LogState`.
pub struct LogModel {
    /// The log file, once logging has been started.
    pub path: Option<Seq<char>>,
    /// Whether verbose messages are written.
    pub verbose: bool,
}

impl View for LogState {
    type V = LogModel;

    closed spec fn view(&self) -> LogModel {
        LogModel {
            path: match self.path {
                Some(p) => Some(p@),
                None => None,
            },
            verbose: self.verbose,
        }
    }
}

/// `n` written with at least three digits, padded with leading zeros.
pub open spec fn padded3(n: nat) -> Seq<char> {
    if n < 10 {
        seq!['0', '0'] + decimal(n)
    } else if n < 100 {
        seq!['0'] + decimal(n)
    } else {
        decimal(n)
    }
}

/// The line written for `msg` at `secs` seconds and `millis` milliseconds
/// after startup: `[+<secs>.<millis, three digits>] <msg>` and a line break.
pub open spec fn log_line(secs: u64, millis: u32, msg: Seq<char>) -> Seq<char> {
    seq!['[', '+'] + decimal(secs as nat) + seq!['.'] + padded3(millis as nat) + seq![']', ' ']
        + msg + seq!['\n']
}

impl LogState {
    /// Logging not yet started, verbose messages off.
    pub fn new() -> (s: LogState)
        ensures
            s@ == (LogModel { path: None, verbose: false }),
    {
        LogState { path: None, verbose: false }
    }

    /// Starts logging to the file at `path` (which the application has just
    /// emptied).
    pub fn init(&mut self, path: String)
        ensures
            final(self)@ == (LogModel { path: Some(path@), ..old(self)@ }),
    {
        self.path = Some(path);
    }
}

/// The line to append to the log file for `msg`, or `None` before logging
/// has started.
pub fn log(state: &LogState, secs: u64, millis: u32, msg: &str) -> (r: Option<String>)
    ensures
        match r {
            Some(line) => state@.path is Some && line@ == log_line(secs, millis, msg@),
            None => state@.path is None,
        },
{
    match &state.path {
        None => None,
        Some(_) => Some(format_line(secs, millis, msg)),
    }
}

/// The line to append for a verbose message: none unless verbose messages
/// are on and logging has started.
pub fn log_verbose(state: &LogState, secs: u64, millis: u32, msg: &str) -> (r: Option<String>)
    ensures
        match r {
            Some(line) => state@.verbose && state@.path is Some && line@ == log_line(
                secs,
                millis,
                msg@,
            ),
            None => !state@.verbose || state@.path is None,
        },
{
    if !state.verbose {
        return None;
    }
    log(state, secs, millis, msg)
}

/// Whether verbose messages are written.
pub fn is_verbose(state: &LogState) -> (r: bool)
    ensures
        r == state@.verbose,
{
    state.verbose
}

/// Turns verbose messages on or off.
pub fn set_verbose(state: &mut LogState, enabled: bool)
    ensures
        final(state)@ == (LogModel { verbose: enabled, ..old(state)@ }),
{
    state.verbose = enabled;
}

/// The log file's path, or the empty string before logging has started.
pub fn log_path(state: &LogState) -> (r: String)
    ensures
        r@ == match state@.path {
            Some(p) => p,
            None => Seq::empty(),
        },
{
    match &state.path {
        Some(p) => p.clone(),
        None => String::new(),
    }
}

/// Formats a log line.
fn format_line(secs: u64, millis: u32, msg: &str) -> (r: String)
    ensures
        r@ == log_line(secs, millis, msg@),
{
    let mut r = String::new();
    push_char(&mut r, '[');
    push_char(&mut r, '+');
    push_decimal(&mut r, secs);
    push_char(&mut r, '.');
    if millis < 10 {
        push_char(&mut r, '0');
        push_char(&mut r, '0');
    } else if millis < 100 {
        push_char(&mut r, '0');
    }
    push_decimal(&mut r, millis as u64);
    push_char(&mut r, ']');
    push_char(&mut r, ' ');
    r.append(msg);
    push_char(&mut r, '\n');
    proof {
        assert(r@ =~= log_line(secs, millis, msg@));
    }
    r
}

} // verus!

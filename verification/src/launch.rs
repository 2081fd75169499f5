//! What the program decides when it starts: which features it reports,
//! which command set runs, and how log messages are filtered and coloured.

use crate::text::str_eq;
use crate::utils::{lowercase, to_lowercase};
use vstd::prelude::*;

verus! {

broadcast use vstd::string::group_string_axioms;

/// The names of the enabled features, joined by `, `, or `none`.
pub open spec fn features_text(cli: bool, ssg: bool) -> Seq<char> {
    if cli && ssg {
        "cli, ssg"@
    } else if cli {
        "cli"@
    } else if ssg {
        "ssg"@
    } else {
        "none"@
    }
}

/// Lists the enabled features (`cli`, then `ssg`), joined by `, `, or
/// `none` where neither is enabled.
pub fn get_enabled_features(cli: bool, ssg: bool) -> (r: String)
    ensures
        r@ == features_text(cli, ssg),
{
    if cli && ssg {
        "cli, ssg".to_string()
    } else if cli {
        "cli".to_string()
    } else if ssg {
        "ssg".to_string()
    } else {
        "none".to_string()
    }
}

/// The command set that runs.
#[derive(Debug, Clone, Copy, PartialEq, Eq, Structural)]
pub enum Mode {
    /// The front matter command-line interface.
    Cli,
    /// The static site generator.
    Ssg,
}

/// The command set for the enabled features and the program's arguments:
/// the one enabled feature, or with both the generator where the first
/// argument after the program's name is `build` or `serve`; none where no
/// feature is enabled.
pub open spec fn mode_for(cli: bool, ssg: bool, args: Seq<Seq<char>>) -> Option<Mode> {
    if ssg && !cli {
        Some(Mode::Ssg)
    } else if cli && !ssg {
        Some(Mode::Cli)
    } else if cli && ssg {
        if args.len() > 1 && (args[1] == "build"@ || args[1] == "serve"@) {
            Some(Mode::Ssg)
        } else {
            Some(Mode::Cli)
        }
    } else {
        None
    }
}

/// Selects the command set that runs, as [`mode_for`] states it.
pub fn select_mode(cli: bool, ssg: bool, args: &Vec<String>) -> (r: Option<Mode>)
    ensures
        r == mode_for(cli, ssg, args@.map_values(|a: String| a@)),
{
    let ghost views = args@.map_values(|a: String| a@);
    if ssg && !cli {
        Some(Mode::Ssg)
    } else if cli && !ssg {
        Some(Mode::Cli)
    } else if cli && ssg {
        proof {
            reveal_strlit("build");
            reveal_strlit("serve");
        }
        if args.len() > 1 && (str_eq(args[1].as_str(), "build") || str_eq(args[1].as_str(), "serve")) {
            Some(Mode::Ssg)
        } else {
            Some(Mode::Cli)
        }
    } else {
        None
    }
}

/// Levels of log messages.
#[derive(Debug, Clone, Copy, PartialEq, Eq, Structural)]
pub enum Level {
    /// Errors.
    Error,
    /// Warnings.
    Warn,
    /// Information.
    Info,
    /// Debugging detail.
    Debug,
    /// Tracing detail.
    Trace,
}

/// The most detailed level of log message that is shown.
#[derive(Debug, Clone, Copy, PartialEq, Eq, Structural)]
pub enum LevelFilter {
    /// Nothing is shown.
    Off,
    /// Errors.
    Error,
    /// Warnings and errors.
    Warn,
    /// Information and above.
    Info,
    /// Debugging detail and above.
    Debug,
    /// Everything.
    Trace,
}

/// The filter that a level name selects, whatever its case.
pub open spec fn filter_for_name(name: Seq<char>) -> Option<LevelFilter> {
    let l = lowercase(name);
    if l == "error"@ {
        Some(LevelFilter::Error)
    } else if l == "warn"@ {
        Some(LevelFilter::Warn)
    } else if l == "info"@ {
        Some(LevelFilter::Info)
    } else if l == "debug"@ {
        Some(LevelFilter::Debug)
    } else if l == "trace"@ {
        Some(LevelFilter::Trace)
    } else if l == "off"@ {
        Some(LevelFilter::Off)
    } else {
        None
    }
}

/// Reads a level name, whatever its case: `error`, `warn`, `info`,
/// `debug`, `trace` or `off`; any other name gives `None`, for which the
/// program logs at `debug`.
pub fn level_filter_from_name(name: &str) -> (r: Option<LevelFilter>)
    ensures
        r == filter_for_name(name@),
{
    let l = to_lowercase(name);
    let l = l.as_str();
    proof {
        reveal_strlit("error");
        reveal_strlit("warn");
        reveal_strlit("info");
        reveal_strlit("debug");
        reveal_strlit("trace");
        reveal_strlit("off");
    }
    if str_eq(l, "error") {
        Some(LevelFilter::Error)
    } else if str_eq(l, "warn") {
        Some(LevelFilter::Warn)
    } else if str_eq(l, "info") {
        Some(LevelFilter::Info)
    } else if str_eq(l, "debug") {
        Some(LevelFilter::Debug)
    } else if str_eq(l, "trace") {
        Some(LevelFilter::Trace)
    } else if str_eq(l, "off") {
        Some(LevelFilter::Off)
    } else {
        None
    }
}

/// The terminal colour code of each level: red, yellow, green, cyan and
/// bright black.
pub open spec fn level_color_code(level: Level) -> Seq<char> {
    match level {
        Level::Error => "\x1b[31m"@,
        Level::Warn => "\x1b[33m"@,
        Level::Info => "\x1b[32m"@,
        Level::Debug => "\x1b[36m"@,
        Level::Trace => "\x1b[90m"@,
    }
}

/// A simple logger that writes coloured messages to standard error.
#[derive(Debug, Clone, Copy)]
pub struct Logger;

impl Logger {
    /// Every message is passed on; the filter set at start-up applies.
    pub fn enabled(&self) -> (r: bool)
        ensures
            r,
    {
        true
    }

    /// The colour code that a message of `level` starts with.
    pub fn level_color(&self, level: Level) -> (r: &'static str)
        ensures
            r@ == level_color_code(level),
    {
        match level {
            Level::Error => "\x1b[31m",
            Level::Warn => "\x1b[33m",
            Level::Info => "\x1b[32m",
            Level::Debug => "\x1b[36m",
            Level::Trace => "\x1b[90m",
        }
    }

    /// Nothing is buffered, so there is nothing to flush.
    pub fn flush(&self) {
    }
}

} // verus!

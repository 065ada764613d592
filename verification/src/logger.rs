//! Log lines: where the log file is, how a line is formatted, and whether it
//! is also echoed to the console and on which stream.
//!
//! Writing is left to the caller: `log` returns the record to append to the
//! log file and to echo.
use vstd::prelude::*;
use crate::env;
use crate::targets::{location, locate};
use crate::text::{push_str, push_padded_int, string_of, padded_int};

verus! {

/// Where a log record is echoed.
#[derive(PartialEq, Eq, Structural, Clone, Copy, Debug)]
pub enum Console {
    Stdout,
    Stderr,
}

/// One formatted log record: the `line` appended to the log file and, unless
/// the logger is quiet, echoed with the `[mcp-sync] ` prefix to `console`.
pub struct LogRecord {
    pub line: String,
    pub console: Option<Console>,
}

/// Writes log records to a file and, unless quiet, to the console.
pub struct Logger {
    log_file: String,
    quiet: bool,
}

/// The view of a `Logger`: its log file and whether it is quiet.
pub struct LoggerV {
    pub log_file: Seq<char>,
    pub quiet: bool,
}

impl View for Logger {
    type V = LoggerV;

    closed spec fn view(&self) -> LoggerV {
        LoggerV { log_file: self.log_file@, quiet: self.quiet }
    }
}

/// The default log file: `<state>/mcp-sync/mcp-sync.log`, else
/// `~/.local/state/mcp-sync/mcp-sync.log`, else `/tmp/mcp-sync.log`.
pub open spec fn default_log_path(state: Option<Seq<char>>, home: Option<Seq<char>>) -> Seq<char> {
    location(state, "mcp-sync/mcp-sync.log"@, home, ".local/state/mcp-sync/mcp-sync.log"@, "/tmp/mcp-sync.log"@)
}

/// A log line: `<timestamp> [<level>] <msg>` and a newline.
pub open spec fn log_line(timestamp: Seq<char>, level: Seq<char>, msg: Seq<char>) -> Seq<char> {
    timestamp + " ["@ + level + "] "@ + msg + "\n"@
}

/// Where a record is echoed: standard error for `ERROR`, even when quiet;
/// otherwise standard output, or nowhere when quiet.
pub open spec fn console_for(quiet: bool, level: Seq<char>) -> Option<Console> {
    if level == "ERROR"@ {
        Some(Console::Stderr)
    } else if quiet {
        None
    } else {
        Some(Console::Stdout)
    }
}

/// A local time as `YYYY-MM-DD HH:MM:SS`, each field zero-padded.
pub open spec fn timestamp_text(year: int, month: int, day: int, hour: int, min: int, sec: int) -> Seq<char> {
    padded_int(year, 4) + "-"@ + padded_int(month, 2) + "-"@ + padded_int(day, 2) + " "@
        + padded_int(hour, 2) + ":"@ + padded_int(min, 2) + ":"@ + padded_int(sec, 2)
}

/// Formats a local time (calendar year, month 1-12, day, hour, minute,
/// second) as `YYYY-MM-DD HH:MM:SS`.
pub fn format_timestamp(year: i64, month: i64, day: i64, hour: i64, min: i64, sec: i64) -> (r: String)
    ensures
        r@ == timestamp_text(year as int, month as int, day as int, hour as int, min as int, sec as int),
{
    proof {
        reveal_strlit("-");
        reveal_strlit(" ");
        reveal_strlit(":");
    }
    let mut out: Vec<char> = Vec::new();
    push_padded_int(&mut out, year, 4);
    push_str(&mut out, "-");
    push_padded_int(&mut out, month, 2);
    push_str(&mut out, "-");
    push_padded_int(&mut out, day, 2);
    push_str(&mut out, " ");
    push_padded_int(&mut out, hour, 2);
    push_str(&mut out, ":");
    push_padded_int(&mut out, min, 2);
    push_str(&mut out, ":");
    push_padded_int(&mut out, sec, 2);
    assert(out@ =~= timestamp_text(year as int, month as int, day as int, hour as int, min as int, sec as int));
    string_of(out.as_slice())
}

impl Logger {
    /// A logger writing to `custom_path`, or, when none is given, to the
    /// default log file.
    pub fn new(custom_path: Option<String>, quiet: bool) -> (r: Self)
        ensures
            r@.quiet == quiet,
            match custom_path {
                Some(p) => r@.log_file == p@,
                None => exists|s: Option<Seq<char>>, h: Option<Seq<char>>| r@.log_file == default_log_path(s, h),
            },
    {
        match custom_path {
            Some(p) => Logger { log_file: p, quiet },
            None => {
                let s = env::state_dir();
                let h = env::home_dir();
                let p = locate(&s, "mcp-sync/mcp-sync.log", &h, ".local/state/mcp-sync/mcp-sync.log", "/tmp/mcp-sync.log");
                let r = Logger { log_file: p, quiet };
                assert(r@.log_file == default_log_path(crate::config::opt_str(s), crate::config::opt_str(h)));
                r
            },
        }
    }

    /// The record for `msg` at `level`, stamped with `timestamp`.
    pub fn log(&self, level: &str, msg: &str, timestamp: &str) -> (r: LogRecord)
        ensures
            r.line@ == log_line(timestamp@, level@, msg@),
            r.console == console_for(self@.quiet, level@),
    {
        proof {
            reveal_strlit(" [");
            reveal_strlit("] ");
            reveal_strlit("\n");
            reveal_strlit("ERROR");
        }
        let mut out: Vec<char> = Vec::new();
        push_str(&mut out, timestamp);
        push_str(&mut out, " [");
        push_str(&mut out, level);
        push_str(&mut out, "] ");
        push_str(&mut out, msg);
        push_str(&mut out, "\n");
        assert(out@ =~= log_line(timestamp@, level@, msg@));
        let console = if crate::text::str_eq(level, "ERROR") {
            Some(Console::Stderr)
        } else if self.quiet {
            None
        } else {
            Some(Console::Stdout)
        };
        LogRecord { line: string_of(out.as_slice()), console }
    }

    /// The `INFO` record for `msg`.
    pub fn info(&self, msg: &str, timestamp: &str) -> (r: LogRecord)
        ensures
            r.line@ == log_line(timestamp@, "INFO"@, msg@),
            r.console == console_for(self@.quiet, "INFO"@),
    {
        self.log("INFO", msg, timestamp)
    }

    /// The `WARN` record for `msg`.
    pub fn warn(&self, msg: &str, timestamp: &str) -> (r: LogRecord)
        ensures
            r.line@ == log_line(timestamp@, "WARN"@, msg@),
            r.console == console_for(self@.quiet, "WARN"@),
    {
        self.log("WARN", msg, timestamp)
    }

    /// The `ERROR` record for `msg`.
    pub fn error(&self, msg: &str, timestamp: &str) -> (r: LogRecord)
        ensures
            r.line@ == log_line(timestamp@, "ERROR"@, msg@),
            r.console == console_for(self@.quiet, "ERROR"@),
    {
        self.log("ERROR", msg, timestamp)
    }

    /// The log file.
    pub fn log_path(&self) -> (r: &str)
        ensures
            r@ == self@.log_file,
    {
        self.log_file.as_str()
    }

    /// Whether console echo is off.
    pub fn is_quiet(&self) -> (r: bool)
        ensures
            r == self@.quiet,
    {
        self.quiet
    }
}

} // verus!

//! The in-memory log ring: a bounded buffer of entries, newest kept,
//! and the pure text helpers of the log pipeline.

use vstd::prelude::*;

verus! {

/// Severity of a log entry.
#[derive(PartialEq, Eq, Structural, Debug, Clone, Copy)]
pub enum LogLevel {
    Info,
    Warn,
    Error,
    Success,
    System,
}

/// One log entry; the timestamp is seconds since the epoch.
pub struct LogEntry {
    pub timestamp: i64,
    pub level: LogLevel,
    pub category: String,
    pub message: String,
    pub source: Option<String>,
}

impl Clone for LogEntry {
    fn clone(&self) -> (r: Self)
        ensures
            r == *self,
    {
        LogEntry {
            timestamp: self.timestamp,
            level: self.level,
            category: self.category.clone(),
            message: self.message.clone(),
            source: match &self.source {
                Some(s) => Some(s.clone()),
                None => None,
            },
        }
    }
}

/// The bounded in-memory buffer: at most `max_logs` entries, oldest
/// dropped first.
pub struct Logger {
    logs: Vec<LogEntry>,
    max_logs: usize,
}

impl View for Logger {
    type V = Seq<LogEntry>;

    closed spec fn view(&self) -> Seq<LogEntry> {
        self.logs@
    }
}

impl Logger {
    pub closed spec fn max_spec(&self) -> int {
        self.max_logs as int
    }

    pub open spec fn wf(&self) -> bool {
        self@.len() <= self.max_spec() && self.max_spec() >= 1
    }

    pub fn new(max_logs: usize) -> (r: Self)
        requires
            max_logs >= 1,
        ensures
            r.wf(),
            r@ == Seq::<LogEntry>::empty(),
            r.max_spec() == max_logs,
    {
        Logger { logs: Vec::new(), max_logs }
    }

    /// Append one entry, dropping the oldest when the buffer is full.
    pub fn log(&mut self, entry: LogEntry)
        requires
            old(self).wf(),
        ensures
            final(self).wf(),
            final(self).max_spec() == old(self).max_spec(),
            old(self)@.len() < old(self).max_spec() ==> final(self)@ == old(self)@.push(entry),
            old(self)@.len() >= old(self).max_spec() ==> final(self)@ == old(
                self,
            )@.drop_first().push(entry),
    {
        if self.logs.len() >= self.max_logs {
            self.logs.remove(0);
            proof {
                assert(self@ =~= old(self)@.drop_first());
            }
        }
        self.logs.push(entry);
    }

    /// The `limit` newest entries, newest first.
    pub fn get_logs(&self, limit: usize) -> (r: Vec<LogEntry>)
        ensures
            r@.len() == if limit <= self@.len() {
                limit as int
            } else {
                self@.len() as int
            },
            forall|i: int| 0 <= i < r@.len() ==> r@[i] == self@[self@.len() - 1 - i],
    {
        let n = self.logs.len();
        let take = if limit < n {
            limit
        } else {
            n
        };
        let mut r: Vec<LogEntry> = Vec::new();
        let mut i: usize = 0;
        while i < take
            invariant
                n == self@.len(),
                take <= n,
                0 <= i <= take,
                r@.len() == i,
                forall|k: int| 0 <= k < i ==> r@[k] == self@[n - 1 - k],
            decreases take - i,
        {
            r.push(self.logs[n - 1 - i].clone());
            i = i + 1;
        }
        r
    }

    /// Drop every entry.
    pub fn clear_logs(&mut self)
        requires
            old(self).wf(),
        ensures
            final(self).wf(),
            final(self).max_spec() == old(self).max_spec(),
            final(self)@ == Seq::<LogEntry>::empty(),
    {
        self.logs.clear();
    }
}

/// The level a UI log line arrives under, keyed by its level tag; an
/// unknown tag is information.
pub open spec fn ui_level(tag: Seq<char>) -> LogLevel {
    if tag == "error"@ {
        LogLevel::Error
    } else if tag == "warn"@ {
        LogLevel::Warn
    } else if tag == "success"@ {
        LogLevel::Success
    } else {
        LogLevel::Info
    }
}

/// Record a message from the API layer in the UI log buffer, under the
/// `API` category.
pub fn log_to_ui(logs: &mut Logger, level: &str, message: &str, now: i64)
    requires
        old(logs).wf(),
    ensures
        final(logs).wf(),
        final(logs).max_spec() == old(logs).max_spec(),
        final(logs)@.len() >= 1,
        ({
            let e = final(logs)@.last();
            &&& e.timestamp == now
            &&& e.level == ui_level(level@)
            &&& e.category@ == "API"@
            &&& e.message@ == message@
            &&& e.source is None
        }),
        old(logs)@.len() < old(logs).max_spec() ==> final(logs)@ == old(logs)@.push(
            final(logs)@.last(),
        ),
        old(logs)@.len() >= old(logs).max_spec() ==> final(logs)@ == old(
            logs,
        )@.drop_first().push(final(logs)@.last()),
{
    let lvl = if crate::text::str_eq(level, "error") {
        LogLevel::Error
    } else if crate::text::str_eq(level, "warn") {
        LogLevel::Warn
    } else if crate::text::str_eq(level, "success") {
        LogLevel::Success
    } else {
        LogLevel::Info
    };
    let entry = LogEntry {
        timestamp: now,
        level: lvl,
        category: "API".to_owned(),
        message: message.to_owned(),
        source: None,
    };
    let ghost e = entry;
    logs.log(entry);
    proof {
        assert(e.level == ui_level(level@));
        assert(logs@.last() == e);
    }
}

/// The `limit` newest entries of the UI log buffer, newest first.
pub fn get_api_logs(logs: &Logger, limit: usize) -> (r: Vec<LogEntry>)
    ensures
        r@.len() == if limit <= logs@.len() {
            limit as int
        } else {
            logs@.len() as int
        },
        forall|i: int| 0 <= i < r@.len() ==> r@[i] == logs@[logs@.len() - 1 - i],
{
    logs.get_logs(limit)
}

/// Empty the UI log buffer.
pub fn clear_api_logs(logs: &mut Logger)
    requires
        old(logs).wf(),
    ensures
        final(logs).wf(),
        final(logs)@ == Seq::<LogEntry>::empty(),
{
    logs.clear_logs();
}

/// The fixed tag a level is written under.
pub open spec fn level_text(level: LogLevel) -> Seq<char> {
    match level {
        LogLevel::Error => "ERROR"@,
        LogLevel::Warn => "WARN"@,
        LogLevel::Info => "INFO"@,
        LogLevel::Success => "SUCCESS"@,
        LogLevel::System => "SYSTEM"@,
    }
}

/// The tag a level is written under.
pub fn level_to_string(level: &LogLevel) -> (r: &'static str)
    ensures
        r@ == level_text(*level),
{
    match level {
        LogLevel::Error => "ERROR",
        LogLevel::Warn => "WARN",
        LogLevel::Info => "INFO",
        LogLevel::Success => "SUCCESS",
        LogLevel::System => "SYSTEM",
    }
}

/// How one character is written inside a JSON string.
pub open spec fn escaped_char(c: char) -> Seq<char> {
    if c == '\\' {
        seq!['\\', '\\']
    } else if c == '"' {
        seq!['\\', '"']
    } else if c == '\n' {
        seq!['\\', 'n']
    } else if c == '\r' {
        seq!['\\', 'r']
    } else if c == '\t' {
        seq!['\\', 't']
    } else {
        seq![c]
    }
}

/// A string as it is written inside a JSON string literal.
pub open spec fn escape_json_seq(s: Seq<char>) -> Seq<char>
    decreases s.len(),
{
    if s.len() == 0 {
        Seq::empty()
    } else {
        escape_json_seq(s.drop_last()) + escaped_char(s.last())
    }
}

/// Escape the characters JSON cannot carry verbatim.
pub fn escape_json(s: &str) -> (r: String)
    ensures
        r@ == escape_json_seq(s@),
{
    let n = s.unicode_len();
    let mut out = String::new();
    let mut i: usize = 0;
    proof {
        assert(s@.subrange(0, 0) =~= Seq::<char>::empty());
    }
    while i < n
        invariant
            n == s@.len(),
            0 <= i <= n,
            out@ == escape_json_seq(s@.subrange(0, i as int)),
        decreases n - i,
    {
        let ghost pre = s@.subrange(0, i as int);
        let ghost cur = s@.subrange(0, i + 1);
        proof {
            assert(cur.drop_last() =~= pre);
            assert(cur.last() == s@[i as int]);
        }
        let c = s.get_char(i);
        if c == '\\' {
            out.append("\\\\");
            proof {
                reveal_strlit("\\\\");
                assert("\\\\"@ =~= escaped_char(s@[i as int]));
            }
        } else if c == '"' {
            out.append("\\\"");
            proof {
                reveal_strlit("\\\"");
                assert("\\\""@ =~= escaped_char(s@[i as int]));
            }
        } else if c == '\n' {
            out.append("\\n");
            proof {
                reveal_strlit("\\n");
                assert("\\n"@ =~= escaped_char(s@[i as int]));
            }
        } else if c == '\r' {
            out.append("\\r");
            proof {
                reveal_strlit("\\r");
                assert("\\r"@ =~= escaped_char(s@[i as int]));
            }
        } else if c == '\t' {
            out.append("\\t");
            proof {
                reveal_strlit("\\t");
                assert("\\t"@ =~= escaped_char(s@[i as int]));
            }
        } else {
            let piece = s.substring_char(i, i + 1);
            out.append(piece);
            proof {
                assert(piece@ =~= escaped_char(s@[i as int]));
            }
        }
        i = i + 1;
    }
    proof {
        assert(s@.subrange(0, n as int) =~= s@);
    }
    out
}

/// Whether the log file has outgrown its configured bound (given in
/// mebibytes) and must rotate.
pub fn needs_rotation(current_size: u64, max_size_mb: u64) -> (r: bool)
    requires
        max_size_mb <= 0xFFFF_FFFF,
    ensures
        r == (current_size > max_size_mb * 0x100000),
{
    current_size > max_size_mb * 0x100000
}


/// What the file logger currently knows about its file: enough for a
/// caller to show, and for a reload to recompute.
pub struct LogFileState {
    pub path: String,
    pub size: Option<u64>,
    pub enabled: bool,
    pub max_size_mb: u64,
}

/// The log file's path and current size, when file logging is on.
pub fn get_log_file_info(state: &LogFileState) -> (r: Option<(String, Option<u64>)>)
    ensures
        r matches Some(info) ==> state.enabled && info.0@ == state.path@ && info.1 == state.size,
        r is None <==> !state.enabled,
{
    if state.enabled {
        Some((state.path.clone(), state.size))
    } else {
        None
    }
}

/// Recompute the file logger's settings from a configuration: the
/// configured path wins over the platform default, the size is unknown
/// until the file is reopened.
pub fn reload_logger_config(state: &mut LogFileState, config: &crate::config::AppConfig, default_path: &str)
    ensures
        final(state).enabled == config.enable_log_file,
        final(state).max_size_mb == config.log_file_max_size,
        final(state).size is None,
        final(state).path@ == match config.log_file_path {
            Some(p) => p@,
            None => default_path@,
        },
{
    state.enabled = config.enable_log_file;
    state.max_size_mb = config.log_file_max_size;
    state.size = None;
    state.path = match &config.log_file_path {
        Some(p) => p.clone(),
        None => default_path.to_owned(),
    };
}
} // verus!

//! Log lines of a plugin.
//!
//! A line carries the name of the plugin in square brackets before the
//! message. The library makes the lines; writing them is left to the caller.

use vstd::prelude::*;
use vstd::string::*;

verus! {

/// The severity of a log line.
#[derive(PartialEq, Eq, Clone, Copy, Debug, Structural)]
pub enum LogLevel {
    Trace,
    Debug,
    Info,
    Warn,
    Error,
    Critical,
}

impl LogLevel {
    /// The rank of the level, from 0 for `Trace` to 5 for `Critical`.
    pub open spec fn rank(self) -> int {
        match self {
            LogLevel::Trace => 0,
            LogLevel::Debug => 1,
            LogLevel::Info => 2,
            LogLevel::Warn => 3,
            LogLevel::Error => 4,
            LogLevel::Critical => 5,
        }
    }

    /// The rank of the level.
    pub fn number(self) -> (r: u8)
        ensures
            r == self.rank(),
    {
        match self {
            LogLevel::Trace => 0,
            LogLevel::Debug => 1,
            LogLevel::Info => 2,
            LogLevel::Warn => 3,
            LogLevel::Error => 4,
            LogLevel::Critical => 5,
        }
    }
}

/// A line to be logged.
pub struct LogLine {
    pub level: LogLevel,
    pub message: String,
}

/// The text of a line: the plugin's name in square brackets, a space and
/// the message.
pub open spec fn line_text(plugin_name: Seq<char>, msg: Seq<char>) -> Seq<char> {
    "["@ + plugin_name + "] "@ + msg
}

/// The maker of a plugin's log lines.
pub struct Log {
    plugin_name: String,
}

impl View for Log {
    type V = Seq<char>;

    /// The name of the plugin.
    closed spec fn view(&self) -> Seq<char> {
        self.plugin_name@
    }
}

impl Log {
    /// The maker of the lines of the plugin `plugin_name`.
    pub fn new(plugin_name: String) -> (r: Log)
        ensures
            r@ == plugin_name@,
    {
        Log { plugin_name }
    }

    /// The line for `msg` at `level`.
    fn log(&self, level: LogLevel, msg: &str) -> (r: LogLine)
        ensures
            r.level == level,
            r.message@ == line_text(self@, msg@),
    {
        let mut message = "[".to_owned();
        message.append(self.plugin_name.as_str());
        message.append("] ");
        message.append(msg);
        LogLine { level, message }
    }

    /// The line for `msg` at level `Trace`.
    pub fn trace(&self, msg: &str) -> (r: LogLine)
        ensures
            r.level == LogLevel::Trace,
            r.message@ == line_text(self@, msg@),
    {
        self.log(LogLevel::Trace, msg)
    }

    /// The line for `msg` at level `Debug`.
    pub fn debug(&self, msg: &str) -> (r: LogLine)
        ensures
            r.level == LogLevel::Debug,
            r.message@ == line_text(self@, msg@),
    {
        self.log(LogLevel::Debug, msg)
    }

    /// The line for `msg` at level `Info`.
    pub fn info(&self, msg: &str) -> (r: LogLine)
        ensures
            r.level == LogLevel::Info,
            r.message@ == line_text(self@, msg@),
    {
        self.log(LogLevel::Info, msg)
    }

    /// The line for `msg` at level `Warn`.
    pub fn warn(&self, msg: &str) -> (r: LogLine)
        ensures
            r.level == LogLevel::Warn,
            r.message@ == line_text(self@, msg@),
    {
        self.log(LogLevel::Warn, msg)
    }

    /// The line for `msg` at level `Error`.
    pub fn error(&self, msg: &str) -> (r: LogLine)
        ensures
            r.level == LogLevel::Error,
            r.message@ == line_text(self@, msg@),
    {
        self.log(LogLevel::Error, msg)
    }

    /// The line for `msg` at level `Critical`.
    pub fn critical(&self, msg: &str) -> (r: LogLine)
        ensures
            r.level == LogLevel::Critical,
            r.message@ == line_text(self@, msg@),
    {
        self.log(LogLevel::Critical, msg)
    }

    /// The line for `msg` at `level`, unless the host logs only from a
    /// higher level on: `log_level` is the level that the host reports, `None`
    /// where it could not be read, in which case nothing is logged.
    fn logf(&self, level: LogLevel, log_level: Option<LogLevel>, msg: &str) -> (r: Option<LogLine>)
        ensures
            r is Some == (log_level is Some && level.rank() >= log_level->0.rank()),
            r matches Some(line) ==> line.level == level && line.message@ == line_text(
                self@,
                msg@,
            ),
    {
        match log_level {
            Some(least) => {
                if level.number() < least.number() {
                    None
                } else {
                    Some(self.log(level, msg))
                }
            },
            None => None,
        }
    }

    /// The line for `msg` at level `Trace`, unless the host, which logs from
    /// `log_level` on, would drop it.
    pub fn tracef(&self, log_level: Option<LogLevel>, msg: &str) -> (r: Option<LogLine>)
        ensures
            r is Some == (log_level is Some && LogLevel::Trace.rank() >= log_level->0.rank()),
            r matches Some(line) ==> line.level == LogLevel::Trace && line.message@ == line_text(
                self@,
                msg@,
            ),
    {
        self.logf(LogLevel::Trace, log_level, msg)
    }

    /// The line for `msg` at level `Debug`, unless the host, which logs from
    /// `log_level` on, would drop it.
    pub fn debugf(&self, log_level: Option<LogLevel>, msg: &str) -> (r: Option<LogLine>)
        ensures
            r is Some == (log_level is Some && LogLevel::Debug.rank() >= log_level->0.rank()),
            r matches Some(line) ==> line.level == LogLevel::Debug && line.message@ == line_text(
                self@,
                msg@,
            ),
    {
        self.logf(LogLevel::Debug, log_level, msg)
    }

    /// The line for `msg` at level `Info`, unless the host, which logs from
    /// `log_level` on, would drop it.
    pub fn infof(&self, log_level: Option<LogLevel>, msg: &str) -> (r: Option<LogLine>)
        ensures
            r is Some == (log_level is Some && LogLevel::Info.rank() >= log_level->0.rank()),
            r matches Some(line) ==> line.level == LogLevel::Info && line.message@ == line_text(
                self@,
                msg@,
            ),
    {
        self.logf(LogLevel::Info, log_level, msg)
    }

    /// The line for `msg` at level `Warn`, unless the host, which logs from
    /// `log_level` on, would drop it.
    pub fn warnf(&self, log_level: Option<LogLevel>, msg: &str) -> (r: Option<LogLine>)
        ensures
            r is Some == (log_level is Some && LogLevel::Warn.rank() >= log_level->0.rank()),
            r matches Some(line) ==> line.level == LogLevel::Warn && line.message@ == line_text(
                self@,
                msg@,
            ),
    {
        self.logf(LogLevel::Warn, log_level, msg)
    }

    /// The line for `msg` at level `Error`, unless the host, which logs from
    /// `log_level` on, would drop it.
    pub fn errorf(&self, log_level: Option<LogLevel>, msg: &str) -> (r: Option<LogLine>)
        ensures
            r is Some == (log_level is Some && LogLevel::Error.rank() >= log_level->0.rank()),
            r matches Some(line) ==> line.level == LogLevel::Error && line.message@ == line_text(
                self@,
                msg@,
            ),
    {
        self.logf(LogLevel::Error, log_level, msg)
    }

    /// The line for `msg` at level `Critical`, unless the host, which logs from
    /// `log_level` on, would drop it.
    pub fn criticalf(&self, log_level: Option<LogLevel>, msg: &str) -> (r: Option<LogLine>)
        ensures
            r is Some == (log_level is Some && LogLevel::Critical.rank() >= log_level->0.rank()),
            r matches Some(line) ==> line.level == LogLevel::Critical && line.message@
                == line_text(self@, msg@),
    {
        self.logf(LogLevel::Critical, log_level, msg)
    }
}

} // verus!

use vstd::prelude::*;
use vstd::string::StringExecFns;

verus! {

/// The longest log line the display shows before cutting it off.
pub const MAX_LOG_SIZE_FOR_DISPLAY: usize = 100;

/// How serious a log record is.
#[derive(Debug, PartialEq, Eq, Structural, Clone, Copy)]
pub enum Level {
    Debug,
    Info,
    Error,
}

/// One structured log record: when it happened, which module wrote it, how
/// serious it is, and the text.
pub struct Log {
    pub timestamp: i64,
    pub module: String,
    pub level: Level,
    pub content: String,
}

impl Log {
    pub fn get_level(&self) -> (r: Level)
        ensures
            r == self.level,
    {
        self.level
    }

    /// Cuts an overlong record down for display, marking the cut.
    pub fn truncate(&mut self)
        ensures
            old(self).content@.len() <= MAX_LOG_SIZE_FOR_DISPLAY ==> *final(self) == *old(self),
            old(self).content@.len() > MAX_LOG_SIZE_FOR_DISPLAY ==> final(self).content@
                == old(self).content@.take(MAX_LOG_SIZE_FOR_DISPLAY as int) + " (...)"@,
            final(self).timestamp == old(self).timestamp,
            final(self).level == old(self).level,
            final(self).module == old(self).module,
    {
        let n = chars_len(&self.content);
        if n > MAX_LOG_SIZE_FOR_DISPLAY {
            let cut = take_chars(&self.content, MAX_LOG_SIZE_FOR_DISPLAY);
            self.content = cut.concat(" (...)");
        }
    }
}

/// Relies on str::chars and Iterator::count: the number of characters.
#[verifier::external_body]
pub fn chars_len(s: &String) -> (r: usize)
    ensures
        r == s@.len(),
{
    s.chars().count()
}

/// Relies on str::chars and Iterator::take: the first `n` characters.
#[verifier::external_body]
pub fn take_chars(s: &String, n: usize) -> (r: String)
    requires
        n <= s@.len(),
    ensures
        r@ == s@.take(n as int),
{
    s.chars().take(n).collect()
}

/// Relies on chrono::Utc::now: the clock, read as microseconds since the
/// Unix epoch. Nothing is promised of the value.
#[verifier::external_body]
pub fn now_timestamp_micros() -> (r: i64) {
    chrono::Utc::now().timestamp_micros()
}

/// A new record stamped with the clock. The module and the text must not
/// be empty.
pub fn create(module: String, level: Level, content: String) -> (r: Log)
    requires
        module@.len() > 0,
        content@.len() > 0,
    ensures
        r.module@ == module@,
        r.level == level,
        r.content@ == content@,
{
    Log { timestamp: now_timestamp_micros(), module, level, content }
}

/// The RFC 3339 rendering of a microsecond timestamp; a function of the
/// timestamp alone.
pub uninterp spec fn rfc3339_of_micros(t: i64) -> Seq<char>;

/// Relies on chrono::DateTime::from_timestamp_micros and
/// chrono::DateTime::to_rfc3339: the timestamp rendered as RFC 3339 text,
/// or nothing when the timestamp lies outside chrono's range.
#[verifier::external_body]
pub fn format_timestamp_rfc3339(t: i64) -> (r: Option<String>)
    ensures
        r matches Some(s) ==> s@ == rfc3339_of_micros(t),
{
    chrono::DateTime::from_timestamp_micros(t).map(|d| d.to_rfc3339())
}

impl Log {
    /// The record as one display line.
    pub fn to_display_string(&self) -> (r: Option<String>)
    {
        let ts = match format_timestamp_rfc3339(self.timestamp) {
            None => {
                return None;
            },
            Some(t) => t,
        };
        let level = match self.level {
            Level::Debug => "Debug",
            Level::Info => "Info",
            Level::Error => "Error",
        };
        let line = String::from_str("[").concat(ts.as_str()).concat("][").concat(
            self.module.as_str(),
        ).concat("][").concat(level).concat("] ").concat(self.content.as_str());
        Some(line)
    }
}

} // verus!

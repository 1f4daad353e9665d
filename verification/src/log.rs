//! The log file: where it is, when it starts over, and how a line looks.
use vstd::prelude::*;
use crate::text::{numeral, push_numeral, push_str};

verus! {

#[verifier::external_type_specification]
#[verifier::external_body]
pub struct ExPathBuf(std::path::PathBuf);

/// The log file, by its path.
pub struct Log {
    path: std::path::PathBuf,
}

impl Log {
    pub closed spec fn spec_path(&self) -> std::path::PathBuf {
        self.path
    }

    /// The log kept at `path`.
    pub fn new(path: std::path::PathBuf) -> (r: Log)
        ensures
            r.spec_path() == path,
    {
        Log { path }
    }

    /// Where the log is kept.
    pub fn path(&self) -> (r: &std::path::PathBuf)
        ensures
            *r == self.spec_path(),
    {
        &self.path
    }
}

/// Size above which the log file is removed before the next line is written.
pub const LOG_LIMIT: u64 = 262_144;

/// Whether a log file of `len` bytes is removed before the next line.
pub fn needs_rotation(len: u64) -> (r: bool)
    ensures
        r == (len > LOG_LIMIT),
{
    len > LOG_LIMIT
}

/// `YYYY-MM-DD hh:mm:ss.mmm`, each field zero-padded to its width (wider if
/// the number is larger).
pub open spec fn timestamp_chars(
    year: u16,
    month: u16,
    day: u16,
    hour: u16,
    minute: u16,
    second: u16,
    millis: u16,
) -> Seq<char> {
    numeral(year as nat, 4, 10) + seq!['-'] + numeral(month as nat, 2, 10) + seq!['-'] + numeral(
        day as nat,
        2,
        10,
    ) + seq![' '] + numeral(hour as nat, 2, 10) + seq![':'] + numeral(minute as nat, 2, 10) + seq![
        ':',
    ] + numeral(second as nat, 2, 10) + seq!['.'] + numeral(millis as nat, 3, 10)
}

/// The local time as the log writes it.
pub fn format_timestamp(
    year: u16,
    month: u16,
    day: u16,
    hour: u16,
    minute: u16,
    second: u16,
    millis: u16,
) -> (r: String)
    ensures
        r@ == timestamp_chars(year, month, day, hour, minute, second, millis),
{
    let mut s = String::new();
    push_numeral(&mut s, year as u64, 4, 10);
    crate::text::push_char(&mut s, '-');
    push_numeral(&mut s, month as u64, 2, 10);
    crate::text::push_char(&mut s, '-');
    push_numeral(&mut s, day as u64, 2, 10);
    crate::text::push_char(&mut s, ' ');
    push_numeral(&mut s, hour as u64, 2, 10);
    crate::text::push_char(&mut s, ':');
    push_numeral(&mut s, minute as u64, 2, 10);
    crate::text::push_char(&mut s, ':');
    push_numeral(&mut s, second as u64, 2, 10);
    crate::text::push_char(&mut s, '.');
    push_numeral(&mut s, millis as u64, 3, 10);
    assert(s@ =~= timestamp_chars(year, month, day, hour, minute, second, millis));
    s
}

/// A log line: the time, two spaces, the message.
pub fn log_line(timestamp: &str, msg: &str) -> (r: String)
    ensures
        r@ == timestamp@ + "  "@ + msg@,
{
    let mut s = String::new();
    push_str(&mut s, timestamp);
    push_str(&mut s, "  ");
    push_str(&mut s, msg);
    assert(s@ =~= timestamp@ + "  "@ + msg@);
    s
}

} // verus!

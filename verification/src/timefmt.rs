//! Rendering of epoch-second timestamps for the output log: the time of day
//! `HH:MM:SS` written on every flushed line, and the calendar date that
//! names the day's log file.
use vstd::prelude::*;
use vstd::string::{StrSliceExecFns, StringExecFns};

verus! {

/// Upper bound on the timestamps the date formatter accepts: the first
/// second of the year 10000. Every second below it is within chrono's
/// supported range, and its formatted year has exactly four digits.
pub const MAX_FORMAT_SECS: u64 = 253402300800;

/// What chrono renders for `%Y-%m-%d` (UTC) of the given epoch second:
/// a function of the timestamp alone.
pub uninterp spec fn date_label_of(secs: u64) -> Seq<char>;

/// Relies on chrono's `DateTime::from_timestamp` and `format` with
/// `%Y-%m-%d`: the UTC calendar date of the given epoch second as
/// `YYYY-MM-DD`, a deterministic function of the timestamp.
/// `from_timestamp` returns `Some` for every second below
/// `MAX_FORMAT_SECS`, so the unwrap cannot panic.
#[verifier::external_body]
fn format_date(secs: u64) -> (r: String)
    requires
        secs < MAX_FORMAT_SECS,
    ensures
        r@ == date_label_of(secs),
{
    chrono::DateTime::from_timestamp(secs as i64, 0).unwrap().format("%Y-%m-%d").to_string()
}

/// The character of a single decimal digit.
pub open spec fn digit_char(d: int) -> char {
    ((48 + d) as u8) as char
}

/// A number below 100 as two decimal digits.
pub open spec fn two_digits(n: int) -> Seq<char> {
    seq![digit_char(n / 10), digit_char(n % 10)]
}

/// The time of day `HH:MM:SS` (UTC) of the given epoch second.
pub open spec fn hms_label_of(secs: u64) -> Seq<char> {
    two_digits(secs as int / 3600 % 24) + seq![':'] + two_digits(secs as int / 60 % 60) + seq![':']
        + two_digits(secs as int % 60)
}

fn digit_str(d: u8) -> (r: &'static str)
    requires
        d < 10,
    ensures
        r@ =~= seq![digit_char(d as int)],
{
    proof {
        reveal_strlit("0");
        reveal_strlit("1");
        reveal_strlit("2");
        reveal_strlit("3");
        reveal_strlit("4");
        reveal_strlit("5");
        reveal_strlit("6");
        reveal_strlit("7");
        reveal_strlit("8");
        reveal_strlit("9");
    }
    match d {
        0 => "0",
        1 => "1",
        2 => "2",
        3 => "3",
        4 => "4",
        5 => "5",
        6 => "6",
        7 => "7",
        8 => "8",
        _ => "9",
    }
}

fn two_digit_string(n: u64) -> (r: String)
    requires
        n < 100,
    ensures
        r@ == two_digits(n as int),
{
    let tens = digit_str((n / 10) as u8);
    let ones = digit_str((n % 10) as u8);
    let mut s = tens.to_owned();
    s.append(ones);
    proof {
        assert(s@ =~= two_digits(n as int));
    }
    s
}

/// Renders the time of day of the given epoch second as `HH:MM:SS`.
pub fn format_hms(secs: u64) -> (r: String)
    ensures
        r@ == hms_label_of(secs),
{
    let h: u64 = secs / 3600 % 24;
    let m: u64 = secs / 60 % 60;
    let s: u64 = secs % 60;
    let mut out = two_digit_string(h);
    let colon = ":";
    proof {
        reveal_strlit(":");
    }
    out.append(colon);
    let mm = two_digit_string(m);
    out.append(mm.as_str());
    out.append(colon);
    let ss = two_digit_string(s);
    out.append(ss.as_str());
    proof {
        assert(out@ =~= hms_label_of(secs));
    }
    out
}

/// The name of the day's log file for the given epoch second.
pub open spec fn log_file_name_of(secs: u64) -> Seq<char> {
    "output-"@ + date_label_of(secs) + ".log"@
}

/// Builds the day's log file name, `output-<YYYY-MM-DD>.log`.
pub fn log_file_name(secs: u64) -> (r: String)
    requires
        secs < MAX_FORMAT_SECS,
    ensures
        r@ == log_file_name_of(secs),
{
    let mut s = "output-".to_owned();
    let date = format_date(secs);
    s.append(date.as_str());
    s.append(".log");
    proof {
        assert(s@ =~= log_file_name_of(secs));
    }
    s
}

/// One persisted log line: the record's own time of day, a separator, and
/// the record's text, newline-terminated.
pub open spec fn log_line_of(timestamp: u64, text: Seq<char>) -> Seq<char> {
    hms_label_of(timestamp) + " :::: "@ + text + "\n"@
}

/// Renders one output record as its persisted log line, using the record's
/// own timestamp.
pub fn format_log_line(timestamp: u64, text: &str) -> (r: String)
    ensures
        r@ == log_line_of(timestamp, text@),
{
    let mut s = format_hms(timestamp);
    s.append(" :::: ");
    s.append(text);
    s.append("\n");
    proof {
        assert(s@ =~= log_line_of(timestamp, text@));
    }
    s
}

} // verus!

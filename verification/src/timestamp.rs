//! Wall-clock timestamps as plain calendar fields, and their canonical
//! `YYYY-MM-DD HH:MM:SS` text.

use vstd::prelude::*;
use vstd::string::StringExecFns;
use chrono::Datelike;
use chrono::Timelike;
use crate::price::digit_char;
use crate::price::digit_str;
use crate::price::is_digit;

verus! {

/// A local wall-clock reading, broken into calendar fields.
#[derive(Debug, Clone, Copy, PartialEq, Eq, Structural)]
pub struct Timestamp {
    pub year: u16,
    pub month: u8,
    pub day: u8,
    pub hour: u8,
    pub minute: u8,
    pub second: u8,
}

/// Two digit characters, zero padded.
pub open spec fn pad2(n: int) -> Seq<char> {
    seq![digit_char(n / 10), digit_char(n % 10)]
}

/// Four digit characters, zero padded.
pub open spec fn pad4(n: int) -> Seq<char> {
    seq![digit_char(n / 1000), digit_char((n / 100) % 10), digit_char((n / 10) % 10), digit_char(n % 10)]
}

/// The canonical text of a timestamp: `YYYY-MM-DD HH:MM:SS`.
pub open spec fn timestamp_text_of(t: Timestamp) -> Seq<char> {
    pad4(t.year as int) + seq!['-'] + pad2(t.month as int) + seq!['-'] + pad2(t.day as int)
        + seq![' '] + pad2(t.hour as int) + seq![':'] + pad2(t.minute as int) + seq![':'] + pad2(
        t.second as int,
    )
}

/// Whether `s` has the shape `YYYY-MM-DD HH:MM:SS`: nineteen characters,
/// digits in the date and time positions, with the fixed separators.
pub open spec fn is_timestamp_text(s: Seq<char>) -> bool {
    &&& s.len() == 19
    &&& is_digit(s[0]) && is_digit(s[1]) && is_digit(s[2]) && is_digit(s[3])
    &&& s[4] == '-'
    &&& is_digit(s[5]) && is_digit(s[6])
    &&& s[7] == '-'
    &&& is_digit(s[8]) && is_digit(s[9])
    &&& s[10] == ' '
    &&& is_digit(s[11]) && is_digit(s[12])
    &&& s[13] == ':'
    &&& is_digit(s[14]) && is_digit(s[15])
    &&& s[16] == ':'
    &&& is_digit(s[17]) && is_digit(s[18])
}

impl Timestamp {
    /// Whether every field lies in its calendar range (and the year has at
    /// most four digits).
    pub open spec fn wf(self) -> bool {
        &&& self.year <= 9999
        &&& 1 <= self.month <= 12
        &&& 1 <= self.day <= 31
        &&& self.hour <= 23
        &&& self.minute <= 59
        &&& self.second <= 59
    }

    /// Build a timestamp from raw clock fields, rejecting any that lie
    /// outside the calendar ranges.
    pub fn from_clock(year: i32, month: u32, day: u32, hour: u32, minute: u32, second: u32) -> (r:
        Option<Timestamp>)
        ensures
            r is Some <==> (0 <= year <= 9999 && 1 <= month <= 12 && 1 <= day <= 31 && hour <= 23
                && minute <= 59 && second <= 59),
            r matches Some(t) ==> t.wf() && t.year == year && t.month == month && t.day == day
                && t.hour == hour && t.minute == minute && t.second == second,
    {
        if 0 <= year && year <= 9999 && 1 <= month && month <= 12 && 1 <= day && day <= 31
            && hour <= 23 && minute <= 59 && second <= 59 {
            Some(
                Timestamp {
                    year: year as u16,
                    month: month as u8,
                    day: day as u8,
                    hour: hour as u8,
                    minute: minute as u8,
                    second: second as u8,
                },
            )
        } else {
            None
        }
    }

    /// Read the local wall clock. `None` only if the clock reports a year
    /// outside four digits.
    pub fn now() -> (r: Option<Timestamp>)
        ensures
            r matches Some(t) ==> t.wf(),
    {
        let (year, month, day, hour, minute, second) = local_now_fields();
        Timestamp::from_clock(year, month, day, hour, minute, second)
    }

    /// Format this timestamp as `YYYY-MM-DD HH:MM:SS`.
    #[verifier::rlimit(50)]
    pub fn format(&self) -> (r: String)
        requires
            self.wf(),
        ensures
            r@ == timestamp_text_of(*self),
    {
        let mut out: String = String::new();
        proof {
            reveal_strlit("-");
            reveal_strlit(" ");
            reveal_strlit(":");
        }
        let y: u16 = self.year;
        out.append(digit_str((y / 1000) as u8));
        out.append(digit_str(((y / 100) % 10) as u8));
        out.append(digit_str(((y / 10) % 10) as u8));
        out.append(digit_str((y % 10) as u8));
        out.append("-");
        out.append(digit_str(self.month / 10));
        out.append(digit_str(self.month % 10));
        out.append("-");
        out.append(digit_str(self.day / 10));
        out.append(digit_str(self.day % 10));
        out.append(" ");
        out.append(digit_str(self.hour / 10));
        out.append(digit_str(self.hour % 10));
        out.append(":");
        out.append(digit_str(self.minute / 10));
        out.append(digit_str(self.minute % 10));
        out.append(":");
        out.append(digit_str(self.second / 10));
        out.append(digit_str(self.second % 10));
        proof {
            assert(out@ =~= timestamp_text_of(*self));
        }
        out
    }
}

/// Law: the canonical text of a well-formed timestamp has the
/// `YYYY-MM-DD HH:MM:SS` shape.
pub proof fn lemma_timestamp_text_shape(t: Timestamp)
    requires
        t.wf(),
    ensures
        is_timestamp_text(timestamp_text_of(t)),
{
    crate::price::lemma_digit_char_val(t.year as int / 1000);
    crate::price::lemma_digit_char_val((t.year as int / 100) % 10);
    crate::price::lemma_digit_char_val((t.year as int / 10) % 10);
    crate::price::lemma_digit_char_val(t.year as int % 10);
    crate::price::lemma_digit_char_val(t.month as int / 10);
    crate::price::lemma_digit_char_val(t.month as int % 10);
    crate::price::lemma_digit_char_val(t.day as int / 10);
    crate::price::lemma_digit_char_val(t.day as int % 10);
    crate::price::lemma_digit_char_val(t.hour as int / 10);
    crate::price::lemma_digit_char_val(t.hour as int % 10);
    crate::price::lemma_digit_char_val(t.minute as int / 10);
    crate::price::lemma_digit_char_val(t.minute as int % 10);
    crate::price::lemma_digit_char_val(t.second as int / 10);
    crate::price::lemma_digit_char_val(t.second as int % 10);
}

/// Relies on `chrono::Local::now` and chrono's `Datelike` / `Timelike`
/// accessors, whose documentation bounds them: month runs from 1 to 12,
/// day of month from 1 to 31, hour to 23, minute and second to 59. The
/// year depends on the clock and is not bounded here.
#[verifier::external_body]
fn local_now_fields() -> (r: (i32, u32, u32, u32, u32, u32))
    ensures
        1 <= r.1 <= 12,
        1 <= r.2 <= 31,
        r.3 <= 23,
        r.4 <= 59,
        r.5 <= 59,
{
    let t = chrono::Local::now();
    (t.year(), t.month(), t.day(), t.hour(), t.minute(), t.second())
}

} // verus!

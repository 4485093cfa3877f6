//! The timestamps btrbk puts in snapshot names.

use crate::text::{
    all_digits, before, before_first, decimal, decimal_value, digit, digit_value, is_white_space,
    lemma_run_len, lemma_run_len_is, other_than, repeat, run_len, split_once, to_chars, to_text,
};
use chrono::{Datelike, NaiveDate, NaiveDateTime, Timelike};
use vstd::prelude::*;
use vstd::slice::slice_subrange;
use vstd::utf8::{encode_utf8, is_ascii_chars_encode_utf8};

verus! {

/// A calendar day.
#[derive(Debug, Clone, Copy, PartialEq, Eq, Structural)]
pub struct Date {
    pub year: i32,
    pub month: u32,
    pub day: u32,
}

/// A point of local time. A leap second is second 59 with a `nanosecond` of
/// 1_000_000_000 or more.
#[derive(Debug, Clone, Copy, PartialEq, Eq, Structural)]
pub struct Timestamp {
    pub year: i32,
    pub month: u32,
    pub day: u32,
    pub hour: u32,
    pub minute: u32,
    pub second: u32,
    pub nanosecond: u32,
}

/// Whether February of the year has 29 days.
pub open spec fn is_leap_year(year: int) -> bool {
    year % 4 == 0 && (year % 100 != 0 || year % 400 == 0)
}

/// Number of days of a month.
pub open spec fn days_in_month(year: int, month: int) -> int {
    if month == 2 {
        if is_leap_year(year) {
            29
        } else {
            28
        }
    } else if month == 4 || month == 6 || month == 9 || month == 11 {
        30
    } else {
        31
    }
}

/// Whether the day exists, within the years a calendar day can have.
pub open spec fn is_calendar_day(year: int, month: int, day: int) -> bool {
    -262143 <= year <= 262142 && 1 <= month <= 12 && 1 <= day <= days_in_month(year, month)
}

impl Date {
    /// Whether the day exists.
    pub open spec fn well_formed(self) -> bool {
        is_calendar_day(self.year as int, self.month as int, self.day as int)
    }

    /// The start of the day.
    pub open spec fn at_midnight(self) -> Timestamp {
        Timestamp {
            year: self.year,
            month: self.month,
            day: self.day,
            hour: 0,
            minute: 0,
            second: 0,
            nanosecond: 0,
        }
    }
}

impl Timestamp {
    /// Whether the day and the time of day exist.
    pub open spec fn well_formed(self) -> bool {
        &&& is_calendar_day(self.year as int, self.month as int, self.day as int)
        &&& self.hour < 24
        &&& self.minute < 60
        &&& self.second < 60
        &&& self.nanosecond < 2_000_000_000
        &&& self.nanosecond >= 1_000_000_000 ==> self.second == 59
    }
}

impl Timestamp {
    /// Whether the day and the time of day exist.
    pub fn is_well_formed(&self) -> (yes: bool)
        ensures
            yes == self.well_formed(),
    {
        let leap = self.year % 4 == 0 && (self.year % 100 != 0 || self.year % 400 == 0);
        let days: u32 = match self.month {
            2 => if leap {
                29
            } else {
                28
            },
            4 | 6 | 9 | 11 => 30,
            _ => 31,
        };
        -262143 <= self.year && self.year <= 262142 && 1 <= self.month && self.month <= 12 && 1
            <= self.day && self.day <= days && self.hour < 24 && self.minute < 60 && self.second
            < 60 && self.nanosecond < 2_000_000_000 && (self.nanosecond < 1_000_000_000
            || self.second == 59)
    }

    /// The second that the point of time lies in.
    pub open spec fn whole_second(self) -> Timestamp {
        Timestamp {
            nanosecond: if self.nanosecond >= 1_000_000_000 {
                1_000_000_000
            } else {
                0
            },
            ..self
        }
    }
}

/// The order of points of time: by day, then by time of day.
pub open spec fn time_less(a: Timestamp, b: Timestamp) -> bool {
    if a.year != b.year {
        a.year < b.year
    } else if a.month != b.month {
        a.month < b.month
    } else if a.day != b.day {
        a.day < b.day
    } else if a.hour != b.hour {
        a.hour < b.hour
    } else if a.minute != b.minute {
        a.minute < b.minute
    } else if a.second != b.second {
        a.second < b.second
    } else {
        a.nanosecond < b.nanosecond
    }
}

/// Whether a point of time is before another.
pub fn time_before(a: &Timestamp, b: &Timestamp) -> (yes: bool)
    ensures
        yes == time_less(*a, *b),
{
    if a.year != b.year {
        a.year < b.year
    } else if a.month != b.month {
        a.month < b.month
    } else if a.day != b.day {
        a.day < b.day
    } else if a.hour != b.hour {
        a.hour < b.hour
    } else if a.minute != b.minute {
        a.minute < b.minute
    } else if a.second != b.second {
        a.second < b.second
    } else {
        a.nanosecond < b.nanosecond
    }
}

// ---------------------------------------------------------------------------
// Reading and writing dates

/// "YYYYMMDD_HHMMSS", the legacy form.
pub open spec fn legacy_format() -> Seq<char> {
    "%Y%m%d_%H%M%S"@
}

/// "YYYYMMDD", btrbk's `short` form.
pub open spec fn short_format() -> Seq<char> {
    "%Y%m%d"@
}

/// "YYYYMMDDThhmm", btrbk's `long` form.
pub open spec fn long_format() -> Seq<char> {
    "%Y%m%dT%H%M"@
}

/// "YYYYMMDDThhmmss", what precedes the UTC offset in btrbk's `long-iso` form.
pub open spec fn long_iso_format() -> Seq<char> {
    "%Y%m%dT%H%M%S"@
}

/// The day that eight digits stand for, if it exists.
pub open spec fn day_in(digits: Seq<char>) -> Option<Date> {
    let d = Date {
        year: decimal_value(digits.take(4)) as i32,
        month: decimal_value(digits.subrange(4, 6)) as u32,
        day: decimal_value(digits.skip(6)) as u32,
    };
    if d.well_formed() {
        Some(d)
    } else {
        None
    }
}

/// The point of time that eight digits of day and four or six of time of day
/// stand for, if it exists. Second 60 is a leap second.
pub open spec fn time_in(day: Seq<char>, time: Seq<char>) -> Option<Timestamp> {
    let hour = decimal_value(time.take(2));
    let minute = decimal_value(time.subrange(2, 4));
    let second = if time.len() == 6 {
        decimal_value(time.skip(4))
    } else {
        0
    };
    match day_in(day) {
        Some(d) => if hour < 24 && minute < 60 && second <= 60 {
            Some(
                Timestamp {
                    year: d.year,
                    month: d.month,
                    day: d.day,
                    hour: hour as u32,
                    minute: minute as u32,
                    second: if second == 60 {
                        59
                    } else {
                        second as u32
                    },
                    nanosecond: if second == 60 {
                        1_000_000_000
                    } else {
                        0
                    },
                },
            )
        } else {
            None
        },
        None => None,
    }
}

/// Whether a text starts with eight digits.
pub open spec fn starts_with_day(text: Seq<char>) -> bool {
    text.len() >= 8 && all_digits(text.take(8))
}

/// Whether a text is eight digits, `mark`, and `n` digits.
pub open spec fn is_stamp(text: Seq<char>, mark: char, n: int) -> bool {
    starts_with_day(text) && text.len() == 9 + n && text[8] == mark && all_digits(text.skip(9))
}

/// Whether a text cannot begin a date: it is empty, or starts with something
/// that is neither a digit nor a sign nor white space.
pub open spec fn begins_no_date(text: Seq<char>) -> bool {
    text.len() == 0 || !('0' <= text[0] <= '9' || text[0] == '+' || text[0] == '-'
        || is_white_space(text[0]))
}

/// Whether a text may be in the legacy form: it needs an underscore, and a
/// digit each of hour, minute and second behind the first one.
pub open spec fn may_be_legacy(text: Seq<char>) -> bool {
    split_once(text, '_') matches Some((_, time)) && time.len() >= 3
}

/// The date and time that `NaiveDateTime::parse_from_str` reads from `text`
/// under `format`, if it reads one.
pub uninterp spec fn parsed_datetime(text: Seq<char>, format: Seq<char>) -> Option<Timestamp>;

/// The day that `NaiveDate::parse_from_str` reads from `text` under `format`,
/// if it reads one.
pub uninterp spec fn parsed_date(text: Seq<char>, format: Seq<char>) -> Option<Date>;

/// chrono's `NaiveDateTime::parse_from_str`: its result depends on the text
/// and the format alone, and a date and time that it accepts exist. A text
/// with exactly the digits that the format asks for is read digit by digit,
/// and refused when no such time exists. A text that is empty or starts with
/// something else than a digit, a sign or white space is refused. So is, in the
/// legacy form, one without an underscore or with fewer than three characters
/// behind the first, and eight digits that are not followed by an underscore,
/// or by one and too few digits. Which other texts it accepts is not said.
#[verifier::external_body]
fn parse_datetime(text: &str, format: &str) -> (r: Option<Timestamp>)
    requires
        format@ == legacy_format() || format@ == long_format() || format@ == long_iso_format(),
    ensures
        r == parsed_datetime(text@, format@),
        r matches Some(t) ==> t.well_formed(),
        begins_no_date(text@) ==> r is None,
        format@ == legacy_format() && !may_be_legacy(text@) ==> r is None,
        format@ == legacy_format() && is_stamp(text@, '_', 6) ==> r == time_in(
            text@.take(8),
            text@.skip(9),
        ),
        format@ == legacy_format() && starts_with_day(text@) && (text@.len() == 8 || text@[8] != '_')
            ==> r is None,
        format@ == legacy_format() && text@.len() <= 13 && is_stamp(text@, '_', text@.len() - 9)
            ==> r is None,
        format@ == long_format() && is_stamp(text@, 'T', 4) ==> r == time_in(
            text@.take(8),
            text@.skip(9),
        ),
        format@ == long_iso_format() && is_stamp(text@, 'T', 6) ==> r == time_in(
            text@.take(8),
            text@.skip(9),
        ),
{
    NaiveDateTime::parse_from_str(text, format).ok().map(|t| Timestamp {
        year: t.year(),
        month: t.month(),
        day: t.day(),
        hour: t.hour(),
        minute: t.minute(),
        second: t.second(),
        nanosecond: t.nanosecond(),
    })
}

/// chrono's `NaiveDate::parse_from_str`: its result depends on the text and
/// the format alone, and a day that it accepts exists. Eight digits are read
/// as year, month and day, and refused when there is no such day. A text that is
/// empty or starts with something else than a digit, a sign or white space is
/// refused. Which other texts it accepts is not said.
#[verifier::external_body]
fn parse_date(text: &str, format: &str) -> (r: Option<Date>)
    requires
        format@ == short_format(),
    ensures
        r == parsed_date(text@, format@),
        r matches Some(d) ==> d.well_formed(),
        begins_no_date(text@) ==> r is None,
        text@.len() == 8 && all_digits(text@) ==> r == day_in(text@),
{
    NaiveDate::parse_from_str(text, format).ok().map(|d| Date {
        year: d.year(),
        month: d.month(),
        day: d.day(),
    })
}

/// `n` in decimal, with leading zeros up to `width` digits.
pub open spec fn zero_padded(n: nat, width: nat) -> Seq<char> {
    let digits = decimal(n);
    if digits.len() >= width {
        digits
    } else {
        repeat('0', (width - digits.len()) as nat) + digits
    }
}

/// A year as four digits; one that is negative or has more has a sign.
pub open spec fn year_text(year: int) -> Seq<char> {
    if year < 0 {
        seq!['-'] + zero_padded((-year) as nat, 4)
    } else if year > 9999 {
        seq!['+'] + zero_padded(year as nat, 4)
    } else {
        zero_padded(year as nat, 4)
    }
}

/// "YYYY-MM-DD hh:mm:ss"; a leap second shows as 60.
pub open spec fn display_format() -> Seq<char> {
    "%Y-%m-%d %H:%M:%S"@
}

/// The second of a point of time as two digits; a leap second is 60.
pub open spec fn second_text(t: Timestamp) -> Seq<char> {
    zero_padded(t.second as nat + t.nanosecond as nat / 1_000_000_000, 2)
}

/// A timestamp written as "YYYY-MM-DD hh:mm:ss".
pub open spec fn display_text(t: Timestamp) -> Seq<char> {
    year_text(t.year as int) + seq!['-'] + zero_padded(t.month as nat, 2) + seq!['-']
        + zero_padded(t.day as nat, 2) + seq![' '] + zero_padded(t.hour as nat, 2) + seq![':']
        + zero_padded(t.minute as nat, 2) + seq![':'] + second_text(t)
}

/// A timestamp written as "YYYYMMDD_HHMMSS".
pub open spec fn stamp_text(t: Timestamp) -> Seq<char> {
    year_text(t.year as int) + zero_padded(t.month as nat, 2) + zero_padded(t.day as nat, 2)
        + seq!['_'] + zero_padded(t.hour as nat, 2) + zero_padded(t.minute as nat, 2)
        + second_text(t)
}

/// chrono's `NaiveDateTime::format`, for two formats: four digits of year (more,
/// with a sign, outside 0 to 9999), two each of month, day, hour, minute and
/// second, where a leap second counts as 60, and between them what the format
/// has between its fields.
#[verifier::external_body]
fn format_datetime(t: &Timestamp, format: &str) -> (text: String)
    requires
        t.well_formed(),
        format@ == display_format() || format@ == legacy_format(),
    ensures
        format@ == display_format() ==> text@ == display_text(*t),
        format@ == legacy_format() ==> text@ == stamp_text(*t),
{
    let day = NaiveDate::from_ymd_opt(t.year, t.month, t.day).unwrap();
    let time = day.and_hms_nano_opt(t.hour, t.minute, t.second, t.nanosecond).unwrap();
    time.format(format).to_string()
}

/// Writes a timestamp as "YYYY-MM-DD hh:mm:ss".
pub fn show_timestamp(t: &Timestamp) -> (text: String)
    requires
        t.well_formed(),
    ensures
        text@ == display_text(*t),
{
    format_datetime(t, "%Y-%m-%d %H:%M:%S")
}

/// Writes a timestamp as "YYYYMMDD_HHMMSS", as it stands in the name under
/// which a replaced subvolume is kept.
pub fn stamp(t: &Timestamp) -> (text: String)
    requires
        t.well_formed(),
    ensures
        text@ == stamp_text(*t),
{
    format_datetime(t, "%Y%m%d_%H%M%S")
}

// ---------------------------------------------------------------------------
// The forms of a btrbk timestamp

/// The predicate "does not start a UTC offset".
pub open spec fn not_sign() -> spec_fn(char) -> bool {
    |c: char| c != '+' && c != '-'
}

/// What is left of a timestamp without the "_N" suffix that btrbk adds when a
/// name is taken, and without the UTC offset of the `long-iso` form: the name
/// already is local time.
pub open spec fn base_of(timestamp: Seq<char>) -> Seq<char> {
    let base = before(timestamp, '_');
    base.take(run_len(base, not_sign()) as int)
}

/// The forms that btrbk's `timestamp_format` gives a timestamp.
#[derive(Debug, Clone, Copy, PartialEq, Eq, Structural)]
pub enum TimestampForm {
    Short,
    Long,
    LongIso,
}

/// The form of a timestamp base, which its length in bytes tells.
pub open spec fn form_of_base(base: Seq<char>) -> Option<TimestampForm> {
    let len = encode_utf8(base).len();
    if len == 8 {
        Some(TimestampForm::Short)
    } else if len == 13 {
        Some(TimestampForm::Long)
    } else if len == 15 {
        Some(TimestampForm::LongIso)
    } else {
        None
    }
}

/// The timestamp, given how each form was read: a legacy one wins, since in it
/// the underscore is no suffix; a `short` one is the start of its day.
pub open spec fn resolve(
    legacy: Option<Timestamp>,
    form: Option<TimestampForm>,
    short: Option<Date>,
    long: Option<Timestamp>,
    long_iso: Option<Timestamp>,
) -> Option<Timestamp> {
    match legacy {
        Some(t) => Some(t),
        None => match form {
            Some(TimestampForm::Short) => match short {
                Some(d) => Some(d.at_midnight()),
                None => None,
            },
            Some(TimestampForm::Long) => long,
            Some(TimestampForm::LongIso) => long_iso,
            None => None,
        },
    }
}

/// The timestamp that a text is, if it is one.
pub open spec fn btrbk_timestamp(timestamp: Seq<char>) -> Option<Timestamp> {
    let base = base_of(timestamp);
    resolve(
        parsed_datetime(timestamp, legacy_format()),
        form_of_base(base),
        parsed_date(base, short_format()),
        parsed_datetime(base, long_format()),
        parsed_datetime(base, long_iso_format()),
    )
}

/// Drops the "_N" suffix and the UTC offset of a timestamp.
pub fn timestamp_base(timestamp: &str) -> (base: String)
    ensures
        base@ == base_of(timestamp@),
{
    let chars = to_chars(timestamp);
    let head = before_first(chars.as_slice(), '_');
    let mut n: usize = 0;
    while n < head.len() && head[n] != '+' && head[n] != '-'
        invariant
            n <= head@.len(),
            forall|i: int| 0 <= i < n ==> head@[i] != '+' && head@[i] != '-',
        decreases head@.len() - n,
    {
        n = n + 1;
    }
    proof {
        lemma_run_len_is(head@, not_sign(), n as int);
        assert(head@.subrange(0, n as int) =~= head@.take(n as int));
    }
    to_text(slice_subrange(head, 0, n))
}

/// Tells the form of a timestamp base by its length.
pub fn timestamp_form(base: &str) -> (form: Option<TimestampForm>)
    ensures
        form == form_of_base(base@),
{
    let len: usize = base.as_bytes().len();
    if len == 8 {
        Some(TimestampForm::Short)
    } else if len == 13 {
        Some(TimestampForm::Long)
    } else if len == 15 {
        Some(TimestampForm::LongIso)
    } else {
        None
    }
}

/// The start of a day.
pub fn midnight(d: Date) -> (t: Timestamp)
    ensures
        t == d.at_midnight(),
{
    Timestamp {
        year: d.year,
        month: d.month,
        day: d.day,
        hour: 0,
        minute: 0,
        second: 0,
        nanosecond: 0,
    }
}

/// Chooses among the readings of a timestamp.
pub fn resolve_timestamp(
    legacy: Option<Timestamp>,
    form: Option<TimestampForm>,
    short: Option<Date>,
    long: Option<Timestamp>,
    long_iso: Option<Timestamp>,
) -> (t: Option<Timestamp>)
    ensures
        t == resolve(legacy, form, short, long, long_iso),
{
    match legacy {
        Some(t) => Some(t),
        None => match form {
            Some(TimestampForm::Short) => match short {
                Some(d) => Some(midnight(d)),
                None => None,
            },
            Some(TimestampForm::Long) => long,
            Some(TimestampForm::LongIso) => long_iso,
            None => None,
        },
    }
}

/// Whether a timestamp has one of the forms that btrbk writes: the legacy form,
/// or a day, or a day and a time with four or six digits; but for the first,
/// with an optional UTC offset, and an optional "_N" suffix of at most four
/// digits.
pub open spec fn is_regular(timestamp: Seq<char>) -> bool {
    let base = base_of(timestamp);
    ||| is_stamp(timestamp, '_', 6)
    ||| is_stamp(base, 'T', 4)
    ||| is_stamp(base, 'T', 6)
    ||| base.len() == 8 && all_digits(base) && (timestamp.len() == 8 || timestamp[8] != '_' || (
    timestamp.len() <= 13 && all_digits(timestamp.skip(9))))
}

/// The time that a regular timestamp stands for, if there is such a time. What
/// is no time in the legacy form is a day with a suffix.
pub open spec fn regular_time(timestamp: Seq<char>) -> Option<Timestamp> {
    let base = base_of(timestamp);
    if is_stamp(timestamp, '_', 6) && time_in(timestamp.take(8), timestamp.skip(9)) is Some {
        time_in(timestamp.take(8), timestamp.skip(9))
    } else if base.len() == 8 {
        match day_in(base) {
            Some(d) => Some(d.at_midnight()),
            None => None,
        }
    } else {
        time_in(base.take(8), base.skip(9))
    }
}

/// The base of a timestamp in the legacy form is its day.
proof fn lemma_legacy_base(timestamp: Seq<char>)
    requires
        is_stamp(timestamp, '_', 6),
    ensures
        base_of(timestamp) == timestamp.take(8),
{
    assert forall|i: int| 0 <= i < 8 implies timestamp[i] == #[trigger] timestamp.take(8)[i] by {}
    assert forall|i: int| 0 <= i < 8 implies #[trigger] other_than('_')(timestamp[i]) by {
        assert(timestamp[i] == timestamp.take(8)[i]);
    }
    lemma_run_len_is(timestamp, other_than('_'), 8);
    let head = before(timestamp, '_');
    assert(head =~= timestamp.take(8));
    lemma_run_len_is(head, not_sign(), 8);
    assert(head.take(8) =~= head);
}

/// The base of a timestamp is what it begins with.
proof fn lemma_base_is_prefix(timestamp: Seq<char>)
    ensures
        base_of(timestamp).len() <= timestamp.len(),
        base_of(timestamp) == timestamp.take(base_of(timestamp).len() as int),
{
    lemma_run_len(timestamp, other_than('_'));
    let head = before(timestamp, '_');
    lemma_run_len(head, not_sign());
    assert(base_of(timestamp) =~= timestamp.take(base_of(timestamp).len() as int));
}

/// The form of a regular base.
proof fn lemma_regular_form(base: Seq<char>)
    requires
        base.len() == 8 && all_digits(base) || is_stamp(base, 'T', 4) || is_stamp(base, 'T', 6),
    ensures
        form_of_base(base) == if base.len() == 8 {
            Some(TimestampForm::Short)
        } else if base.len() == 13 {
            Some(TimestampForm::Long)
        } else {
            Some(TimestampForm::LongIso)
        },
{
    assert forall|i: int| 0 <= i < base.len() implies '\0' <= #[trigger] base[i]
        <= '\u{7f}' by {
        if base.len() > 8 {
            if i < 8 {
                assert(base[i] == base.take(8)[i]);
            } else if i > 8 {
                assert(base[i] == base.skip(9)[i - 9]);
            }
        }
    }
    is_ascii_chars_encode_utf8(base);
}

/// The time read from a base alone.
pub open spec fn base_time(base: Seq<char>) -> Option<Timestamp> {
    resolve(
        None,
        form_of_base(base),
        parsed_date(base, short_format()),
        parsed_datetime(base, long_format()),
        parsed_datetime(base, long_iso_format()),
    )
}

/// What holds of the time `t` read from a timestamp. A time that is read exists
/// in the calendar. What btrbk writes is read as the time it stands for. Where
/// the timestamp cannot be in the legacy form, its base alone decides. What
/// cannot begin a date is not read at all.
pub open spec fn is_reading(timestamp: Seq<char>, t: Option<Timestamp>) -> bool {
    &&& t == btrbk_timestamp(timestamp)
    &&& t matches Some(t) ==> t.well_formed()
    &&& is_regular(timestamp) ==> t == regular_time(timestamp)
    &&& !may_be_legacy(timestamp) ==> t == base_time(base_of(timestamp))
    &&& begins_no_date(timestamp) ==> t is None
}

/// Parses the timestamp btrbk puts in snapshot names, in any of its
/// timestamp_format flavours (short, long, long-iso), with the optional "_N"
/// suffix btrbk adds when a name is already taken.
pub fn parse_btrbk_timestamp(timestamp: &str) -> (t: Option<Timestamp>)
    ensures
        is_reading(timestamp@, t),
{
    proof {
        lemma_base_is_prefix(timestamp@);
        let base = base_of(timestamp@);
        if is_regular(timestamp@) {
            if is_stamp(timestamp@, '_', 6) {
                lemma_legacy_base(timestamp@);
            }
            lemma_regular_form(base);
            assert(timestamp@.take(8) =~= base.take(8));
            if base.len() == 8 {
                assert(base.take(8) =~= base);
            } else {
                assert(timestamp@[8] == base[8]);
            }
        }
    }
    let legacy = parse_datetime(timestamp, "%Y%m%d_%H%M%S");
    if legacy.is_some() {
        return legacy;
    }
    let base = timestamp_base(timestamp);
    let base = base.as_str();
    proof {
        if base@.len() == 0 {
            assert(base@ =~= Seq::empty());
            is_ascii_chars_encode_utf8(base@);
        }
    }
    let form = timestamp_form(base);
    match form {
        Some(TimestampForm::Short) => {
            let short = parse_date(base, "%Y%m%d");
            resolve_timestamp(legacy, form, short, None, None)
        },
        Some(TimestampForm::Long) => {
            let long = parse_datetime(base, "%Y%m%dT%H%M");
            resolve_timestamp(legacy, form, None, long, None)
        },
        Some(TimestampForm::LongIso) => {
            let long_iso = parse_datetime(base, "%Y%m%dT%H%M%S");
            resolve_timestamp(legacy, form, None, None, long_iso)
        },
        None => None,
    }
}

// ---------------------------------------------------------------------------
// Laws

/// Extending a text after the end of a run changes nothing in the run.
proof fn lemma_run_stops_at(s: Seq<char>, stop: char, more: Seq<char>, p: spec_fn(char) -> bool)
    requires
        !p(stop),
        forall|i: int| 0 <= i < s.len() ==> p(#[trigger] s[i]),
    ensures
        run_len(s + seq![stop] + more, p) == s.len(),
{
    let whole = s + seq![stop] + more;
    assert forall|i: int| 0 <= i < s.len() implies p(#[trigger] whole[i]) by {
        assert(whole[i] == s[i]);
    }
    assert(whole[s.len() as int] == stop);
    lemma_run_len_is(whole, p, s.len() as int);
}

/// The "_N" suffix that btrbk adds to a taken name does not change what is
/// read as the timestamp.
pub proof fn law_suffix_is_ignored(timestamp: Seq<char>, suffix: Seq<char>)
    requires
        !timestamp.contains('_'),
    ensures
        base_of(timestamp + seq!['_'] + suffix) == base_of(timestamp),
{
    let whole = timestamp + seq!['_'] + suffix;
    assert forall|i: int| 0 <= i < timestamp.len() implies #[trigger] timestamp[i] != '_' by {
        if timestamp[i] == '_' {
            assert(timestamp.contains('_'));
        }
    }
    lemma_run_stops_at(timestamp, '_', suffix, other_than('_'));
    lemma_run_len_is(timestamp, other_than('_'), timestamp.len() as int);
    assert(before(whole, '_') =~= timestamp);
    assert(before(timestamp, '_') =~= timestamp);
}

/// A timestamp with a "_N" suffix stands for the same time as without it.
pub proof fn law_suffixed_timestamp_is_the_same_time(timestamp: Seq<char>, suffix: Seq<char>)
    requires
        is_regular(timestamp),
        !timestamp.contains('_'),
        suffix.len() <= 4,
        all_digits(suffix),
    ensures
        is_regular(timestamp + seq!['_'] + suffix),
        regular_time(timestamp + seq!['_'] + suffix) == regular_time(timestamp),
{
    let whole = timestamp + seq!['_'] + suffix;
    law_suffix_is_ignored(timestamp, suffix);
    lemma_base_is_prefix(timestamp);
    if is_stamp(timestamp, '_', 6) {
        assert(timestamp.contains(timestamp[8]));
    }
    if timestamp.len() == 8 {
        assert(whole.skip(9) =~= suffix);
    } else if timestamp.len() > 8 {
        assert(whole[8] == timestamp[8]);
        assert(timestamp.contains(timestamp[8]));
    }
}

/// The "_N" suffix and the UTC offset are dropped, never applied to the time:
/// whatever text without underscore and sign is read as a time, with a suffix
/// of one or two characters, an offset, or both, the same time is read.
pub proof fn law_suffix_and_offset_are_dropped(
    timestamp: Seq<char>,
    sign: char,
    offset: Seq<char>,
    suffix: Seq<char>,
    plain: Option<Timestamp>,
    suffixed: Option<Timestamp>,
    shifted: Option<Timestamp>,
    both: Option<Timestamp>,
)
    requires
        !timestamp.contains('_') && !timestamp.contains('+') && !timestamp.contains('-'),
        sign == '+' || sign == '-',
        !offset.contains('_'),
        !suffix.contains('_'),
        suffix.len() <= 2,
        is_reading(timestamp, plain),
        is_reading(timestamp + seq!['_'] + suffix, suffixed),
        is_reading(timestamp + seq![sign] + offset, shifted),
        is_reading(timestamp + seq![sign] + offset + seq!['_'] + suffix, both),
    ensures
        suffixed == plain,
        shifted == plain,
        both == plain,
{
    let moved = timestamp + seq![sign] + offset;
    law_utc_offset_is_ignored(timestamp, sign, offset);
    assert(!moved.contains('_')) by {
        if moved.contains('_') {
            let k = moved.index_of('_');
            if k < timestamp.len() {
                assert(timestamp[k] == '_');
            } else if k > timestamp.len() {
                assert(offset[k - timestamp.len() - 1] == '_');
            }
        }
    }
    law_suffix_is_ignored(timestamp, suffix);
    law_suffix_is_ignored(moved, suffix);
    lemma_no_underscore(timestamp);
    lemma_no_underscore(moved);
    lemma_one_underscore(timestamp, suffix);
    lemma_one_underscore(moved, suffix);
    lemma_plain_base(timestamp);
}

/// A text without underscore and sign is its own base.
proof fn lemma_plain_base(timestamp: Seq<char>)
    requires
        !timestamp.contains('_') && !timestamp.contains('+') && !timestamp.contains('-'),
    ensures
        base_of(timestamp) == timestamp,
{
    assert forall|i: int| 0 <= i < timestamp.len() implies #[trigger] timestamp[i] != '_'
        && timestamp[i] != '+' && timestamp[i] != '-' by {
        assert(timestamp.contains(timestamp[i]));
    }
    lemma_run_len_is(timestamp, other_than('_'), timestamp.len() as int);
    assert(before(timestamp, '_') =~= timestamp);
    lemma_run_len_is(timestamp, not_sign(), timestamp.len() as int);
    assert(timestamp.take(timestamp.len() as int) =~= timestamp);
}

/// The legacy form needs an underscore.
proof fn lemma_no_underscore(timestamp: Seq<char>)
    requires
        !timestamp.contains('_'),
    ensures
        !may_be_legacy(timestamp),
{
    assert forall|i: int| 0 <= i < timestamp.len() implies #[trigger] timestamp[i] != '_' by {
        assert(timestamp.contains(timestamp[i]));
    }
    lemma_run_len_is(timestamp, other_than('_'), timestamp.len() as int);
}

/// The legacy form needs more than two characters behind the underscore.
proof fn lemma_one_underscore(timestamp: Seq<char>, suffix: Seq<char>)
    requires
        !timestamp.contains('_'),
        suffix.len() <= 2,
    ensures
        !may_be_legacy(timestamp + seq!['_'] + suffix),
{
    assert forall|i: int| 0 <= i < timestamp.len() implies #[trigger] timestamp[i] != '_' by {
        assert(timestamp.contains(timestamp[i]));
    }
    lemma_run_stops_at(timestamp, '_', suffix, other_than('_'));
}

/// The UTC offset of the long-iso form is dropped: the name already is local
/// time.
pub proof fn law_utc_offset_is_ignored(timestamp: Seq<char>, sign: char, offset: Seq<char>)
    requires
        sign == '+' || sign == '-',
        !timestamp.contains('_') && !timestamp.contains('+') && !timestamp.contains('-'),
        !offset.contains('_'),
    ensures
        base_of(timestamp + seq![sign] + offset) == timestamp,
{
    let whole = timestamp + seq![sign] + offset;
    assert forall|i: int| 0 <= i < whole.len() implies #[trigger] whole[i] != '_' by {
        if i < timestamp.len() {
            assert(timestamp.contains(timestamp[i]));
        } else if i > timestamp.len() {
            assert(offset.contains(offset[i - timestamp.len() - 1]));
        }
    }
    lemma_run_len_is(whole, other_than('_'), whole.len() as int);
    assert(before(whole, '_') =~= whole);
    assert forall|i: int| 0 <= i < timestamp.len() implies #[trigger] timestamp[i] != '+'
        && timestamp[i] != '-' by {
        assert(timestamp.contains(timestamp[i]));
    }
    lemma_run_stops_at(timestamp, sign, offset, not_sign());
    assert(whole.take(timestamp.len() as int) =~= timestamp);
}

/// Whatever is read as a timestamp exists in the calendar, if every reading
/// does.
pub proof fn law_resolved_timestamp_exists(
    legacy: Option<Timestamp>,
    form: Option<TimestampForm>,
    short: Option<Date>,
    long: Option<Timestamp>,
    long_iso: Option<Timestamp>,
)
    requires
        legacy matches Some(t) ==> t.well_formed(),
        short matches Some(d) ==> d.well_formed(),
        long matches Some(t) ==> t.well_formed(),
        long_iso matches Some(t) ==> t.well_formed(),
    ensures
        resolve(legacy, form, short, long, long_iso) matches Some(t) ==> t.well_formed(),
{
}

/// The digits of a number are digits and spell it.
proof fn lemma_decimal(n: nat)
    ensures
        all_digits(decimal(n)),
        decimal_value(decimal(n)) == n,
        decimal(n).len() > 0,
    decreases n,
{
    let s = decimal(n);
    let d = n % 10;
    reveal_with_fuel(decimal_value, 2);
    assert(digit_value(digit(d as int)) == d);
    assert('0' <= digit(d as int) <= '9');
    if n >= 10 {
        lemma_decimal(n / 10);
        assert(s.drop_last() =~= decimal(n / 10));
        assert(s.last() == digit(d as int));
        assert forall|i: int| 0 <= i < s.len() implies '0' <= #[trigger] s[i] <= '9' by {
            if i < s.len() - 1 {
                assert(s[i] == decimal(n / 10)[i]);
            }
        }
    } else {
        assert(s.drop_last() =~= Seq::empty());
    }
}

/// Leading zeros do not change the number that digits spell.
proof fn lemma_leading_zeros(k: nat, s: Seq<char>)
    ensures
        decimal_value(repeat('0', k) + s) == decimal_value(s),
    decreases s.len(), k,
{
    let whole = repeat('0', k) + s;
    if s.len() > 0 {
        assert(whole.drop_last() =~= repeat('0', k) + s.drop_last());
        assert(whole.last() == s.last());
        lemma_leading_zeros(k, s.drop_last());
    } else if k > 0 {
        assert(whole.drop_last() =~= repeat('0', (k - 1) as nat) + s);
        assert(whole.last() == '0');
        lemma_leading_zeros((k - 1) as nat, s);
    }
}

/// A number padded with zeros is made of digits that spell it, and there are
/// as many as asked for if those are enough.
proof fn lemma_zero_padded(n: nat, width: nat)
    ensures
        zero_padded(n, width).len() >= width,
        zero_padded(n, width).len() > 0,
        all_digits(zero_padded(n, width)),
        decimal_value(zero_padded(n, width)) == n,
        width == 2 && n < 100 ==> zero_padded(n, width).len() == 2,
        width == 4 && n < 10_000 ==> zero_padded(n, width).len() == 4,
{
    lemma_decimal(n);
    reveal_with_fuel(decimal, 4);
    let digits = decimal(n);
    if digits.len() < width {
        let k = (width - digits.len()) as nat;
        lemma_leading_zeros(k, digits);
        let s = zero_padded(n, width);
        assert forall|i: int| 0 <= i < s.len() implies '0' <= #[trigger] s[i] <= '9' by {
            if i >= k {
                assert(s[i] == digits[i - k]);
            }
        }
    }
}

/// Different years are written differently.
proof fn lemma_year_text(x: int, y: int)
    requires
        year_text(x) == year_text(y),
    ensures
        x == y,
{
    lemma_zero_padded((if x < 0 {
        -x
    } else {
        x
    }) as nat, 4);
    lemma_zero_padded((if y < 0 {
        -y
    } else {
        y
    }) as nat, 4);
    let text = year_text(x);
    let first = text[0];
    let rest = text.skip(1);
    if x < 0 {
        assert(rest =~= zero_padded((-x) as nat, 4));
    } else if x > 9999 {
        assert(rest =~= zero_padded(x as nat, 4));
    } else {
        assert('0' <= first <= '9');
    }
    if y < 0 {
        assert(rest =~= zero_padded((-y) as nat, 4));
    } else if y > 9999 {
        assert(rest =~= zero_padded(y as nat, 4));
    } else {
        assert('0' <= first <= '9');
    }
}

/// In a year of four digits, "YYYYMMDD_HHMMSS" spells the second it was written
/// in.
proof fn lemma_stamp_spells(t: Timestamp)
    requires
        t.well_formed(),
        0 <= t.year <= 9999,
    ensures
        is_stamp(stamp_text(t), '_', 6),
        time_in(stamp_text(t).take(8), stamp_text(t).skip(9)) == Some(t.whole_second()),
{
    let year = year_text(t.year as int);
    let month = zero_padded(t.month as nat, 2);
    let day = zero_padded(t.day as nat, 2);
    let hour = zero_padded(t.hour as nat, 2);
    let minute = zero_padded(t.minute as nat, 2);
    let second = second_text(t);
    lemma_zero_padded(t.year as nat, 4);
    lemma_zero_padded(t.month as nat, 2);
    lemma_zero_padded(t.day as nat, 2);
    lemma_zero_padded(t.hour as nat, 2);
    lemma_zero_padded(t.minute as nat, 2);
    lemma_zero_padded(t.second as nat + t.nanosecond as nat / 1_000_000_000, 2);
    let text = stamp_text(t);
    let date = text.take(8);
    let time = text.skip(9);
    assert(date =~= year + month + day);
    assert(time =~= hour + minute + second);
    assert(date.take(4) =~= year);
    assert(date.subrange(4, 6) =~= month);
    assert(date.skip(6) =~= day);
    assert(time.take(2) =~= hour);
    assert(time.subrange(2, 4) =~= minute);
    assert(time.skip(4) =~= second);
    assert forall|i: int| 0 <= i < 8 implies '0' <= #[trigger] date[i] <= '9' by {
        if i < 4 {
            assert(date[i] == year[i]);
        } else if i < 6 {
            assert(date[i] == month[i - 4]);
        } else {
            assert(date[i] == day[i - 6]);
        }
    }
    assert forall|i: int| 0 <= i < 6 implies '0' <= #[trigger] time[i] <= '9' by {
        if i < 2 {
            assert(time[i] == hour[i]);
        } else if i < 4 {
            assert(time[i] == minute[i - 2]);
        } else {
            assert(time[i] == second[i - 4]);
        }
    }
    assert(text[8] == '_');
    assert(day_in(date) == Some(Date { year: t.year, month: t.month, day: t.day }));
}

/// A timestamp in a year of four digits, written as "YYYYMMDD_HHMMSS" and read
/// again, is the second it was written in.
pub proof fn law_stamp_is_read_back(t: Timestamp, read: Option<Timestamp>)
    requires
        t.well_formed(),
        0 <= t.year <= 9999,
        is_reading(stamp_text(t), read),
    ensures
        read == Some(t.whole_second()),
{
    lemma_stamp_spells(t);
}

/// The two digits of each field, and the year before them.
proof fn lemma_stamp_fields(t: Timestamp)
    requires
        t.well_formed(),
    ensures
        ({
            let text = stamp_text(t);
            let n = text.len() - 11;
            &&& n > 0
            &&& text.take(n) == year_text(t.year as int)
            &&& decimal_value(text.subrange(n, n + 2)) == t.month
            &&& decimal_value(text.subrange(n + 2, n + 4)) == t.day
            &&& decimal_value(text.subrange(n + 5, n + 7)) == t.hour
            &&& decimal_value(text.subrange(n + 7, n + 9)) == t.minute
            &&& decimal_value(text.subrange(n + 9, n + 11)) == t.second + t.nanosecond as int
                / 1_000_000_000
        }),
{
    lemma_zero_padded((if t.year < 0 {
        -t.year
    } else {
        t.year as int
    }) as nat, 4);
    lemma_zero_padded(t.month as nat, 2);
    lemma_zero_padded(t.day as nat, 2);
    lemma_zero_padded(t.hour as nat, 2);
    lemma_zero_padded(t.minute as nat, 2);
    lemma_zero_padded(t.second as nat + t.nanosecond as nat / 1_000_000_000, 2);
    let text = stamp_text(t);
    let n = text.len() - 11;
    assert(text.take(n) =~= year_text(t.year as int));
    assert(text.subrange(n, n + 2) =~= zero_padded(t.month as nat, 2));
    assert(text.subrange(n + 2, n + 4) =~= zero_padded(t.day as nat, 2));
    assert(text.subrange(n + 5, n + 7) =~= zero_padded(t.hour as nat, 2));
    assert(text.subrange(n + 7, n + 9) =~= zero_padded(t.minute as nat, 2));
    assert(text.subrange(n + 9, n + 11) =~= second_text(t));
}

/// Different seconds are written differently as "YYYYMMDD_HHMMSS".
pub proof fn law_stamps_tell_seconds_apart(a: Timestamp, b: Timestamp)
    requires
        a.well_formed(),
        b.well_formed(),
        a.whole_second() != b.whole_second(),
    ensures
        stamp_text(a) != stamp_text(b),
{
    lemma_stamp_fields(a);
    lemma_stamp_fields(b);
    if stamp_text(a) == stamp_text(b) {
        lemma_year_text(a.year as int, b.year as int);
    }
}

// ---------------------------------------------------------------------------
// Times and their texts, said field by field

/// Points of time come in the order of their nanoseconds from a fixed start, if
/// every month is counted as long as the longest.
pub proof fn law_times_are_ordered_by_their_fields(a: Timestamp, b: Timestamp)
    requires
        a.well_formed(),
        b.well_formed(),
    ensures
        time_less(a, b) <==> ((((a.year * 13 + a.month) * 32 + a.day) * 24 + a.hour) * 60
            + a.minute) * 60 * 2_000_000_000 + a.second * 2_000_000_000 + a.nanosecond < ((((b.year
            * 13 + b.month) * 32 + b.day) * 24 + b.hour) * 60 + b.minute) * 60 * 2_000_000_000
            + b.second * 2_000_000_000 + b.nanosecond,
        time_less(a, b) || time_less(b, a) || a == b,
        !(time_less(a, b) && time_less(b, a)),
{
}

/// A day exists exactly if its month has that many days: 30 for April, June,
/// September and November, 28 or 29 for February, 31 for the others. Every
/// fourth year is a leap year, but for the centuries that 400 does not divide.
pub proof fn law_calendar_is_gregorian(year: int, month: int, day: int)
    ensures
        is_calendar_day(year, month, day) ==> -262143 <= year <= 262142 && 1 <= month <= 12 && 1
            <= day <= 31,
        -262143 <= year <= 262142 && 1 <= month <= 12 && 1 <= day <= 28 ==> is_calendar_day(
            year,
            month,
            day,
        ),
        -262143 <= year <= 262142 && 1 <= month <= 12 && 29 <= day <= 30 && month != 2
            ==> is_calendar_day(year, month, day),
        -262143 <= year <= 262142 && 1 <= month <= 12 ==> (is_calendar_day(year, month, 31)
            <==> month != 2 && month != 4 && month != 6 && month != 9 && month != 11),
        !is_calendar_day(year, 2, 30),
        -262143 <= year <= 262142 ==> (is_calendar_day(year, 2, 29) <==> year % 4 == 0 && (year
            % 100 != 0 || year % 400 == 0)),
{
}

/// A time of day exists from 00:00:00 to 23:59:59, and a leap second only in the
/// last second of a minute.
pub proof fn law_times_of_day_are_within_the_day(t: Timestamp)
    ensures
        t.well_formed() <==> is_calendar_day(t.year as int, t.month as int, t.day as int) && t.hour
            <= 23 && t.minute <= 59 && t.second <= 59 && t.nanosecond <= 1_999_999_999 && (
        t.nanosecond <= 999_999_999 || t.second == 59),
        t.whole_second() == (Timestamp {
            nanosecond: if t.nanosecond > 999_999_999 {
                1_000_000_000
            } else {
                0
            },
            ..t
        }),
{
}

/// A day begins at midnight.
pub proof fn law_days_begin_at_midnight(d: Date)
    ensures
        d.at_midnight().year == d.year,
        d.at_midnight().month == d.month,
        d.at_midnight().day == d.day,
        d.at_midnight().hour == 0,
        d.at_midnight().minute == 0,
        d.at_midnight().second == 0,
        d.at_midnight().nanosecond == 0,
        d.well_formed() <==> is_calendar_day(d.year as int, d.month as int, d.day as int),
        d.well_formed() ==> d.at_midnight().well_formed(),
{
}

/// Without suffix and offset a timestamp is what stands before the first
/// underscore, plus or minus.
pub proof fn law_base_ends_at_suffix_or_offset(timestamp: Seq<char>)
    ensures
        base_of(timestamp).is_prefix_of(timestamp),
        !base_of(timestamp).contains('_'),
        !base_of(timestamp).contains('+'),
        !base_of(timestamp).contains('-'),
        base_of(timestamp).len() < timestamp.len() ==> {
            let next = timestamp[base_of(timestamp).len() as int];
            next == '_' || next == '+' || next == '-'
        },
{
    lemma_base_is_prefix(timestamp);
    lemma_run_len(timestamp, other_than('_'));
    let head = before(timestamp, '_');
    lemma_run_len(head, not_sign());
    let base = base_of(timestamp);
    let n = base.len() as int;
    assert forall|i: int| 0 <= i < n implies base[i] != '_' && base[i] != '+' && base[i] != '-' by {
        assert(base[i] == head[i] && head[i] == timestamp[i]);
        assert(not_sign()(head[i]));
        assert(other_than('_')(timestamp[i]));
    }
    if n < timestamp.len() {
        if n < head.len() {
            assert(!not_sign()(head[n]));
        } else {
            assert(!other_than('_')(timestamp[n]));
        }
    }
}

/// The legacy reading of a timestamp goes before any other. Else what stands
/// before suffix and offset is read, as a day if it has 8 bytes, with hours and
/// minutes if it has 13, and with seconds if it has 15.
pub proof fn law_timestamps_are_read_by_their_length(timestamp: Seq<char>, t: Timestamp, d: Date)
    ensures
        ({
            let legacy = parsed_datetime(timestamp, "%Y%m%d_%H%M%S"@);
            let base = base_of(timestamp);
            let len = encode_utf8(base).len();
            let read = btrbk_timestamp(timestamp);
            &&& legacy == Some(t) ==> read == Some(t)
            &&& legacy is None && len == 8 && parsed_date(base, "%Y%m%d"@) == Some(d) ==> read
                == Some(
                Timestamp {
                    year: d.year,
                    month: d.month,
                    day: d.day,
                    hour: 0,
                    minute: 0,
                    second: 0,
                    nanosecond: 0,
                },
            )
            &&& legacy is None && len == 8 && parsed_date(base, "%Y%m%d"@) is None ==> read is None
            &&& legacy is None && len == 13 ==> read == parsed_datetime(base, "%Y%m%dT%H%M"@)
            &&& legacy is None && len == 15 ==> read == parsed_datetime(base, "%Y%m%dT%H%M%S"@)
            &&& legacy is None && len != 8 && len != 13 && len != 15 ==> read is None
        }),
{
}

/// The digits of a day are four of the year, two of the month and two of the
/// day, and stand for it if it exists.
pub proof fn law_eight_digits_are_a_day(y: Seq<char>, m: Seq<char>, d: Seq<char>)
    requires
        y.len() == 4,
        m.len() == 2,
        d.len() == 2,
        0 <= decimal_value(y) <= 9999,
        0 <= decimal_value(m) <= 99,
        0 <= decimal_value(d) <= 99,
    ensures
        day_in(y + m + d) == if is_calendar_day(
            decimal_value(y),
            decimal_value(m),
            decimal_value(d),
        ) {
            Some(
                Date {
                    year: decimal_value(y) as i32,
                    month: decimal_value(m) as u32,
                    day: decimal_value(d) as u32,
                },
            )
        } else {
            None
        },
{
    let all = y + m + d;
    assert(all.take(4) =~= y);
    assert(all.subrange(4, 6) =~= m);
    assert(all.skip(6) =~= d);
}

/// The digits of a time are two each of the hour, the minute and, if there are
/// six, the second; second 60 is a leap second.
pub proof fn law_digits_are_a_time_of_day(
    day: Seq<char>,
    h: Seq<char>,
    m: Seq<char>,
    s: Seq<char>,
    date: Date,
)
    requires
        day_in(day) == Some(date),
        h.len() == 2,
        m.len() == 2,
        s.len() == 2,
        0 <= decimal_value(h) < 24,
        0 <= decimal_value(m) < 60,
        0 <= decimal_value(s) <= 60,
    ensures
        time_in(day, h + m) == Some(
            Timestamp {
                year: date.year,
                month: date.month,
                day: date.day,
                hour: decimal_value(h) as u32,
                minute: decimal_value(m) as u32,
                second: 0,
                nanosecond: 0,
            },
        ),
        time_in(day, h + m + s) == Some(
            Timestamp {
                year: date.year,
                month: date.month,
                day: date.day,
                hour: decimal_value(h) as u32,
                minute: decimal_value(m) as u32,
                second: if decimal_value(s) == 60 {
                    59
                } else {
                    decimal_value(s) as u32
                },
                nanosecond: if decimal_value(s) == 60 {
                    1_000_000_000
                } else {
                    0
                },
            },
        ),
{
    let (short, full) = (h + m, h + m + s);
    assert(short.take(2) =~= h && full.take(2) =~= h);
    assert(short.subrange(2, 4) =~= m && full.subrange(2, 4) =~= m);
    assert(full.skip(4) =~= s);
}

/// Numbers are padded with zeros in front, never behind, and keep their value.
pub proof fn law_padding_keeps_the_number(n: nat, width: nat)
    ensures
        zero_padded(n, width).len() >= width,
        zero_padded(n, width).skip(zero_padded(n, width).len() - decimal(n).len()) == decimal(n),
        decimal_value(zero_padded(n, width)) == n,
        decimal(n).len() >= width ==> zero_padded(n, width) == decimal(n),
        forall|i: int|
            0 <= i < zero_padded(n, width).len() - decimal(n).len() ==> #[trigger] zero_padded(
                n,
                width,
            )[i] == '0',
{
    lemma_zero_padded(n, width);
    assert(zero_padded(n, width).skip(zero_padded(n, width).len() - decimal(n).len()) =~= decimal(
        n,
    ));
}

/// A year has four digits or more, a minus in front if it is negative and a
/// plus if it has more than four digits.
pub proof fn law_years_are_signed_beyond_four_digits(year: int)
    ensures
        0 <= year <= 9999 ==> year_text(year).len() == 4 && decimal_value(year_text(year)) == year,
        year > 9999 ==> year_text(year)[0] == '+' && decimal_value(year_text(year).skip(1))
            == year,
        year < 0 ==> year_text(year)[0] == '-' && decimal_value(year_text(year).skip(1)) == -year
            && year_text(year).len() >= 5,
{
    if year < 0 {
        lemma_zero_padded((-year) as nat, 4);
        assert(year_text(year).skip(1) =~= zero_padded((-year) as nat, 4));
    } else {
        lemma_zero_padded(year as nat, 4);
        if year > 9999 {
            assert(year_text(year).skip(1) =~= zero_padded(year as nat, 4));
        }
    }
}

/// A time is shown as year, month and day with dashes between them, a blank, and
/// hour, minute and second with colons between them, two digits each.
pub proof fn law_times_are_shown_in_full(t: Timestamp)
    requires
        t.well_formed(),
    ensures
        ({
            let text = display_text(t);
            let n = text.len() - 15;
            &&& n > 0
            &&& text.take(n) == year_text(t.year as int)
            &&& text[n] == '-' && text[n + 3] == '-' && text[n + 6] == ' ' && text[n + 9] == ':'
                && text[n + 12] == ':'
            &&& decimal_value(text.subrange(n + 1, n + 3)) == t.month
            &&& decimal_value(text.subrange(n + 4, n + 6)) == t.day
            &&& decimal_value(text.subrange(n + 7, n + 9)) == t.hour
            &&& decimal_value(text.subrange(n + 10, n + 12)) == t.minute
            &&& decimal_value(text.subrange(n + 13, n + 15)) == t.second + if t.nanosecond
                >= 1_000_000_000 {
                1int
            } else {
                0
            }
        }),
{
    lemma_zero_padded((if t.year < 0 {
        -t.year
    } else {
        t.year as int
    }) as nat, 4);
    lemma_zero_padded(t.month as nat, 2);
    lemma_zero_padded(t.day as nat, 2);
    lemma_zero_padded(t.hour as nat, 2);
    lemma_zero_padded(t.minute as nat, 2);
    lemma_zero_padded(t.second as nat + t.nanosecond as nat / 1_000_000_000, 2);
    let text = display_text(t);
    let n = text.len() - 15;
    assert(text.take(n) =~= year_text(t.year as int));
    assert(text.subrange(n + 1, n + 3) =~= zero_padded(t.month as nat, 2));
    assert(text.subrange(n + 4, n + 6) =~= zero_padded(t.day as nat, 2));
    assert(text.subrange(n + 7, n + 9) =~= zero_padded(t.hour as nat, 2));
    assert(text.subrange(n + 10, n + 12) =~= zero_padded(t.minute as nat, 2));
    assert(text.subrange(n + 13, n + 15) =~= second_text(t));
}

/// What is read of a timestamp is the time it stands for, and exists.
pub proof fn law_what_is_read_is_the_timestamp(timestamp: Seq<char>, t: Option<Timestamp>)
    requires
        is_reading(timestamp, t),
    ensures
        t == btrbk_timestamp(timestamp),
        t matches Some(t) ==> t.well_formed(),
        display_format() == "%Y-%m-%d %H:%M:%S"@,
        legacy_format() == "%Y%m%d_%H%M%S"@,
        short_format() == "%Y%m%d"@,
        long_format() == "%Y%m%dT%H%M"@,
        long_iso_format() == "%Y%m%dT%H%M%S"@,
{
}

} // verus!

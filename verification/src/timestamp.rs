//! Snapshot names: a minute of local time written as twelve digits,
//! `YYYYMMDDHHMM`.
//!
//! Every field has a fixed width, so the order of the names as strings is the
//! order of the minutes they stand for.

use vstd::prelude::*;
use vstd::string::*;
use crate::split::chars_of;

verus! {

/// The length of a snapshot name.
pub const STAMP_LEN: usize = 12;

/// The format of a snapshot name, in the notation of `strftime`.
pub const STAMP_FORMAT: &'static str = "%Y%m%d%H%M";

/// A minute of the calendar, without a time zone.
#[derive(Debug, Clone, Copy, PartialEq, Eq, Structural)]
pub struct SnapshotTime {
    pub year: u32,
    pub month: u32,
    pub day: u32,
    pub hour: u32,
    pub minute: u32,
}

/// Leap years of the Gregorian calendar.
pub open spec fn is_leap_year(year: int) -> bool {
    year % 4 == 0 && (year % 100 != 0 || year % 400 == 0)
}

/// The number of days of a month of the Gregorian calendar.
pub open spec fn days_in_month(year: int, month: int) -> int {
    if month == 2 {
        if is_leap_year(year) {
            29
        } else {
            28
        }
    } else if month == 4 || month == 6 || month == 9 || month == 11 {
        30
    } else {
        31
    }
}

impl SnapshotTime {
    /// The fields name a minute that exists in the Gregorian calendar.
    pub open spec fn is_calendar_time(self) -> bool {
        &&& 1 <= self.month <= 12
        &&& 1 <= self.day <= days_in_month(self.year as int, self.month as int)
        &&& self.hour <= 23
        &&& self.minute <= 59
    }

    /// This minute comes before `other`.
    pub open spec fn earlier_than(self, other: SnapshotTime) -> bool {
        ||| self.year < other.year
        ||| self.year == other.year && self.month < other.month
        ||| self.year == other.year && self.month == other.month && self.day < other.day
        ||| self.year == other.year && self.month == other.month && self.day == other.day
            && self.hour < other.hour
        ||| self.year == other.year && self.month == other.month && self.day == other.day
            && self.hour == other.hour && self.minute < other.minute
    }
}

/// The number of days of the months of a year that come before `month`.
pub open spec fn days_before_month(year: int, month: int) -> int
    decreases month,
{
    if month <= 1 {
        0
    } else {
        days_before_month(year, month - 1) + days_in_month(year, month - 1)
    }
}

/// The number of days of a year.
pub open spec fn days_in_year(year: int) -> int {
    if is_leap_year(year) {
        366
    } else {
        365
    }
}

/// The number of days of the years from year 0 on that come before `year`.
pub open spec fn days_before_year(year: int) -> int
    decreases year,
{
    if year <= 0 {
        0
    } else {
        days_before_year(year - 1) + days_in_year(year - 1)
    }
}

impl SnapshotTime {
    /// The number of days from the first day of year 0 to the day of this
    /// minute.
    pub open spec fn day_number(self) -> int {
        days_before_year(self.year as int) + days_before_month(
            self.year as int,
            self.month as int,
        ) + self.day - 1
    }

    /// The number of minutes from the start of year 0 to this minute.
    pub open spec fn minute_number(self) -> int {
        (self.day_number() * 24 + self.hour) * 60 + self.minute
    }
}

/// The months of a year follow one another: a later month begins when the
/// earlier one is over, and the twelve months make up the year.
pub proof fn lemma_months_in_order(year: int, month: int, later: int)
    requires
        1 <= month < later <= 13,
    ensures
        days_before_month(year, month) + days_in_month(year, month) <= days_before_month(
            year,
            later,
        ),
        days_before_month(year, 13) == days_in_year(year),
    decreases later,
{
    reveal_with_fuel(days_before_month, 13);
    if month + 1 < later {
        lemma_months_in_order(year, month, later - 1);
    }
}

/// The years follow one another: a later year begins when the earlier one is
/// over.
pub proof fn lemma_years_in_order(year: int, later: int)
    requires
        0 <= year < later,
    ensures
        days_before_year(year) + days_in_year(year) <= days_before_year(later),
    decreases later,
{
    if year + 1 < later {
        lemma_years_in_order(year, later - 1);
    }
}

/// Between minutes of the calendar, the order of the fields is the order of
/// time: the earlier minute is fewer minutes away from the start of year 0.
pub proof fn lemma_earlier_is_fewer_minutes(a: SnapshotTime, b: SnapshotTime)
    requires
        a.is_calendar_time(),
        b.is_calendar_time(),
    ensures
        a.earlier_than(b) <==> a.minute_number() < b.minute_number(),
        a == b <==> a.minute_number() == b.minute_number(),
{
    if a.earlier_than(b) {
        lemma_minutes_grow(a, b);
    } else if b.earlier_than(a) {
        lemma_minutes_grow(b, a);
    }
}

proof fn lemma_minutes_grow(a: SnapshotTime, b: SnapshotTime)
    requires
        a.is_calendar_time(),
        b.is_calendar_time(),
        a.earlier_than(b),
    ensures
        a.minute_number() < b.minute_number(),
{
    let ya = a.year as int;
    let yb = b.year as int;
    let ma = a.month as int;
    let mb = b.month as int;
    lemma_months_in_order(ya, ma, 13);
    if ya < yb {
        lemma_years_in_order(ya, yb);
        assert(a.day_number() < days_before_year(ya) + days_in_year(ya));
        assert(days_before_year(yb) <= b.day_number()) by {
            lemma_days_before_month_nonnegative(yb, mb);
        }
    } else if ma < mb {
        lemma_months_in_order(ya, ma, mb);
    }
}

proof fn lemma_days_before_month_nonnegative(year: int, month: int)
    ensures
        days_before_month(year, month) >= 0,
    decreases month,
{
    if month > 1 {
        lemma_days_before_month_nonnegative(year, month - 1);
    }
}

/// A decimal digit.
pub open spec fn is_digit(c: char) -> bool {
    '0' <= c <= '9'
}

/// The value of the digit at `i`.
pub open spec fn digit_at(s: Seq<char>, i: int) -> int {
    s[i] as int - 48
}

/// Twelve decimal digits.
pub open spec fn has_stamp_shape(s: Seq<char>) -> bool {
    &&& s.len() == STAMP_LEN
    &&& forall|i: int| 0 <= i < STAMP_LEN ==> is_digit(#[trigger] s[i])
}

/// The fields that twelve digits spell: four of the year, then two each of
/// the month, the day, the hour and the minute.
pub open spec fn stamp_time(s: Seq<char>) -> SnapshotTime {
    SnapshotTime {
        year: (digit_at(s, 0) * 1000 + digit_at(s, 1) * 100 + digit_at(s, 2) * 10 + digit_at(
            s,
            3,
        )) as u32,
        month: (digit_at(s, 4) * 10 + digit_at(s, 5)) as u32,
        day: (digit_at(s, 6) * 10 + digit_at(s, 7)) as u32,
        hour: (digit_at(s, 8) * 10 + digit_at(s, 9)) as u32,
        minute: (digit_at(s, 10) * 10 + digit_at(s, 11)) as u32,
    }
}

/// A valid snapshot name: twelve digits that spell a minute of the calendar.
pub open spec fn is_snapshot_name(s: Seq<char>) -> bool {
    has_stamp_shape(s) && stamp_time(s).is_calendar_time()
}

/// The order of strings from position `i` on, the positions before it being
/// equal: the first position where the two differ decides, and a string comes
/// before those that it is a proper prefix of.
pub open spec fn lex_less_from(a: Seq<char>, b: Seq<char>, i: int) -> bool
    decreases a.len() - i,
{
    if i >= b.len() {
        false
    } else if i >= a.len() {
        true
    } else if a[i] != b[i] {
        a[i] < b[i]
    } else {
        lex_less_from(a, b, i + 1)
    }
}

/// `a` comes before `b` in the order of strings.
pub open spec fn lex_less(a: Seq<char>, b: Seq<char>) -> bool {
    lex_less_from(a, b, 0)
}

/// The length of the longest common prefix of two strings, counted from
/// position `i`, the positions before it being equal.
pub open spec fn common_prefix_from(a: Seq<char>, b: Seq<char>, i: int) -> int
    decreases a.len() - i,
{
    if i >= a.len() || i >= b.len() || a[i] != b[i] {
        i
    } else {
        common_prefix_from(a, b, i + 1)
    }
}

/// The length of the longest common prefix of two strings.
pub open spec fn common_prefix(a: Seq<char>, b: Seq<char>) -> int {
    common_prefix_from(a, b, 0)
}

/// The order of two strings is decided where their common prefix ends: the
/// string that ends there comes first, and else the one with the lesser
/// character there.
pub proof fn lemma_lex_decided_after_common_prefix(a: Seq<char>, b: Seq<char>)
    ensures
        ({
            let n = common_prefix(a, b);
            &&& 0 <= n <= a.len()
            &&& n <= b.len()
            &&& forall|k: int| 0 <= k < n ==> a[k] == b[k]
            &&& n < a.len() && n < b.len() ==> a[n] != b[n]
            &&& lex_less(a, b) <==> n < b.len() && (n == a.len() || a[n] < b[n])
        }),
{
    lemma_common_prefix_from(a, b, 0);
}

proof fn lemma_common_prefix_from(a: Seq<char>, b: Seq<char>, i: int)
    requires
        0 <= i <= a.len(),
        i <= b.len(),
        forall|k: int| 0 <= k < i ==> a[k] == b[k],
    ensures
        ({
            let n = common_prefix_from(a, b, i);
            &&& i <= n <= a.len()
            &&& n <= b.len()
            &&& forall|k: int| 0 <= k < n ==> a[k] == b[k]
            &&& n < a.len() && n < b.len() ==> a[n] != b[n]
            &&& lex_less_from(a, b, i) <==> n < b.len() && (n == a.len() || a[n] < b[n])
        }),
    decreases a.len() - i,
{
    if i < a.len() && i < b.len() && a[i] == b[i] {
        lemma_common_prefix_from(a, b, i + 1);
    }
}

/// The order of strings is strict and total: of two strings exactly one comes
/// first, unless they are equal.
pub proof fn lemma_lex_total(a: Seq<char>, b: Seq<char>)
    ensures
        !(lex_less(a, b) && lex_less(b, a)),
        !lex_less(a, b) && !lex_less(b, a) ==> a == b,
        !lex_less(a, a),
{
    lemma_lex_total_from(a, b, 0);
    lemma_lex_total_from(a, a, 0);
}

proof fn lemma_lex_total_from(a: Seq<char>, b: Seq<char>, i: int)
    requires
        0 <= i <= a.len(),
        i <= b.len(),
        forall|k: int| 0 <= k < i ==> a[k] == b[k],
    ensures
        !(lex_less_from(a, b, i) && lex_less_from(b, a, i)),
        !lex_less_from(a, b, i) && !lex_less_from(b, a, i) ==> a == b,
    decreases a.len() - i,
{
    if i < a.len() && i < b.len() && a[i] == b[i] {
        lemma_lex_total_from(a, b, i + 1);
    } else if i == a.len() && i == b.len() {
        assert(a =~= b);
    }
}

/// The order of strings is transitive.
pub proof fn lemma_lex_transitive(a: Seq<char>, b: Seq<char>, c: Seq<char>)
    requires
        lex_less(a, b),
        lex_less(b, c),
    ensures
        lex_less(a, c),
{
    lemma_lex_transitive_from(a, b, c, 0);
}

proof fn lemma_lex_transitive_from(a: Seq<char>, b: Seq<char>, c: Seq<char>, i: int)
    requires
        0 <= i,
        lex_less_from(a, b, i),
        lex_less_from(b, c, i),
    ensures
        lex_less_from(a, c, i),
    decreases a.len() - i,
{
    if i < a.len() && i < b.len() && i < c.len() && a[i] == b[i] && b[i] == c[i] {
        lemma_lex_transitive_from(a, b, c, i + 1);
    }
}

/// Between names of twelve digits, the order of the strings is the order of
/// the minutes they spell, and equal minutes are spelt by equal names.
pub proof fn lemma_lexical_order_is_chronological(a: Seq<char>, b: Seq<char>)
    requires
        has_stamp_shape(a),
        has_stamp_shape(b),
    ensures
        lex_less(a, b) <==> stamp_time(a).earlier_than(stamp_time(b)),
        a == b <==> stamp_time(a) == stamp_time(b),
{
    lemma_lex_decided_after_common_prefix(a, b);
    let n = common_prefix(a, b);
    assert forall|k: int| 0 <= k < 12 implies 0 <= #[trigger] digit_at(a, k) <= 9 && 0
        <= #[trigger] digit_at(b, k) <= 9 by {
        assert(is_digit(a[k]) && is_digit(b[k]));
    }
    assert forall|k: int| 0 <= k < n implies #[trigger] digit_at(a, k) == digit_at(b, k) by {
        assert(a[k] == b[k]);
    }
    if n == 12 {
        assert(a =~= b);
    } else {
        assert(digit_at(a, n) != digit_at(b, n));
        assert(a[n] < b[n] <==> digit_at(a, n) < digit_at(b, n));
        lemma_fields_follow_digits(a, b, n);
    }
}

/// Where two names of twelve digits differ first at position `n`, the digits
/// there decide the order of the minutes they spell.
proof fn lemma_fields_follow_digits(a: Seq<char>, b: Seq<char>, n: int)
    requires
        0 <= n < 12,
        forall|k: int| 0 <= k < 12 ==> 0 <= #[trigger] digit_at(a, k) <= 9,
        forall|k: int| 0 <= k < 12 ==> 0 <= #[trigger] digit_at(b, k) <= 9,
        forall|k: int| 0 <= k < n ==> #[trigger] digit_at(a, k) == digit_at(b, k),
        digit_at(a, n) != digit_at(b, n),
    ensures
        stamp_time(a).earlier_than(stamp_time(b)) <==> digit_at(a, n) < digit_at(b, n),
        stamp_time(a) != stamp_time(b),
{
    let x = stamp_time(a);
    let y = stamp_time(b);
    if n < 4 {
        assert(x.year < y.year <==> digit_at(a, n) < digit_at(b, n));
        assert(x.year != y.year);
    } else if n < 6 {
        assert(x.year == y.year);
        assert(x.month < y.month <==> digit_at(a, n) < digit_at(b, n));
        assert(x.month != y.month);
    } else if n < 8 {
        assert(x.year == y.year && x.month == y.month);
        assert(x.day < y.day <==> digit_at(a, n) < digit_at(b, n));
        assert(x.day != y.day);
    } else if n < 10 {
        assert(x.year == y.year && x.month == y.month && x.day == y.day);
        assert(x.hour < y.hour <==> digit_at(a, n) < digit_at(b, n));
        assert(x.hour != y.hour);
    } else {
        assert(x.year == y.year && x.month == y.month && x.day == y.day && x.hour == y.hour);
        assert(x.minute < y.minute <==> digit_at(a, n) < digit_at(b, n));
        assert(x.minute != y.minute);
    }
}

/// Between valid snapshot names, the one that comes first in the order of
/// strings stands for the earlier minute.
pub proof fn lemma_earlier_name_is_earlier_minute(a: Seq<char>, b: Seq<char>)
    requires
        is_snapshot_name(a),
        is_snapshot_name(b),
    ensures
        lex_less(a, b) <==> stamp_time(a).minute_number() < stamp_time(b).minute_number(),
        a == b <==> stamp_time(a).minute_number() == stamp_time(b).minute_number(),
{
    lemma_lexical_order_is_chronological(a, b);
    lemma_earlier_is_fewer_minutes(stamp_time(a), stamp_time(b));
}

/// Reads the fields of a name of twelve digits; `None` for any other string.
/// Whether the fields name a minute of the calendar is not looked at.
pub fn parse_stamp(name: &str) -> (res: Option<SnapshotTime>)
    ensures
        res is Some <==> has_stamp_shape(name@),
        res matches Some(t) ==> t == stamp_time(name@),
{
    let chars = chars_of(name);
    if chars.len() != STAMP_LEN {
        return None;
    }
    let mut values: Vec<u32> = Vec::new();
    let mut i: usize = 0;
    while i < STAMP_LEN
        invariant
            chars@ == name@,
            chars.len() == STAMP_LEN,
            0 <= i <= STAMP_LEN,
            values.len() == i,
            forall|k: int| 0 <= k < i ==> is_digit(#[trigger] name@[k]),
            forall|k: int| 0 <= k < i ==> #[trigger] values[k] == digit_at(name@, k),
        decreases STAMP_LEN - i,
    {
        let c = chars[i];
        if !('0' <= c && c <= '9') {
            proof {
                assert(!is_digit(name@[i as int]));
            }
            return None;
        }
        values.push(c as u32 - 48);
        i += 1;
    }
    Some(
        SnapshotTime {
            year: values[0] * 1000 + values[1] * 100 + values[2] * 10 + values[3],
            month: values[4] * 10 + values[5],
            day: values[6] * 10 + values[7],
            hour: values[8] * 10 + values[9],
            minute: values[10] * 10 + values[11],
        },
    )
}

/// `chrono::NaiveDateTime::parse_from_str` with `STAMP_FORMAT`, asked only
/// whether it succeeds. Of a name of twelve digits it reads the first four as
/// the year and the following pairs as month, day, hour and minute, and it
/// succeeds exactly when these name a minute of the Gregorian calendar.
#[verifier::external_body]
fn chrono_reads_stamp(name: &str) -> (ok: bool)
    requires
        has_stamp_shape(name@),
    ensures
        ok == stamp_time(name@).is_calendar_time(),
{
    chrono::NaiveDateTime::parse_from_str(name, STAMP_FORMAT).is_ok()
}

/// `chrono::Local::now`, formatted with `STAMP_FORMAT`: the current minute of
/// local time. Nothing is promised of it: it is whatever the clock says.
#[verifier::external_body]
pub(crate) fn local_stamp() -> (stamp: String) {
    chrono::Local::now().format(STAMP_FORMAT).to_string()
}

/// Whether `name` is a valid snapshot name.
pub fn is_valid_snapshot_name(name: &str) -> (ok: bool)
    ensures
        ok == is_snapshot_name(name@),
{
    match parse_stamp(name) {
        Some(_) => chrono_reads_stamp(name),
        None => false,
    }
}

/// Whether `a` comes before `b` in the order of strings.
pub fn text_less(a: &str, b: &str) -> (less: bool)
    ensures
        less == lex_less(a@, b@),
{
    let x = chars_of(a);
    let y = chars_of(b);
    let mut i: usize = 0;
    while i < x.len() && i < y.len()
        invariant
            x@ == a@,
            y@ == b@,
            0 <= i <= x.len(),
            i <= y.len(),
            lex_less(a@, b@) == lex_less_from(a@, b@, i as int),
        decreases x.len() - i,
    {
        if x[i] != y[i] {
            return x[i] < y[i];
        }
        i += 1;
    }
    i < y.len()
}

/// The name of a snapshot directory: a string that is a valid snapshot name,
/// with the minute that it spells.
#[derive(Debug, PartialEq, Eq)]
pub struct SnapshotName {
    text: String,
    time: SnapshotTime,
}

impl View for SnapshotName {
    type V = Seq<char>;

    closed spec fn view(&self) -> Seq<char> {
        self.text@
    }
}

impl Clone for SnapshotName {
    fn clone(&self) -> (res: Self)
        ensures
            res@ == self@,
    {
        proof {
            use_type_invariant(self);
        }
        let text = self.text.clone();
        SnapshotName { text, time: self.time }
    }
}

impl SnapshotName {
    #[verifier::type_invariant]
    spec fn inv(self) -> bool {
        is_snapshot_name(self.text@) && self.time == stamp_time(self.text@)
    }

    /// The name, checked: `None` where `name` is not a valid snapshot name.
    pub fn new(name: &str) -> (res: Option<SnapshotName>)
        ensures
            res is Some <==> is_snapshot_name(name@),
            res matches Some(n) ==> n@ == name@,
    {
        match parse_stamp(name) {
            Some(time) => {
                if chrono_reads_stamp(name) {
                    let text = name.to_owned();
                    Some(SnapshotName { text, time })
                } else {
                    None
                }
            },
            None => None,
        }
    }

    /// The name as text.
    pub fn as_str(&self) -> (text: &str)
        ensures
            text@ == self@,
            is_snapshot_name(self@),
    {
        proof {
            use_type_invariant(self);
        }
        self.text.as_str()
    }

    /// The minute that the name spells.
    pub fn time(&self) -> (time: SnapshotTime)
        ensures
            time == stamp_time(self@),
            time.is_calendar_time(),
    {
        proof {
            use_type_invariant(self);
        }
        self.time
    }

    /// Whether this name comes before `other`: in the order of strings, which
    /// is the order of time.
    pub fn is_before(&self, other: &SnapshotName) -> (before: bool)
        ensures
            before == lex_less(self@, other@),
            before == stamp_time(self@).earlier_than(stamp_time(other@)),
            before == (stamp_time(self@).minute_number() < stamp_time(other@).minute_number()),
    {
        proof {
            use_type_invariant(self);
            use_type_invariant(other);
            lemma_lexical_order_is_chronological(self@, other@);
            lemma_earlier_name_is_earlier_minute(self@, other@);
        }
        text_less(self.text.as_str(), other.text.as_str())
    }
}

} // verus!

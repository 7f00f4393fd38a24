//! Identifier generation: the stamp of a moment, the step from one resolved
//! identifier to the next, and the candidate that follows a previous
//! identifier.

use vstd::prelude::*;
use crate::classifier::{has_digits, is_digit, is_digit_string, is_resolved};

verus! {

/// A moment of local wall-clock time, to the minute.
#[derive(Clone, Copy, Debug)]
pub struct Timestamp {
    pub year: i32,
    pub month: u8,
    pub day: u8,
    pub hour: u8,
    pub minute: u8,
}

impl Timestamp {
    /// The fields lie in the ranges of a calendar date and a clock time.
    pub open spec fn wf(&self) -> bool {
        &&& 1 <= self.month <= 12
        &&& 1 <= self.day <= 31
        &&& self.hour <= 23
        &&& self.minute <= 59
    }
}

/// The value of a decimal digit.
pub open spec fn digit_value(c: char) -> int {
    c as int - '0' as int
}

/// The decimal digit that stands for `d`, for `d` from 0 to 9.
pub open spec fn digit_char(d: int) -> char {
    if d == 0 {
        '0'
    } else if d == 1 {
        '1'
    } else if d == 2 {
        '2'
    } else if d == 3 {
        '3'
    } else if d == 4 {
        '4'
    } else if d == 5 {
        '5'
    } else if d == 6 {
        '6'
    } else if d == 7 {
        '7'
    } else if d == 8 {
        '8'
    } else {
        '9'
    }
}

/// The decimal form of `n`, padded with a zero to two digits; three digits
/// from 100 on (for `n` below 1000).
pub open spec fn pad2(n: int) -> Seq<char> {
    if n < 100 {
        seq![digit_char(n / 10), digit_char(n % 10)]
    } else {
        seq![digit_char(n / 100), digit_char((n / 10) % 10), digit_char(n % 10)]
    }
}

/// The number written by the two digits of `s` at `at` and `at + 1`.
pub open spec fn field_value(s: Seq<char>, at: int) -> int {
    digit_value(s[at]) * 10 + digit_value(s[at + 1])
}

/// The identifier one minute after `s`. Minute 59 becomes minute 0 of the
/// next hour; any other minute grows by one. The hour never rolls into the
/// day: the six leading digits are carried through, and an hour or minute
/// that reaches 100 is written with three digits. An identifier that is not
/// resolved is its own successor.
pub open spec fn increment(s: Seq<char>) -> Seq<char> {
    if !is_resolved(s) {
        s
    } else if field_value(s, 8) == 59 {
        s.subrange(0, 6) + pad2(field_value(s, 6) + 1) + pad2(0)
    } else {
        s.subrange(0, 6) + pad2(field_value(s, 6)) + pad2(field_value(s, 8) + 1)
    }
}

/// The text of one decimal digit.
fn digit_str(d: u8) -> (r: &'static str)
    requires
        d < 10,
    ensures
        r@ == seq![digit_char(d as int)],
{
    proof {
        reveal_strlit("0");
        reveal_strlit("1");
        reveal_strlit("2");
        reveal_strlit("3");
        reveal_strlit("4");
        reveal_strlit("5");
        reveal_strlit("6");
        reveal_strlit("7");
        reveal_strlit("8");
        reveal_strlit("9");
    }
    let r = match d {
        0 => "0",
        1 => "1",
        2 => "2",
        3 => "3",
        4 => "4",
        5 => "5",
        6 => "6",
        7 => "7",
        8 => "8",
        _ => "9",
    };
    assert(r@ =~= seq![digit_char(d as int)]);
    r
}

/// Appends `n` in decimal, at least two digits wide.
pub fn push_padded(out: &mut String, n: u8)
    ensures
        final(out)@ == old(out)@ + pad2(n as int),
{
    if n >= 100 {
        out.append(digit_str(n / 100));
        out.append(digit_str((n / 10) % 10));
        out.append(digit_str(n % 10));
        assert(out@ =~= old(out)@ + pad2(n as int));
    } else {
        out.append(digit_str(n / 10));
        out.append(digit_str(n % 10));
        assert(out@ =~= old(out)@ + pad2(n as int));
    }
}

/// Reads the two-digit number at `at` in a string of digits.
fn read_field(s: &str, at: usize) -> (v: u8)
    requires
        at + 1 < s@.len(),
        at < usize::MAX,
        forall|i: int| 0 <= i < s@.len() ==> is_digit(#[trigger] s@[i]),
    ensures
        v == field_value(s@, at as int),
        v <= 99,
{
    assert(s.is_ascii());
    assert(is_digit(s@[at as int]));
    assert(is_digit(s@[at + 1]));
    let hi: u8 = s.get_ascii(at);
    let lo: u8 = s.get_ascii(at + 1);
    (hi - 48) * 10 + (lo - 48)
}

/// Advances an identifier by one minute.
pub fn increment_date_id(s: &str) -> (r: String)
    ensures
        r@ == increment(s@),
        !is_resolved(s@) ==> r@ == s@,
{
    if !has_digits(s, 10) {
        return s.to_owned();
    }
    assert(s.is_ascii());
    let hour: u8 = read_field(s, 6);
    let minute: u8 = read_field(s, 8);
    let mut out = String::from_str(s.substring_ascii(0, 6));
    if minute == 59 {
        push_padded(&mut out, hour + 1);
        push_padded(&mut out, 0);
    } else {
        push_padded(&mut out, hour);
        push_padded(&mut out, minute + 1);
    }
    out
}

/// The stamp of a moment: `YYMMDDHHmm`, the year taken modulo 100.
pub open spec fn stamp(t: Timestamp) -> Seq<char> {
    pad2(t.year as int % 100) + pad2(t.month as int) + pad2(t.day as int) + pad2(t.hour as int)
        + pad2(t.minute as int)
}

/// The candidate that follows `previous`: one minute after it where it is
/// resolved, the stamp of `now` where it is not.
pub open spec fn candidate_after(previous: Seq<char>, now: Timestamp) -> Seq<char> {
    if is_resolved(previous) {
        increment(previous)
    } else {
        stamp(now)
    }
}

/// The stamp of a well-formed moment is a resolved identifier.
pub proof fn lemma_stamp_resolved(t: Timestamp)
    requires
        t.wf(),
    ensures
        is_resolved(stamp(t)),
{
    lemma_pad2_shape(t.year as int % 100);
    lemma_pad2_shape(t.month as int);
    lemma_pad2_shape(t.day as int);
    lemma_pad2_shape(t.hour as int);
    lemma_pad2_shape(t.minute as int);
}

/// A stamp has ten characters or more, so it is no placeholder.
pub proof fn lemma_stamp_len(t: Timestamp)
    ensures
        stamp(t).len() >= 10,
{
}

/// `steps` minutes after `s`.
pub open spec fn advance(s: Seq<char>, steps: nat) -> Seq<char>
    decreases steps,
{
    if steps == 0 {
        s
    } else {
        increment(advance(s, (steps - 1) as nat))
    }
}

/// An identifier with an hour or a minute of three digits: eleven digits.
/// It is where the successor of a resolved identifier ends when the hour
/// or the minute passes 99.
pub open spec fn is_overflowed(s: Seq<char>) -> bool {
    is_digit_string(s, 11)
}

/// A padded number below 1000 is made of digits: two below 100, three
/// from 100 on.
pub proof fn lemma_pad2_shape(n: int)
    requires
        0 <= n < 1000,
    ensures
        n < 100 ==> is_digit_string(pad2(n), 2),
        n >= 100 ==> is_digit_string(pad2(n), 3),
{
}

/// The successor of a resolved identifier keeps the six leading digits and
/// is resolved or overflowed.
pub proof fn lemma_increment_shape(s: Seq<char>)
    requires
        is_resolved(s),
    ensures
        is_resolved(increment(s)) || is_overflowed(increment(s)),
        increment(s).subrange(0, 6) == s.subrange(0, 6),
{
    let hour = field_value(s, 6);
    let minute = field_value(s, 8);
    assert(is_digit(s[6]) && is_digit(s[7]) && is_digit(s[8]) && is_digit(s[9]));
    assert(0 <= hour <= 99 && 0 <= minute <= 99);
    let head = s.subrange(0, 6);
    let first = if minute == 59 {
        pad2(hour + 1)
    } else {
        pad2(hour)
    };
    let second = if minute == 59 {
        pad2(0)
    } else {
        pad2(minute + 1)
    };
    let r = increment(s);
    assert(r == head + first + second);
    lemma_pad2_shape(hour);
    lemma_pad2_shape(hour + 1);
    lemma_pad2_shape(minute + 1);
    lemma_pad2_shape(0);
    assert(r.subrange(0, 6) =~= head);
    assert forall|i: int| 0 <= i < r.len() implies is_digit(#[trigger] r[i]) by {
        if i < 6 {
            assert(r[i] == s[i]);
        } else if i < 6 + first.len() {
            assert(r[i] == first[i - 6]);
        } else {
            assert(r[i] == second[i - 6 - first.len()]);
        }
    }
}

/// The hour and minute digits of an identifier, read as one number.
pub open spec fn clock_value(s: Seq<char>) -> int {
    field_value(s, 6) * 100 + field_value(s, 8)
}

/// The two digits of a padded number below 100 write that number.
pub proof fn lemma_pad2_value(n: int)
    requires
        0 <= n < 100,
    ensures
        field_value(pad2(n), 0) == n,
{
}

/// A resolved identifier whose successor is resolved too lies before it on
/// the clock.
pub proof fn lemma_increment_grows(s: Seq<char>)
    requires
        is_resolved(s),
        is_resolved(increment(s)),
    ensures
        clock_value(s) < clock_value(increment(s)),
{
    let hour = field_value(s, 6);
    let minute = field_value(s, 8);
    assert(is_digit(s[6]) && is_digit(s[7]) && is_digit(s[8]) && is_digit(s[9]));
    assert(0 <= hour <= 99 && 0 <= minute <= 99);
    let next_hour = if minute == 59 {
        hour + 1
    } else {
        hour
    };
    let next_minute = if minute == 59 {
        0
    } else {
        minute + 1
    };
    let r = increment(s);
    assert(r == s.subrange(0, 6) + pad2(next_hour) + pad2(next_minute));
    assert(next_hour < 100 && next_minute < 100) by {
        if next_hour >= 100 || next_minute >= 100 {
            assert(r.len() > 10);
        }
    }
    let first = pad2(next_hour);
    let second = pad2(next_minute);
    assert(r[6] == first[0] && r[7] == first[1] && r[8] == second[0] && r[9] == second[1]);
    lemma_pad2_value(next_hour);
    lemma_pad2_value(next_minute);
    assert(field_value(r, 6) == next_hour);
    assert(field_value(r, 8) == next_minute);
}

/// Where the identifier `later` minutes on is resolved, so is the one
/// `sooner` minutes on, and it lies before it on the clock: the identifiers
/// on the way to a resolved one are all different.
pub proof fn lemma_advance_grows(s: Seq<char>, sooner: nat, later: nat)
    requires
        sooner < later,
        is_resolved(advance(s, later)),
    ensures
        is_resolved(advance(s, sooner)),
        clock_value(advance(s, sooner)) < clock_value(advance(s, later)),
        advance(s, sooner) != advance(s, later),
    decreases later,
{
    let before = advance(s, (later - 1) as nat);
    assert(advance(s, later) == increment(before));
    assert(is_resolved(before));
    lemma_increment_grows(before);
    if sooner < later - 1 {
        lemma_advance_grows(s, sooner, (later - 1) as nat);
    }
}

/// An identifier of ten characters or more has a successor of ten
/// characters or more.
pub proof fn lemma_increment_len(s: Seq<char>)
    requires
        s.len() >= 10,
    ensures
        increment(s).len() >= 10,
{
}

/// The year within its century.
fn year_of_century(year: i32) -> (yy: u8)
    ensures
        yy as int == year as int % 100,
{
    if year >= 0 {
        (year % 100) as u8
    } else {
        (99 - (-(year + 1)) % 100) as u8
    }
}

/// Formats a moment as its ten-digit stamp.
pub fn current_stamp(now: &Timestamp) -> (r: String)
    ensures
        r@ == stamp(*now),
        now.wf() ==> is_resolved(r@),
{
    let yy: u8 = year_of_century(now.year);
    let mut out = String::new();
    push_padded(&mut out, yy);
    push_padded(&mut out, now.month);
    push_padded(&mut out, now.day);
    push_padded(&mut out, now.hour);
    push_padded(&mut out, now.minute);
    proof {
        assert(Seq::<char>::empty() + pad2(yy as int) =~= pad2(yy as int));
        if now.wf() {
            lemma_stamp_resolved(*now);
        }
    }
    out
}

/// The candidate identifier for the record that follows one whose
/// identifier is `previous`.
pub fn next_candidate(previous: &str, now: &Timestamp) -> (r: String)
    ensures
        r@ == candidate_after(previous@, *now),
        is_resolved(previous@) ==> r@ == increment(previous@),
        !is_resolved(previous@) ==> r@ == stamp(*now),
{
    if has_digits(previous, 10) {
        increment_date_id(previous)
    } else {
        current_stamp(now)
    }
}

} // verus!

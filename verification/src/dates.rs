//! The date helper interface: calendar dates as plain values, and the
//! resolution of natural-language or explicit date tokens through the
//! `timewarp` crate.

use vstd::prelude::*;

use crate::chars::spec_is_digit;
use crate::error::SuchError;
use crate::num::{spec_digits_end, spec_digits_val};

verus! {

/// Whether a date token names the first or the last moment of a range: a bare
/// month like `Feb` means its first day when used as a lower bound (`From`)
/// and the first day after it when used as an upper bound (`To`).
#[derive(Copy, Clone, Eq, PartialEq, Debug, Structural)]
pub enum Direction {
    From,
    To,
}

/// A calendar date as plain values.
#[derive(Copy, Clone, Eq, PartialEq, Debug, Structural)]
pub struct Date {
    pub year: i32,
    pub month: u8,
    pub day: u8,
}

/// A date the resolver accepts as an anchor: a real month, a day number, and
/// a four-digit year.
pub open spec fn valid_date(d: Date) -> bool {
    1 <= d.month <= 12 && 1 <= d.day <= 31 && 0 <= d.year <= 9999
}

impl Date {
    /// A date from year, month and day.
    pub fn new(year: i32, month: u8, day: u8) -> (r: Date)
        ensures
            r.year == year && r.month == month && r.day == day,
    {
        Date { year, month, day }
    }

    /// Whether this date can anchor date resolution.
    pub fn is_valid(&self) -> (r: bool)
        ensures
            r == valid_date(*self),
    {
        1 <= self.month && self.month <= 12 && 1 <= self.day && self.day <= 31 && 0 <= self.year
            && self.year <= 9999
    }
}

/// Whether `s` holds a `w` or `W`, the letter every week-number date form
/// carries.
pub open spec fn spec_has_w(s: Seq<char>) -> bool {
    exists|i: int| 0 <= i < s.len() && (s[i] == 'w' || s[i] == 'W')
}

/// Whether the maximal digit run starting at `i` makes the date resolver
/// unsafe to call: an all-zero run can parse as month or week zero, a
/// two-digit run of 54 to 59 beside a week marker can parse as an
/// out-of-range week number, and seven or more digits right after a sign can
/// parse as an oversized day offset.
pub open spec fn spec_run_bad(s: Seq<char>, i: int) -> bool {
    let e = spec_digits_end(s, i);
    (forall|j: int| i <= j < e ==> s[j] == '0') || (spec_has_w(s) && e - i == 2
        && 54 <= spec_digits_val(s.subrange(i, e)) <= 59) || (e - i >= 7 && i > 0 && (s[i - 1]
        == '+' || s[i - 1] == '-'))
}

/// Whether `s` holds any digit run the date resolver must not see; such
/// tokens are rejected before the resolver is called.
pub open spec fn spec_date_guard(s: Seq<char>) -> bool {
    exists|i: int|
        0 <= i < s.len() && spec_is_digit(s[i]) && (i == 0 || !spec_is_digit(s[i - 1]))
            && spec_run_bad(s, i)
}

fn has_w(v: &Vec<char>) -> (r: bool)
    ensures
        r == spec_has_w(v@),
{
    let mut i: usize = 0;
    while i < v.len()
        invariant
            i <= v@.len(),
            forall|j: int| 0 <= j < i ==> v@[j] != 'w' && v@[j] != 'W',
        decreases v@.len() - i,
    {
        if v[i] == 'w' || v[i] == 'W' {
            return true;
        }
        i += 1;
    }
    false
}

fn digits_end_exec(v: &Vec<char>, i: usize) -> (r: usize)
    requires
        i <= v@.len(),
    ensures
        r == spec_digits_end(v@, i as int),
        i <= r <= v@.len(),
        forall|j: int| i <= j < r ==> spec_is_digit(v@[j]),
    decreases v@.len() - i,
{
    if i < v.len() && crate::chars::is_digit(v[i]) {
        digits_end_exec(v, i + 1)
    } else {
        i
    }
}

fn run_bad(v: &Vec<char>, i: usize, w: bool) -> (r: bool)
    requires
        i < v@.len(),
        w == spec_has_w(v@),
        spec_is_digit(v@[i as int]),
    ensures
        r == spec_run_bad(v@, i as int),
{
    let e = digits_end_exec(v, i);
    let mut all_zero = true;
    let mut j: usize = i;
    while j < e
        invariant
            i <= j <= e <= v@.len(),
            e == spec_digits_end(v@, i as int),
            all_zero == (forall|k: int| i <= k < j ==> v@[k] == '0'),
        decreases e - j,
    {
        if v[j] != '0' {
            all_zero = false;
            proof {
                assert(!(forall|k: int| i <= k < j + 1 ==> v@[k] == '0'));
            }
        }
        j += 1;
    }
    if all_zero {
        return true;
    }
    if w && e - i == 2 {
        let d0 = v[i];
        let d1 = v[i + 1];
        proof {
            let run = v@.subrange(i as int, e as int);
            assert(run.len() == 2);
            assert(run[0] == d0 && run[1] == d1);
            let r1 = run.drop_last();
            assert(r1.len() == 1 && r1[0] == d0);
            assert(r1.drop_last() =~= Seq::<char>::empty());
            assert(spec_digits_val(r1.drop_last()) == 0);
            assert(spec_digits_val(r1) == d0 as int - '0' as int);
            assert(spec_digits_val(run) == (d0 as int - '0' as int) * 10 + (d1 as int
                - '0' as int));
        }
        let val: u32 = ((d0 as u32) - ('0' as u32)) * 10 + ((d1 as u32) - ('0' as u32));
        if 54 <= val && val <= 59 {
            return true;
        }
    }
    if e - i >= 7 && i > 0 && (v[i - 1] == '+' || v[i - 1] == '-') {
        return true;
    }
    false
}

/// Whether the date resolver must not be called on `v`; see
/// [`spec_date_guard`].
pub fn date_guard(v: &Vec<char>) -> (r: bool)
    ensures
        r == spec_date_guard(v@),
{
    let w = has_w(v);
    let mut i: usize = 0;
    while i < v.len()
        invariant
            i <= v@.len(),
            w == spec_has_w(v@),
            forall|j: int|
                0 <= j < i && spec_is_digit(v@[j]) && (j == 0 || !spec_is_digit(v@[j - 1]))
                    ==> !spec_run_bad(v@, j),
        decreases v@.len() - i,
    {
        if crate::chars::is_digit(v[i]) && (i == 0 || !crate::chars::is_digit(v[i - 1])) {
            if run_bad(v, i, w) {
                return true;
            }
        }
        i += 1;
    }
    false
}

/// An ISO-formatted date: at least ten characters, all of them digits or
/// dashes.
pub open spec fn date_shaped(s: Seq<char>) -> bool {
    s.len() >= 10 && forall|i: int| 0 <= i < s.len() ==> (spec_is_digit(s[i]) || s[i] == '-')
}

/// What the date resolver answers for a token `val` resolved against the
/// anchor date, reading `val` as a lower bound (`From`) or an upper bound
/// (`To`): the inclusive start day of the resolved range in ISO form, or
/// nothing when the token is not a date.
pub uninterp spec fn spec_resolved_date(
    today_year: int,
    today_month: int,
    today_day: int,
    to_direction: bool,
    val: Seq<char>,
) -> Option<Seq<char>>;

/// Relies on `timewarp::date_matcher` (reached through `Doy::from_ymd`, and
/// `Tempus::start` with `Doy`'s alternate formatting on the way out): the
/// token is resolved against `today`, and the inclusive start of the
/// resulting range comes back as ISO `yyyy-mm-dd`, so digits and dashes only.
/// The guard over `val` keeps out the token shapes on which `date_matcher`
/// does not return: a zero month or week number and day offsets of seven or
/// more digits.
#[verifier::external_body]
pub(crate) fn resolve_date(today: &Date, dir: Direction, val: &str) -> (r: Result<
    String,
    SuchError,
>)
    requires
        valid_date(*today),
        !spec_date_guard(val@),
    ensures
        (r is Ok) == (spec_resolved_date(
            today.year as int,
            today.month as int,
            today.day as int,
            dir is To,
            val@,
        ) is Some),
        r is Ok ==> r->Ok_0@ == spec_resolved_date(
            today.year as int,
            today.month as int,
            today.day as int,
            dir is To,
            val@,
        )->Some_0,
        r is Ok ==> date_shaped(r->Ok_0@),
        r is Err ==> r->Err_0 is ParseError,
{
    let doy = timewarp::Doy::from_ymd(today.year, today.month as i32, today.day as i32);
    let d = match dir {
        Direction::From => timewarp::Direction::From,
        Direction::To => timewarp::Direction::To,
    };
    match timewarp::date_matcher(doy, d, val) {
        Ok(t) => Ok(format!("{:#}", t.start())),
        Err(e) => Err(SuchError::ParseError(e.to_string())),
    }
}

/// Relies on `timewarp::Doy::today` (read out through `Doy::month` and
/// `Doy::day_of_month`) for the clock; nothing is promised of the values.
#[verifier::external_body]
fn today_ymd() -> (r: (i32, i32, i32)) {
    let d = timewarp::Doy::today();
    (d.year, d.month() as i32, d.day_of_month())
}

/// Today's date from the system clock; a fixed fallback date stands in on
/// the rare clock readings the resolver could not anchor.
pub fn today() -> (r: Date)
    ensures
        valid_date(r),
{
    let (y, m, d) = today_ymd();
    if 1 <= m && m <= 12 && 1 <= d && d <= 31 && 0 <= y && y <= 9999 {
        Date { year: y, month: m as u8, day: d as u8 }
    } else {
        Date { year: 2000, month: 1, day: 1 }
    }
}

} // verus!

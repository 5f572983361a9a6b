use vstd::prelude::*;
use crate::date::{max_date, min_date, next_of, plus_days_sat, prev_of, valid_date, Date};
use crate::datestr::{
    digit_val, is_digit_char, parse_canon, parse_dashed, trim_spec, digit_value, trim,
};
use crate::error::Error;

verus! {

/// The keyword vocabulary for the reference date itself.
pub open spec fn keyword_today(t: Seq<char>) -> bool {
    t == "today"@ || t == "t"@
}

/// The keyword vocabulary for the day before the reference date.
pub open spec fn keyword_yesterday(t: Seq<char>) -> bool {
    t == "yesterday"@ || t == "y"@
}

/// The keyword vocabulary for the day after the reference date.
pub open spec fn keyword_tomorrow(t: Seq<char>) -> bool {
    t == "tomorrow"@ || t == "m"@
}

pub open spec fn all_digits(t: Seq<char>) -> bool {
    forall|i: int| 0 <= i < t.len() ==> is_digit_char(t[i])
}

/// A signed day offset: an optional sign followed by digits. An unsigned
/// run of exactly eight digits is not an offset: it is an absolute
/// YYYYMMDD date, which keeps the two readings apart.
pub open spec fn is_offset_literal(t: Seq<char>) -> bool {
    if t.len() > 0 && (t[0] == '+' || t[0] == '-') {
        t.len() > 1 && all_digits(t.subrange(1, t.len() as int))
    } else {
        t.len() > 0 && all_digits(t) && t.len() != 8
    }
}

/// The number denoted by a run of decimal digits.
pub open spec fn digits_val(t: Seq<char>) -> int
    decreases t.len(),
{
    if t.len() == 0 {
        0
    } else {
        digits_val(t.drop_last()) * 10 + digit_val(t.last())
    }
}

/// The signed value of an offset literal.
pub open spec fn offset_val(t: Seq<char>) -> int {
    if t.len() > 0 && t[0] == '-' {
        -digits_val(t.subrange(1, t.len() as int))
    } else if t.len() > 0 && t[0] == '+' {
        digits_val(t.subrange(1, t.len() as int))
    } else {
        digits_val(t)
    }
}

/// Day-of-month shorthand: the letter m followed by exactly two digits.
pub open spec fn is_day_shorthand(t: Seq<char>) -> bool {
    t.len() == 3 && t[0] == 'm' && is_digit_char(t[1]) && is_digit_char(t[2])
}

/// The day-of-month shorthand replaces the day in the reference month;
/// an invalid resulting date is an error, not a clamp.
pub open spec fn day_shorthand_of(t: Seq<char>, reference: Date) -> Option<Date> {
    let dd = digit_val(t[1]) * 10 + digit_val(t[2]);
    if valid_date(reference.year as int, reference.month as int, dd) {
        Some(Date { year: reference.year, month: reference.month, day: dd as u8 })
    } else {
        None
    }
}

/// Month-and-day shorthand: the letters ye followed by exactly four digits,
/// read as MMDD within the reference year.
pub open spec fn is_mmdd_shorthand(t: Seq<char>) -> bool {
    t.len() == 6 && t[0] == 'y' && t[1] == 'e' && is_digit_char(t[2]) && is_digit_char(t[3])
        && is_digit_char(t[4]) && is_digit_char(t[5])
}

pub open spec fn mmdd_shorthand_of(t: Seq<char>, reference: Date) -> Option<Date> {
    let m = digit_val(t[2]) * 10 + digit_val(t[3]);
    let dd = digit_val(t[4]) * 10 + digit_val(t[5]);
    if valid_date(reference.year as int, m, dd) {
        Some(Date { year: reference.year, month: m as u8, day: dd as u8 })
    } else {
        None
    }
}

/// The date a user expression denotes against a reference date, or `None`
/// when the expression resolves to no date. Resolution order, first match
/// wins on the trimmed input: empty input means the reference date; then
/// the keyword vocabulary; then a signed day offset, saturating at the
/// calendar bounds; then the two shorthands; then the absolute formats
/// YYYY-MM-DD and YYYYMMDD.
pub open spec fn resolve_ok(s: Seq<char>, reference: Date) -> Option<Date> {
    let t = trim_spec(s);
    if t.len() == 0 {
        Some(reference)
    } else if keyword_today(t) {
        Some(reference)
    } else if keyword_yesterday(t) {
        if reference == min_date() {
            None
        } else {
            Some(prev_of(reference))
        }
    } else if keyword_tomorrow(t) {
        if reference == max_date() {
            None
        } else {
            Some(next_of(reference))
        }
    } else if is_offset_literal(t) {
        Some(plus_days_sat(reference, offset_val(t)))
    } else if is_day_shorthand(t) {
        day_shorthand_of(t, reference)
    } else if is_mmdd_shorthand(t) {
        mmdd_shorthand_of(t, reference)
    } else if parse_dashed(t) is Some {
        parse_dashed(t)
    } else {
        parse_canon(t)
    }
}

/// The inputs on which resolution fails with a range error rather than an
/// invalid-date error: yesterday of the minimum date, tomorrow of the
/// maximum date.
pub open spec fn resolve_out_of_range(s: Seq<char>, reference: Date) -> bool {
    let t = trim_spec(s);
    &&& t.len() > 0
    &&& !keyword_today(t)
    &&& ((keyword_yesterday(t) && reference == min_date()) || (!keyword_yesterday(t)
        && keyword_tomorrow(t) && reference == max_date()))
}

/// Character-by-character string equality.
pub fn str_eq(a: &str, b: &str) -> (r: bool)
    ensures
        r == (a@ == b@),
{
    let n = a.unicode_len();
    if n != b.unicode_len() {
        return false;
    }
    let mut i: usize = 0;
    while i < n
        invariant
            0 <= i <= n,
            n == a@.len(),
            n == b@.len(),
            forall|j: int| 0 <= j < i ==> a@[j] == b@[j],
        decreases n - i,
    {
        if a.get_char(i) != b.get_char(i) {
            return false;
        }
        i = i + 1;
    }
    proof {
        assert(a@ =~= b@);
    }
    true
}

/// The clamped accumulator either holds the exact digit value or sits at
/// the clamp with the digit value at or above it.
pub open spec fn acc_tracks(acc: int, p: Seq<char>) -> bool {
    (acc == digits_val(p) && digits_val(p) <= 99991231) || (acc == 99991231 && digits_val(p)
        >= 99991231)
}

/// Reads an offset literal, clamping its magnitude at a value past every
/// calendar distance so that saturation is unaffected.
fn parse_offset(t: &str) -> (r: Option<i64>)
    ensures
        r is Some <==> is_offset_literal(t@),
        r matches Some(v) ==> -99991231 <= v <= 99991231 && (offset_val(t@) == v as int || (v
            == 99991231 && offset_val(t@) >= 99991231) || (v == -99991231 && offset_val(t@)
            <= -99991231)),
{
    let n = t.unicode_len();
    if n == 0 {
        return None;
    }
    let c0 = t.get_char(0);
    let neg: bool = c0 == '-';
    let signed: bool = c0 == '-' || c0 == '+';
    let start: usize = if signed {
        1
    } else {
        0
    };
    if signed && n == 1 {
        return None;
    }
    if !signed && n == 8 {
        return None;
    }
    let ghost digits = t@.subrange(start as int, n as int);
    let mut i: usize = start;
    let mut acc: i64 = 0;
    while i < n
        invariant
            start <= i <= n,
            n == t@.len(),
            signed ==> start == 1,
            !signed ==> start == 0,
            signed == (t@[0] == '+' || t@[0] == '-'),
            0 <= acc <= 99991231,
            digits == t@.subrange(start as int, n as int),
            forall|j: int| start <= j < i ==> is_digit_char(t@[j]),
            acc_tracks(acc as int, t@.subrange(start as int, i as int)),
        decreases n - i,
    {
        let ghost p = t@.subrange(start as int, i as int);
        match digit_value(t.get_char(i)) {
            None => {
                proof {
                    assert(!is_digit_char(t@[i as int]));
                    if signed {
                        assert(t@.subrange(1, n as int)[i - 1] == t@[i as int]);
                        assert(!is_digit_char(t@.subrange(1, n as int)[i - 1]));
                        assert(!all_digits(t@.subrange(1, n as int)));
                    } else {
                        assert(!all_digits(t@));
                    }
                    assert(!is_offset_literal(t@));
                }
                return None;
            },
            Some(v) => {
                proof {
                    let p2 = t@.subrange(start as int, i + 1);
                    assert(p2.drop_last() =~= p);
                    assert(digits_val(p2) == digits_val(p) * 10 + digit_val(t@[i as int]));
                }
                let next: i64 = acc * 10 + (v as i64);
                acc = if next > 99991231 {
                    99991231
                } else {
                    next
                };
            },
        }
        i = i + 1;
    }
    proof {
        assert(t@.subrange(start as int, i as int) =~= digits);
        if signed {
            let part = t@.subrange(1, n as int);
            assert(part =~= digits);
            assert forall|j: int| 0 <= j < part.len() implies is_digit_char(part[j]) by {
                assert(part[j] == t@[j + 1]);
            }
            assert(is_offset_literal(t@));
        } else {
            assert(digits =~= t@);
            assert(forall|j: int| 0 <= j < t@.len() ==> is_digit_char(t@[j]));
            assert(is_offset_literal(t@));
        }
        assert(acc_tracks(acc as int, digits));
    }
    if neg {
        Some(-acc)
    } else {
        Some(acc)
    }
}

impl Date {
    /// Resolves a user date expression against a reference date (normally
    /// the current date). On success the returned date is exactly what
    /// `resolve_ok` denotes; a range error comes exactly on yesterday of
    /// the minimum date or tomorrow of the maximum date; every other
    /// failure reports the trimmed input as an invalid date.
    pub fn resolve(input: &str, reference: Date) -> (r: Result<Date, Error>)
        requires
            reference.wf(),
        ensures
            r matches Ok(d) ==> resolve_ok(input@, reference) == Some(d) && d.wf(),
            r is Err ==> resolve_ok(input@, reference) is None,
            r matches Err(e) ==> (e is OutOfRange <==> resolve_out_of_range(input@, reference)),
            r matches Err(e) ==> (e is OutOfRange || e is InvalidDate),
            r matches Err(e) ==> (e matches Error::InvalidDate(s) ==> s@ == trim_spec(input@)),
    {
        let t = trim(input);
        let n = t.unicode_len();
        if n == 0 {
            return Ok(reference);
        }
        if str_eq(t, "today") || str_eq(t, "t") {
            return Ok(reference);
        }
        if str_eq(t, "yesterday") || str_eq(t, "y") {
            return match reference.previous_day() {
                Some(d) => Ok(d),
                None => Err(Error::OutOfRange),
            };
        }
        if str_eq(t, "tomorrow") || str_eq(t, "m") {
            return match reference.next_day() {
                Some(d) => Ok(d),
                None => Err(Error::OutOfRange),
            };
        }
        if let Some(off) = parse_offset(t) {
            proof {
                crate::date::lemma_key_bounds(reference);
                if off == 99991231 && offset_val(t@) != off as int {
                    crate::date::lemma_sat_hits_max(reference, offset_val(t@));
                    crate::date::lemma_sat_hits_max(reference, off as int);
                }
                if off == -99991231 && offset_val(t@) != off as int {
                    crate::date::lemma_sat_hits_min(reference, offset_val(t@));
                    crate::date::lemma_sat_hits_min(reference, off as int);
                }
            }
            return Ok(reference.add_days_saturating(off));
        }
        if n == 3 && t.get_char(0) == 'm' {
            if let (Some(a), Some(b)) = (digit_value(t.get_char(1)), digit_value(t.get_char(2))) {
                let dd: u8 = a * 10 + b;
                return match Date::new(reference.year as i32, reference.month, dd) {
                    Ok(d) => Ok(d),
                    Err(_) => Err(Error::InvalidDate(t.to_owned())),
                };
            }
        }
        if n == 6 && t.get_char(0) == 'y' && t.get_char(1) == 'e' {
            if let (Some(a), Some(b), Some(c), Some(e)) = (
                digit_value(t.get_char(2)),
                digit_value(t.get_char(3)),
                digit_value(t.get_char(4)),
                digit_value(t.get_char(5)),
            ) {
                let m: u8 = a * 10 + b;
                let dd: u8 = c * 10 + e;
                return match Date::new(reference.year as i32, m, dd) {
                    Ok(d) => Ok(d),
                    Err(_) => Err(Error::InvalidDate(t.to_owned())),
                };
            }
        }
        if let Some(d) = Date::parse_dashed_str(t) {
            return Ok(d);
        }
        if let Some(d) = Date::parse_canonical(t) {
            return Ok(d);
        }
        Err(Error::InvalidDate(t.to_owned()))
    }
}

/// Law: any valid date rendered in canonical YYYYMMDD form resolves back
/// to exactly that date, whatever the reference date.
pub proof fn lemma_resolve_canonical_round_trip(d: Date, reference: Date)
    requires
        d.wf(),
        reference.wf(),
    ensures
        resolve_ok(crate::datestr::canon_chars(d), reference) == Some(d),
{
    let t = crate::datestr::canon_chars(d);
    crate::datestr::lemma_canon_round_trip(d);
    crate::datestr::lemma_digit_not_space(t[0]);
    crate::datestr::lemma_digit_not_space(t[7]);
    crate::datestr::lemma_trim_id(t);
    reveal_strlit("today");
    reveal_strlit("t");
    reveal_strlit("yesterday");
    reveal_strlit("y");
    reveal_strlit("tomorrow");
    reveal_strlit("m");
    assert(t != "tomorrow"@) by {
        assert(is_digit_char(t[0]));
        assert("tomorrow"@[0] == 't');
    }
    assert(!is_offset_literal(t)) by {
        assert(is_digit_char(t[0]));
    }
}

/// Law: any valid date rendered in dashed YYYY-MM-DD form resolves back to
/// exactly that date, whatever the reference date.
pub proof fn lemma_resolve_dashed_round_trip(d: Date, reference: Date)
    requires
        d.wf(),
        reference.wf(),
    ensures
        resolve_ok(crate::datestr::dashed_chars(d), reference) == Some(d),
{
    let t = crate::datestr::dashed_chars(d);
    crate::datestr::lemma_dashed_round_trip(d);
    assert(is_digit_char(t[0]) && is_digit_char(t[9]));
    crate::datestr::lemma_digit_not_space(t[0]);
    crate::datestr::lemma_digit_not_space(t[9]);
    crate::datestr::lemma_trim_id(t);
    reveal_strlit("today");
    reveal_strlit("t");
    reveal_strlit("yesterday");
    reveal_strlit("y");
    reveal_strlit("tomorrow");
    reveal_strlit("m");
    assert(!is_offset_literal(t)) by {
        assert(t[4] == '-');
        assert(!is_digit_char(t[4]));
        assert(!all_digits(t));
        assert(is_digit_char(t[0]));
    }
}

/// Law: the keyword today resolves to the reference date itself.
pub proof fn lemma_resolve_today(reference: Date)
    requires
        reference.wf(),
    ensures
        resolve_ok("today"@, reference) == Some(reference),
{
    reveal_strlit("today");
    let t = "today"@;
    crate::datestr::lemma_trim_id(t);
}

/// Law: the keyword yesterday resolves to the day before the reference
/// date; the one input left out is the minimum date, where it is a range
/// error instead.
pub proof fn lemma_resolve_yesterday(reference: Date)
    requires
        reference.wf(),
        reference != min_date(),
    ensures
        resolve_ok("yesterday"@, reference) == Some(plus_days_sat(reference, -1)),
{
    reveal_strlit("yesterday");
    reveal_strlit("today");
    reveal_strlit("t");
    let t = "yesterday"@;
    crate::datestr::lemma_trim_id(t);
    assert(plus_days_sat(prev_of(reference), 0) == prev_of(reference));
    assert(plus_days_sat(reference, -1) == prev_of(reference));
}

/// Law: the keyword tomorrow resolves to the day after the reference date;
/// the one input left out is the maximum date, where it is a range error
/// instead.
pub proof fn lemma_resolve_tomorrow(reference: Date)
    requires
        reference.wf(),
        reference != max_date(),
    ensures
        resolve_ok("tomorrow"@, reference) == Some(plus_days_sat(reference, 1)),
{
    reveal_strlit("tomorrow");
    reveal_strlit("today");
    reveal_strlit("t");
    reveal_strlit("yesterday");
    reveal_strlit("y");
    let t = "tomorrow"@;
    crate::datestr::lemma_trim_id(t);
    assert(plus_days_sat(next_of(reference), 0) == next_of(reference));
    assert(plus_days_sat(reference, 1) == next_of(reference));
}

/// Law: a signed day-offset literal moves the reference date by that many
/// days, here shown for minus three.
pub proof fn lemma_resolve_minus_three(reference: Date)
    requires
        reference.wf(),
    ensures
        resolve_ok("-3"@, reference) == Some(plus_days_sat(reference, -3)),
{
    reveal_strlit("-3");
    reveal_strlit("today");
    reveal_strlit("t");
    reveal_strlit("yesterday");
    reveal_strlit("y");
    reveal_strlit("tomorrow");
    reveal_strlit("m");
    let t = "-3"@;
    crate::datestr::lemma_trim_id(t);
    assert(is_offset_literal(t)) by {
        assert(t[0] == '-');
        assert(t.subrange(1, 2)[0] == '3');
    }
    assert(offset_val(t) == -3) by {
        let part = t.subrange(1, 2);
        assert(part[0] == '3');
        assert(part.drop_last() =~= Seq::<char>::empty());
        assert(digits_val(Seq::<char>::empty()) == 0);
        assert(digits_val(part) == 3);
    }
}

} // verus!

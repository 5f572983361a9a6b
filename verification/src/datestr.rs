use vstd::prelude::*;
use crate::date::{valid_date, Date};

verus! {

/// Relies on std's `String::push`: appends exactly the given character.
pub assume_specification[ String::push ](s: &mut String, ch: char)
    ensures
        final(s)@ == old(s)@.push(ch),
;

/// The numeric value of a decimal digit character, or -1 for any other character.
pub open spec fn digit_val(c: char) -> int {
    if c == '0' {
        0
    } else if c == '1' {
        1
    } else if c == '2' {
        2
    } else if c == '3' {
        3
    } else if c == '4' {
        4
    } else if c == '5' {
        5
    } else if c == '6' {
        6
    } else if c == '7' {
        7
    } else if c == '8' {
        8
    } else if c == '9' {
        9
    } else {
        -1
    }
}

pub open spec fn is_digit_char(c: char) -> bool {
    digit_val(c) >= 0
}

/// The decimal digit character for a value between 0 and 9.
pub open spec fn digit_char(n: int) -> char {
    if n == 0 {
        '0'
    } else if n == 1 {
        '1'
    } else if n == 2 {
        '2'
    } else if n == 3 {
        '3'
    } else if n == 4 {
        '4'
    } else if n == 5 {
        '5'
    } else if n == 6 {
        '6'
    } else if n == 7 {
        '7'
    } else if n == 8 {
        '8'
    } else {
        '9'
    }
}

pub proof fn lemma_digit_char_val(n: int)
    requires
        0 <= n <= 9,
    ensures
        digit_val(digit_char(n)) == n,
        is_digit_char(digit_char(n)),
{
}

pub proof fn lemma_digit_val_char(c: char)
    requires
        is_digit_char(c),
    ensures
        digit_char(digit_val(c)) == c,
{
}

/// The characters the resolver strips from both ends of its input:
/// ASCII whitespace.
pub open spec fn is_space_char(c: char) -> bool {
    c == ' ' || c == '\t' || c == '\n' || c == '\r' || c == '\u{000c}'
}

pub proof fn lemma_digit_not_space(c: char)
    requires
        is_digit_char(c),
    ensures
        !is_space_char(c),
{
}

/// The canonical text of a date: its eight YYYYMMDD digit characters.
pub open spec fn canon_chars(d: Date) -> Seq<char> {
    seq![
        digit_char(d.year as int / 1000),
        digit_char((d.year as int / 100) % 10),
        digit_char((d.year as int / 10) % 10),
        digit_char(d.year as int % 10),
        digit_char(d.month as int / 10),
        digit_char(d.month as int % 10),
        digit_char(d.day as int / 10),
        digit_char(d.day as int % 10),
    ]
}

/// The dashed text of a date: YYYY-MM-DD.
pub open spec fn dashed_chars(d: Date) -> Seq<char> {
    seq![
        digit_char(d.year as int / 1000),
        digit_char((d.year as int / 100) % 10),
        digit_char((d.year as int / 10) % 10),
        digit_char(d.year as int % 10),
        '-',
        digit_char(d.month as int / 10),
        digit_char(d.month as int % 10),
        '-',
        digit_char(d.day as int / 10),
        digit_char(d.day as int % 10),
    ]
}

/// The date denoted by an eight-digit YYYYMMDD string, if it is one.
pub open spec fn parse_canon(s: Seq<char>) -> Option<Date> {
    if s.len() == 8 && (forall|i: int| 0 <= i < 8 ==> is_digit_char(s[i])) {
        let y = digit_val(s[0]) * 1000 + digit_val(s[1]) * 100 + digit_val(s[2]) * 10 + digit_val(
            s[3],
        );
        let m = digit_val(s[4]) * 10 + digit_val(s[5]);
        let d = digit_val(s[6]) * 10 + digit_val(s[7]);
        if valid_date(y, m, d) {
            Some(Date { year: y as u16, month: m as u8, day: d as u8 })
        } else {
            None
        }
    } else {
        None
    }
}

/// The date denoted by a ten-character YYYY-MM-DD string, if it is one.
pub open spec fn parse_dashed(s: Seq<char>) -> Option<Date> {
    if s.len() == 10 && s[4] == '-' && s[7] == '-' && is_digit_char(s[0]) && is_digit_char(s[1])
        && is_digit_char(s[2]) && is_digit_char(s[3]) && is_digit_char(s[5]) && is_digit_char(s[6])
        && is_digit_char(s[8]) && is_digit_char(s[9]) {
        let y = digit_val(s[0]) * 1000 + digit_val(s[1]) * 100 + digit_val(s[2]) * 10 + digit_val(
            s[3],
        );
        let m = digit_val(s[5]) * 10 + digit_val(s[6]);
        let d = digit_val(s[8]) * 10 + digit_val(s[9]);
        if valid_date(y, m, d) {
            Some(Date { year: y as u16, month: m as u8, day: d as u8 })
        } else {
            None
        }
    } else {
        None
    }
}

proof fn lemma_digits_of_year(y: int)
    requires
        0 <= y <= 9999,
    ensures
        0 <= y / 1000 <= 9,
        0 <= (y / 100) % 10 <= 9,
        0 <= (y / 10) % 10 <= 9,
        0 <= y % 10 <= 9,
        (y / 1000) * 1000 + ((y / 100) % 10) * 100 + ((y / 10) % 10) * 10 + y % 10 == y,
{
    vstd::arithmetic::div_mod::lemma_fundamental_div_mod(y, 10);
    vstd::arithmetic::div_mod::lemma_mod_pos_bound(y, 10);
    vstd::arithmetic::div_mod::lemma_div_is_ordered(y, 9999, 10);
    vstd::arithmetic::div_mod::lemma_div_pos_is_pos(y, 10);
    let q1 = y / 10;
    vstd::arithmetic::div_mod::lemma_fundamental_div_mod(q1, 10);
    vstd::arithmetic::div_mod::lemma_mod_pos_bound(q1, 10);
    vstd::arithmetic::div_mod::lemma_div_is_ordered(q1, 999, 10);
    vstd::arithmetic::div_mod::lemma_div_pos_is_pos(q1, 10);
    let q2 = q1 / 10;
    vstd::arithmetic::div_mod::lemma_fundamental_div_mod(q2, 10);
    vstd::arithmetic::div_mod::lemma_mod_pos_bound(q2, 10);
    vstd::arithmetic::div_mod::lemma_div_is_ordered(q2, 99, 10);
    vstd::arithmetic::div_mod::lemma_div_pos_is_pos(q2, 10);
    let q3 = q2 / 10;
    vstd::arithmetic::div_mod::lemma_div_denominator(y, 10, 10);
    assert(q2 == y / 100);
    vstd::arithmetic::div_mod::lemma_div_denominator(y, 100, 10);
    assert(q3 == y / 1000);
    vstd::arithmetic::div_mod::lemma_fundamental_div_mod_converse(q2, 10, q3, q2 % 10);
}

proof fn lemma_digits_of_two(x: int)
    requires
        0 <= x <= 99,
    ensures
        0 <= x / 10 <= 9,
        0 <= x % 10 <= 9,
        (x / 10) * 10 + x % 10 == x,
{
    vstd::arithmetic::div_mod::lemma_fundamental_div_mod(x, 10);
    vstd::arithmetic::div_mod::lemma_mod_pos_bound(x, 10);
    vstd::arithmetic::div_mod::lemma_div_is_ordered(x, 99, 10);
    vstd::arithmetic::div_mod::lemma_div_pos_is_pos(x, 10);
}

/// Formatting a valid date canonically and reading the string back gives the
/// same date.
pub proof fn lemma_canon_round_trip(d: Date)
    requires
        d.wf(),
    ensures
        parse_canon(canon_chars(d)) == Some(d),
        canon_chars(d).len() == 8,
        forall|i: int| 0 <= i < 8 ==> is_digit_char(canon_chars(d)[i]),
{
    let s = canon_chars(d);
    lemma_digits_of_year(d.year as int);
    lemma_digits_of_two(d.month as int);
    lemma_digits_of_two(d.day as int);
    assert forall|i: int| 0 <= i < 8 implies is_digit_char(s[i]) by {
        if i == 0 {
            lemma_digit_char_val(d.year as int / 1000);
        } else if i == 1 {
            lemma_digit_char_val((d.year as int / 100) % 10);
        } else if i == 2 {
            lemma_digit_char_val((d.year as int / 10) % 10);
        } else if i == 3 {
            lemma_digit_char_val(d.year as int % 10);
        } else if i == 4 {
            lemma_digit_char_val(d.month as int / 10);
        } else if i == 5 {
            lemma_digit_char_val(d.month as int % 10);
        } else if i == 6 {
            lemma_digit_char_val(d.day as int / 10);
        } else {
            lemma_digit_char_val(d.day as int % 10);
        }
    }
    lemma_digit_char_val(d.year as int / 1000);
    lemma_digit_char_val((d.year as int / 100) % 10);
    lemma_digit_char_val((d.year as int / 10) % 10);
    lemma_digit_char_val(d.year as int % 10);
    lemma_digit_char_val(d.month as int / 10);
    lemma_digit_char_val(d.month as int % 10);
    lemma_digit_char_val(d.day as int / 10);
    lemma_digit_char_val(d.day as int % 10);
}

/// A string that reads as a canonical date is exactly that date's canonical
/// text, and the date is valid.
pub proof fn lemma_parse_canon_inverse(s: Seq<char>, d: Date)
    requires
        parse_canon(s) == Some(d),
    ensures
        d.wf(),
        canon_chars(d) =~= s,
{
    let y = digit_val(s[0]) * 1000 + digit_val(s[1]) * 100 + digit_val(s[2]) * 10 + digit_val(
        s[3],
    );
    let m = digit_val(s[4]) * 10 + digit_val(s[5]);
    let dd = digit_val(s[6]) * 10 + digit_val(s[7]);
    lemma_compose_year(digit_val(s[0]), digit_val(s[1]), digit_val(s[2]), digit_val(s[3]));
    lemma_compose_two(digit_val(s[4]), digit_val(s[5]));
    lemma_compose_two(digit_val(s[6]), digit_val(s[7]));
    lemma_digit_val_char(s[0]);
    lemma_digit_val_char(s[1]);
    lemma_digit_val_char(s[2]);
    lemma_digit_val_char(s[3]);
    lemma_digit_val_char(s[4]);
    lemma_digit_val_char(s[5]);
    lemma_digit_val_char(s[6]);
    lemma_digit_val_char(s[7]);
}

proof fn lemma_compose_year(a: int, b: int, c: int, e: int)
    requires
        0 <= a <= 9,
        0 <= b <= 9,
        0 <= c <= 9,
        0 <= e <= 9,
    ensures
        (a * 1000 + b * 100 + c * 10 + e) / 1000 == a,
        ((a * 1000 + b * 100 + c * 10 + e) / 100) % 10 == b,
        ((a * 1000 + b * 100 + c * 10 + e) / 10) % 10 == c,
        (a * 1000 + b * 100 + c * 10 + e) % 10 == e,
{
    let x = a * 1000 + b * 100 + c * 10 + e;
    vstd::arithmetic::div_mod::lemma_fundamental_div_mod_converse(x, 1000, a, b * 100 + c * 10 + e);
    vstd::arithmetic::div_mod::lemma_fundamental_div_mod_converse(x, 100, a * 10 + b, c * 10 + e);
    vstd::arithmetic::div_mod::lemma_fundamental_div_mod_converse(x, 10, a * 100 + b * 10 + c, e);
    vstd::arithmetic::div_mod::lemma_fundamental_div_mod_converse(a * 10 + b, 10, a, b);
    vstd::arithmetic::div_mod::lemma_fundamental_div_mod_converse(a * 100 + b * 10 + c, 10, a * 10 + b, c);
}

proof fn lemma_compose_two(a: int, b: int)
    requires
        0 <= a <= 9,
        0 <= b <= 9,
    ensures
        (a * 10 + b) / 10 == a,
        (a * 10 + b) % 10 == b,
{
    vstd::arithmetic::div_mod::lemma_fundamental_div_mod_converse(a * 10 + b, 10, a, b);
}

/// Two valid dates with the same canonical text are the same date.
pub proof fn lemma_canon_injective(a: Date, b: Date)
    requires
        a.wf(),
        b.wf(),
        canon_chars(a) == canon_chars(b),
    ensures
        a == b,
{
    lemma_canon_round_trip(a);
    lemma_canon_round_trip(b);
}

/// Same round trip for the dashed format.
pub proof fn lemma_dashed_round_trip(d: Date)
    requires
        d.wf(),
    ensures
        parse_dashed(dashed_chars(d)) == Some(d),
        dashed_chars(d).len() == 10,
{
    lemma_digits_of_year(d.year as int);
    lemma_digits_of_two(d.month as int);
    lemma_digits_of_two(d.day as int);
    lemma_digit_char_val(d.year as int / 1000);
    lemma_digit_char_val((d.year as int / 100) % 10);
    lemma_digit_char_val((d.year as int / 10) % 10);
    lemma_digit_char_val(d.year as int % 10);
    lemma_digit_char_val(d.month as int / 10);
    lemma_digit_char_val(d.month as int % 10);
    lemma_digit_char_val(d.day as int / 10);
    lemma_digit_char_val(d.day as int % 10);
}

/// The executable digit reader.
pub fn digit_value(c: char) -> (r: Option<u8>)
    ensures
        match r {
            Some(v) => digit_val(c) == v as int && v <= 9,
            None => !is_digit_char(c),
        },
{
    match c {
        '0' => Some(0),
        '1' => Some(1),
        '2' => Some(2),
        '3' => Some(3),
        '4' => Some(4),
        '5' => Some(5),
        '6' => Some(6),
        '7' => Some(7),
        '8' => Some(8),
        '9' => Some(9),
        _ => None,
    }
}

/// The executable digit writer.
pub fn char_of_digit(n: u8) -> (c: char)
    requires
        n <= 9,
    ensures
        c == digit_char(n as int),
{
    match n {
        0 => '0',
        1 => '1',
        2 => '2',
        3 => '3',
        4 => '4',
        5 => '5',
        6 => '6',
        7 => '7',
        8 => '8',
        _ => '9',
    }
}

impl Date {
    /// Renders a date in the canonical YYYYMMDD storage format.
    pub fn format_canonical(&self) -> (r: String)
        requires
            self.wf(),
        ensures
            r@ == canon_chars(*self),
            r@.len() == 8,
    {
        proof {
            lemma_digits_of_year(self.year as int);
            lemma_digits_of_two(self.month as int);
            lemma_digits_of_two(self.day as int);
        }
        let mut s = String::new();
        s.push(char_of_digit((self.year / 1000) as u8));
        s.push(char_of_digit(((self.year / 100) % 10) as u8));
        s.push(char_of_digit(((self.year / 10) % 10) as u8));
        s.push(char_of_digit((self.year % 10) as u8));
        s.push(char_of_digit((self.month / 10) as u8));
        s.push(char_of_digit((self.month % 10) as u8));
        s.push(char_of_digit((self.day / 10) as u8));
        s.push(char_of_digit((self.day % 10) as u8));
        proof {
            assert(s@ =~= canon_chars(*self));
        }
        s
    }

    /// Reads a canonical YYYYMMDD string.
    pub fn parse_canonical(s: &str) -> (r: Option<Date>)
        ensures
            r == parse_canon(s@),
            r matches Some(d) ==> d.wf(),
    {
        if s.unicode_len() != 8 {
            return None;
        }
        let d0 = digit_value(s.get_char(0));
        let d1 = digit_value(s.get_char(1));
        let d2 = digit_value(s.get_char(2));
        let d3 = digit_value(s.get_char(3));
        let d4 = digit_value(s.get_char(4));
        let d5 = digit_value(s.get_char(5));
        let d6 = digit_value(s.get_char(6));
        let d7 = digit_value(s.get_char(7));
        match (d0, d1, d2, d3, d4, d5, d6, d7) {
            (
                Some(a0),
                Some(a1),
                Some(a2),
                Some(a3),
                Some(a4),
                Some(a5),
                Some(a6),
                Some(a7),
            ) => {
                let y: u32 = a0 as u32 * 1000 + a1 as u32 * 100 + a2 as u32 * 10 + a3 as u32;
                let m: u8 = a4 * 10 + a5;
                let dd: u8 = a6 * 10 + a7;
                match Date::new(y as i32, m, dd) {
                    Ok(d) => Some(d),
                    Err(_) => None,
                }
            },
            _ => None,
        }
    }

    /// Reads a dashed YYYY-MM-DD string.
    pub fn parse_dashed_str(s: &str) -> (r: Option<Date>)
        ensures
            r == parse_dashed(s@),
            r matches Some(d) ==> d.wf(),
    {
        if s.unicode_len() != 10 {
            return None;
        }
        if s.get_char(4) != '-' || s.get_char(7) != '-' {
            return None;
        }
        let d0 = digit_value(s.get_char(0));
        let d1 = digit_value(s.get_char(1));
        let d2 = digit_value(s.get_char(2));
        let d3 = digit_value(s.get_char(3));
        let d5 = digit_value(s.get_char(5));
        let d6 = digit_value(s.get_char(6));
        let d8 = digit_value(s.get_char(8));
        let d9 = digit_value(s.get_char(9));
        match (d0, d1, d2, d3, d5, d6, d8, d9) {
            (
                Some(a0),
                Some(a1),
                Some(a2),
                Some(a3),
                Some(a5),
                Some(a6),
                Some(a8),
                Some(a9),
            ) => {
                let y: u32 = a0 as u32 * 1000 + a1 as u32 * 100 + a2 as u32 * 10 + a3 as u32;
                let m: u8 = a5 * 10 + a6;
                let dd: u8 = a8 * 10 + a9;
                match Date::new(y as i32, m, dd) {
                    Ok(d) => Some(d),
                    Err(_) => None,
                }
            },
            _ => None,
        }
    }
}

/// Drops leading space characters.
pub open spec fn trim_front(s: Seq<char>) -> Seq<char>
    decreases s.len(),
{
    if s.len() > 0 && is_space_char(s[0]) {
        trim_front(s.drop_first())
    } else {
        s
    }
}

/// Drops trailing space characters.
pub open spec fn trim_back(s: Seq<char>) -> Seq<char>
    decreases s.len(),
{
    if s.len() > 0 && is_space_char(s.last()) {
        trim_back(s.drop_last())
    } else {
        s
    }
}

/// What trimming an input means: spaces dropped from both ends.
pub open spec fn trim_spec(s: Seq<char>) -> Seq<char> {
    trim_back(trim_front(s))
}

proof fn lemma_trim_front_skip(s: Seq<char>, k: int)
    requires
        0 <= k <= s.len(),
        forall|j: int| 0 <= j < k ==> is_space_char(s[j]),
    ensures
        trim_front(s) == trim_front(s.subrange(k, s.len() as int)),
    decreases k,
{
    if k > 0 {
        assert(is_space_char(s[0]));
        let t = s.drop_first();
        assert(t =~= s.subrange(1, s.len() as int));
        lemma_trim_front_skip(t, k - 1);
        assert(t.subrange(k - 1, t.len() as int) =~= s.subrange(k, s.len() as int));
    } else {
        assert(s.subrange(0, s.len() as int) =~= s);
    }
}

proof fn lemma_trim_back_skip(s: Seq<char>, k: int)
    requires
        0 <= k <= s.len(),
        forall|j: int| k <= j < s.len() ==> is_space_char(s[j]),
    ensures
        trim_back(s) == trim_back(s.subrange(0, k)),
    decreases s.len() - k,
{
    if k < s.len() {
        assert(is_space_char(s.last()));
        let t = s.drop_last();
        assert(t =~= s.subrange(0, s.len() - 1));
        lemma_trim_back_skip(t, k);
        assert(t.subrange(0, k) =~= s.subrange(0, k));
    } else {
        assert(s.subrange(0, s.len() as int) =~= s);
    }
}

/// A string without leading or trailing spaces trims to itself.
pub proof fn lemma_trim_id(s: Seq<char>)
    requires
        s.len() > 0,
        !is_space_char(s[0]),
        !is_space_char(s[s.len() - 1]),
    ensures
        trim_spec(s) == s,
{
}

/// The executable trim.
pub fn trim(s: &str) -> (r: &str)
    ensures
        r@ == trim_spec(s@),
{
    let n = s.unicode_len();
    let mut start: usize = 0;
    while start < n && is_space(s.get_char(start))
        invariant
            0 <= start <= n,
            n == s@.len(),
            forall|j: int| 0 <= j < start ==> is_space_char(s@[j]),
        decreases n - start,
    {
        start = start + 1;
    }
    let mut end: usize = n;
    while end > start && is_space(s.get_char(end - 1))
        invariant
            start <= end <= n,
            n == s@.len(),
            forall|j: int| end <= j < n ==> is_space_char(s@[j]),
        decreases end,
    {
        end = end - 1;
    }
    proof {
        lemma_trim_front_skip(s@, start as int);
        let t = s@.subrange(start as int, n as int);
        assert(trim_front(t) == t);
        lemma_trim_back_skip(t, end - start);
        let u = t.subrange(0, end - start);
        assert(u =~= s@.subrange(start as int, end as int));
        assert(trim_back(u) == u);
    }
    s.substring_char(start, end)
}

/// The executable space test.
pub fn is_space(c: char) -> (r: bool)
    ensures
        r == is_space_char(c),
{
    c == ' ' || c == '\t' || c == '\n' || c == '\r' || c == '\u{000c}'
}

} // verus!

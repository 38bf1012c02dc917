use vstd::prelude::*;
use vstd::string::StrSliceExecFns;

use crate::text::{digit_char, digit_value, is_digit, push_char};

verus! {

/// A calendar date and wall-clock time to the millisecond, with no time zone.
#[derive(Clone, Copy, Debug, PartialEq, Eq)]
pub struct Stamp {
    pub year: i32,
    pub month: u32,
    pub day: u32,
    pub hour: u32,
    pub minute: u32,
    pub second: u32,
    pub milli: u32,
}

pub open spec fn is_leap_year(y: int) -> bool {
    (y % 4 == 0 && y % 100 != 0) || y % 400 == 0
}

pub open spec fn days_in_month(y: int, m: int) -> int {
    if m == 2 {
        if is_leap_year(y) {
            29
        } else {
            28
        }
    } else if m == 4 || m == 6 || m == 9 || m == 11 {
        30
    } else {
        31
    }
}

impl Stamp {
    /// A real date of the proleptic Gregorian calendar and a real time of day.
    pub open spec fn wf(self) -> bool {
        &&& 1 <= self.month <= 12
        &&& 1 <= self.day <= days_in_month(self.year as int, self.month as int)
        &&& self.hour < 24
        &&& self.minute < 60
        &&& self.second < 60
        &&& self.milli < 1000
    }

    /// The year can be written with four digits.
    pub open spec fn writable(self) -> bool {
        0 <= self.year <= 9999
    }
}

/// The length of a capture time text.
pub const STAMP_LEN: usize = 23;

/// The positions of the separators in `YYYY_MM_DD_HH_MM_SS_fff`.
pub open spec fn is_separator_pos(i: int) -> bool {
    i == 4 || i == 7 || i == 10 || i == 13 || i == 16 || i == 19
}

/// The text has the shape `YYYY_MM_DD_HH_MM_SS_fff`: digits, with `_` between
/// the fields.
pub open spec fn stamp_shape(s: Seq<char>) -> bool {
    &&& s.len() == 23
    &&& forall|i: int|
        0 <= i < 23 ==> if is_separator_pos(i) {
            s[i] == '_'
        } else {
            is_digit(#[trigger] s[i])
        }
}

pub open spec fn two_at(s: Seq<char>, i: int) -> int {
    digit_value(s[i]) * 10 + digit_value(s[i + 1])
}

pub open spec fn three_at(s: Seq<char>, i: int) -> int {
    digit_value(s[i]) * 100 + two_at(s, i + 1)
}

pub open spec fn four_at(s: Seq<char>, i: int) -> int {
    digit_value(s[i]) * 1000 + three_at(s, i + 1)
}

/// The fields that a text of the right shape spells.
pub open spec fn stamp_fields(s: Seq<char>) -> Stamp {
    Stamp {
        year: four_at(s, 0) as i32,
        month: two_at(s, 5) as u32,
        day: two_at(s, 8) as u32,
        hour: two_at(s, 11) as u32,
        minute: two_at(s, 14) as u32,
        second: two_at(s, 17) as u32,
        milli: three_at(s, 20) as u32,
    }
}

/// The stamp a capture time text denotes, if it has the right shape and
/// names a real date and time.
pub open spec fn stamp_of(s: Seq<char>) -> Option<Stamp> {
    if stamp_shape(s) && stamp_fields(s).wf() {
        Some(stamp_fields(s))
    } else {
        None
    }
}

/// The text `YYYY_MM_DD_HH_MM_SS_fff` of a stamp.
pub open spec fn stamp_text(t: Stamp) -> Seq<char> {
    let y = t.year as int;
    let m = t.month as int;
    let d = t.day as int;
    let h = t.hour as int;
    let mi = t.minute as int;
    let se = t.second as int;
    let ms = t.milli as int;
    seq![
        digit_char(y / 1000), digit_char(y / 100 % 10), digit_char(y / 10 % 10), digit_char(y % 10), '_',
        digit_char(m / 10), digit_char(m % 10), '_',
        digit_char(d / 10), digit_char(d % 10), '_',
        digit_char(h / 10), digit_char(h % 10), '_',
        digit_char(mi / 10), digit_char(mi % 10), '_',
        digit_char(se / 10), digit_char(se % 10), '_',
        digit_char(ms / 100), digit_char(ms / 10 % 10), digit_char(ms % 10),
    ]
}

fn days_in_month_of(y: i32, m: u32) -> (r: u32)
    ensures
        r == days_in_month(y as int, m as int),
{
    if m == 2 {
        if (y % 4 == 0 && y % 100 != 0) || y % 400 == 0 {
            29
        } else {
            28
        }
    } else if m == 4 || m == 6 || m == 9 || m == 11 {
        30
    } else {
        31
    }
}

fn digit_of(c: char) -> (r: u32)
    requires
        is_digit(c),
    ensures
        r == digit_value(c),
        r < 10,
{
    (c as u32) - 48
}

fn two_of(cs: &Vec<char>, i: usize) -> (r: u32)
    requires
        i < 100,
        i + 1 < cs@.len(),
        is_digit(cs@[i as int]),
        is_digit(cs@[i + 1]),
    ensures
        r == two_at(cs@, i as int),
        r < 100,
{
    digit_of(cs[i]) * 10 + digit_of(cs[i + 1])
}

/// Reads a capture time written `YYYY_MM_DD_HH_MM_SS_fff`. `None` where the
/// text has another shape or names no real date and time.
pub fn parse_stamp(s: &str) -> (r: Option<Stamp>)
    ensures
        r == stamp_of(s@),
{
    let n = s.unicode_len();
    if n != STAMP_LEN {
        return None;
    }
    let mut cs: Vec<char> = Vec::new();
    let mut i: usize = 0;
    while i < n
        invariant
            i <= n == s@.len() == 23,
            cs@ == s@.take(i as int),
            forall|j: int|
                0 <= j < i ==> if is_separator_pos(j) {
                    s@[j] == '_'
                } else {
                    is_digit(#[trigger] s@[j])
                },
        decreases n - i,
    {
        let c = s.get_char(i);
        let sep = i == 4 || i == 7 || i == 10 || i == 13 || i == 16 || i == 19;
        if sep {
            if c != '_' {
                return None;
            }
        } else if !('0' <= c && c <= '9') {
            assert(!is_digit(s@[i as int]));
            return None;
        }
        cs.push(c);
        i = i + 1;
        proof {
            assert(cs@ =~= s@.take(i as int));
        }
    }
    assert(cs@ =~= s@);
    assert(stamp_shape(s@));
    let year = (digit_of(cs[0]) * 1000 + digit_of(cs[1]) * 100 + two_of(&cs, 2)) as i32;
    let t = Stamp {
        year,
        month: two_of(&cs, 5),
        day: two_of(&cs, 8),
        hour: two_of(&cs, 11),
        minute: two_of(&cs, 14),
        second: two_of(&cs, 17),
        milli: digit_of(cs[20]) * 100 + two_of(&cs, 21),
    };
    assert(t == stamp_fields(s@));
    if 1 <= t.month && t.month <= 12 && 1 <= t.day && t.day <= days_in_month_of(t.year, t.month)
        && t.hour < 24 && t.minute < 60 && t.second < 60 && t.milli < 1000 {
        Some(t)
    } else {
        None
    }
}

fn digit(v: u32) -> (c: char)
    requires
        v < 10,
    ensures
        c == digit_char(v as int),
{
    (48u8 + v as u8) as char
}

/// Appends `_` and the two digits of `v`.
fn push_field(s: &mut String, v: u32)
    requires
        v < 100,
    ensures
        final(s)@ == old(s)@ + seq!['_', digit_char(v as int / 10), digit_char(v as int % 10)],
{
    let ghost before = s@;
    push_char(s, '_');
    push_char(s, digit(v / 10));
    push_char(s, digit(v % 10));
    assert(s@ =~= before + seq!['_', digit_char(v as int / 10), digit_char(v as int % 10)]);
}

/// Writes a stamp as `YYYY_MM_DD_HH_MM_SS_fff`.
pub fn format_stamp(t: &Stamp) -> (r: String)
    requires
        t.wf(),
        t.writable(),
    ensures
        r@ == stamp_text(*t),
{
    let y = t.year as u32;
    let mut s = String::new();
    push_char(&mut s, digit(y / 1000));
    push_char(&mut s, digit(y / 100 % 10));
    push_char(&mut s, digit(y / 10 % 10));
    push_char(&mut s, digit(y % 10));
    push_field(&mut s, t.month);
    push_field(&mut s, t.day);
    push_field(&mut s, t.hour);
    push_field(&mut s, t.minute);
    push_field(&mut s, t.second);
    push_char(&mut s, '_');
    push_char(&mut s, digit(t.milli / 100));
    push_char(&mut s, digit(t.milli / 10 % 10));
    push_char(&mut s, digit(t.milli % 10));
    assert(s@ =~= stamp_text(*t));
    s
}

proof fn lemma_digit_char(v: int)
    requires
        0 <= v < 10,
    ensures
        is_digit(digit_char(v)),
        digit_value(digit_char(v)) == v,
{
}

proof fn lemma_two_at(s: Seq<char>, i: int, v: int)
    requires
        0 <= v < 100,
        0 <= i,
        i + 1 < s.len(),
        s[i] == digit_char(v / 10),
        s[i + 1] == digit_char(v % 10),
    ensures
        two_at(s, i) == v,
        is_digit(s[i]),
        is_digit(s[i + 1]),
{
    lemma_digit_char(v / 10);
    lemma_digit_char(v % 10);
}

proof fn lemma_three_at(s: Seq<char>, i: int, v: int)
    requires
        0 <= v < 1000,
        0 <= i,
        i + 2 < s.len(),
        s[i] == digit_char(v / 100),
        s[i + 1] == digit_char(v / 10 % 10),
        s[i + 2] == digit_char(v % 10),
    ensures
        three_at(s, i) == v,
        is_digit(s[i]),
{
    lemma_digit_char(v / 100);
    assert((v % 100) / 10 == v / 10 % 10) by (nonlinear_arith)
        requires
            0 <= v,
    ;
    assert((v % 100) % 10 == v % 10) by (nonlinear_arith)
        requires
            0 <= v,
    ;
    lemma_two_at(s, i + 1, v % 100);
}

proof fn lemma_four_at(s: Seq<char>, i: int, v: int)
    requires
        0 <= v < 10000,
        0 <= i,
        i + 3 < s.len(),
        s[i] == digit_char(v / 1000),
        s[i + 1] == digit_char(v / 100 % 10),
        s[i + 2] == digit_char(v / 10 % 10),
        s[i + 3] == digit_char(v % 10),
    ensures
        four_at(s, i) == v,
        is_digit(s[i]),
{
    lemma_digit_char(v / 1000);
    assert((v % 1000) / 100 == v / 100 % 10) by (nonlinear_arith)
        requires
            0 <= v,
    ;
    assert((v % 1000) / 10 % 10 == v / 10 % 10) by (nonlinear_arith)
        requires
            0 <= v,
    ;
    assert((v % 1000) % 10 == v % 10) by (nonlinear_arith)
        requires
            0 <= v,
    ;
    lemma_three_at(s, i + 1, v % 1000);
}

/// Writing a stamp and reading the text back gives the same stamp.
pub proof fn lemma_stamp_round_trip(t: Stamp)
    requires
        t.wf(),
        t.writable(),
    ensures
        stamp_of(stamp_text(t)) == Some(t),
{
    let s = stamp_text(t);
    lemma_four_at(s, 0, t.year as int);
    lemma_two_at(s, 5, t.month as int);
    lemma_two_at(s, 8, t.day as int);
    lemma_two_at(s, 11, t.hour as int);
    lemma_two_at(s, 14, t.minute as int);
    lemma_two_at(s, 17, t.second as int);
    lemma_three_at(s, 20, t.milli as int);
    assert forall|i: int|
        0 <= i < 23 implies if is_separator_pos(i) {
        s[i] == '_'
    } else {
        is_digit(#[trigger] s[i])
    } by {}
    assert(stamp_fields(s) == t);
}

} // verus!

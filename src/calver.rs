//! Calendar versions of the form `YY.M.R`: ordering, text form, parsing and
//! the choice of the next version for a given month.
use vstd::prelude::*;

use chrono::DateTime;
use chrono::Datelike;
use chrono::Local;

verus! {

/// A calendar version: full year, month and a revision within that month.
#[derive(Clone, Copy, Debug, PartialEq, Eq, Structural, PartialOrd, Ord)]
pub struct CalVer {
    pub year: u16,
    pub month: u8,
    pub revision: i8,
}

/// Strict lexicographic order on (year, month, revision).
pub open spec fn precedes(a: CalVer, b: CalVer) -> bool {
    a.year < b.year || (a.year == b.year && (a.month < b.month || (a.month == b.month
        && a.revision < b.revision)))
}

/// A calendar month: the year as the clock gives it, and the month 1..=12.
#[derive(Clone, Copy, Debug, PartialEq, Eq, Structural)]
pub struct CalDate {
    pub year: i32,
    pub month: u32,
}

impl CalDate {
    pub open spec fn valid(self) -> bool {
        0 <= self.year && 1 <= self.month <= 12
    }

    /// The current month in the local time zone.
    pub fn now() -> (r: CalDate)
        ensures
            1 <= r.month <= 12,
    {
        local_month()
    }
}

/// The version of `date`'s month with revision `k`.
pub open spec fn candidate(date: CalDate, k: int) -> CalVer {
    CalVer { year: (2000 + date.year % 100) as u16, month: date.month as u8, revision: k as i8 }
}

/// The next version at `date`: one past `cur`'s revision within the same
/// month, else revision 0 of `date`'s month.
pub open spec fn next_spec(cur: CalVer, date: CalDate) -> CalVer {
    let base = candidate(date, 0);
    if cur.year == base.year && cur.month == base.month && cur.revision >= 0 {
        candidate(date, cur.revision + 1)
    } else {
        base
    }
}

/// Relies on chrono's `Local::now`, read through `Datelike::year` and
/// `Datelike::month`: the current local year, and its month from 1 to 12.
#[verifier::external_body]
fn local_month() -> (r: CalDate)
    ensures
        1 <= r.month <= 12,
{
    let t: DateTime<Local> = Local::now();
    CalDate { year: t.year(), month: t.month() }
}

/// The next version at `date`, when `date` is a valid month that has a
/// revision above `cur`.
pub open spec fn next_in(cur: CalVer, date: CalDate) -> Option<CalVer> {
    if date.valid() && precedes(cur, candidate(date, 127)) {
        Some(next_spec(cur, date))
    } else {
        None
    }
}

/// The "no release yet" version.
pub open spec fn zero_version() -> CalVer {
    CalVer { year: 0, month: 0, revision: 0 }
}

// Decimal digits and integer fields.

pub open spec fn is_digit(c: char) -> bool {
    '0' <= c && c <= '9'
}

pub open spec fn digit_value(c: char) -> int {
    c as int - '0' as int
}

pub open spec fn digit_char(d: int) -> char {
    if d == 0 { '0' }
    else if d == 1 { '1' }
    else if d == 2 { '2' }
    else if d == 3 { '3' }
    else if d == 4 { '4' }
    else if d == 5 { '5' }
    else if d == 6 { '6' }
    else if d == 7 { '7' }
    else if d == 8 { '8' }
    else { '9' }
}

pub open spec fn all_digits(s: Seq<char>) -> bool {
    forall|i: int| 0 <= i < s.len() ==> is_digit(#[trigger] s[i])
}

/// The number written by a string of decimal digits.
pub open spec fn digits_value(s: Seq<char>) -> nat
    decreases s.len(),
{
    if s.len() == 0 {
        0
    } else {
        (digits_value(s.drop_last()) * 10 + digit_value(s.last())) as nat
    }
}

/// The shortest decimal text of `n`.
pub open spec fn decimal(n: nat) -> Seq<char>
    decreases n,
{
    if n < 10 {
        seq![digit_char(n as int)]
    } else {
        decimal(n / 10).push(digit_char((n % 10) as int))
    }
}

/// Decimal text of a signed number: a minus sign before negative values.
pub open spec fn signed_decimal(n: int) -> Seq<char> {
    if n < 0 {
        seq!['-'] + decimal((-n) as nat)
    } else {
        decimal(n as nat)
    }
}

/// An unsigned integer field: an optional `+`, then one or more digits.
pub open spec fn unsigned_field(s: Seq<char>) -> Option<nat> {
    let body = if s.len() > 0 && s[0] == '+' { s.subrange(1, s.len() as int) } else { s };
    if body.len() > 0 && all_digits(body) {
        Some(digits_value(body))
    } else {
        None
    }
}

/// A signed integer field: an optional `+` or `-`, then one or more digits.
pub open spec fn signed_field(s: Seq<char>) -> Option<int> {
    if s.len() > 0 && s[0] == '-' {
        let body = s.subrange(1, s.len() as int);
        if body.len() > 0 && all_digits(body) {
            Some(-digits_value(body))
        } else {
            None
        }
    } else {
        match unsigned_field(s) {
            Some(v) => Some(v as int),
            None => None,
        }
    }
}

/// An unsigned field whose value is at most `max`.
pub open spec fn bounded_field(s: Seq<char>, max: nat) -> Option<nat> {
    match unsigned_field(s) {
        Some(v) => if v <= max { Some(v) } else { None },
        None => None,
    }
}

/// A signed field whose value fits in an `i8`.
pub open spec fn byte_field(s: Seq<char>) -> Option<i8> {
    match signed_field(s) {
        Some(v) => if -128 <= v <= 127 { Some(v as i8) } else { None },
        None => None,
    }
}


/// Index of the first `.` at or after `k`, or -1 when there is none.
pub open spec fn dot_from(s: Seq<char>, k: int) -> int
    decreases s.len() - k,
{
    if k < 0 || k >= s.len() {
        -1
    } else if s[k] == '.' {
        k
    } else {
        dot_from(s, k + 1)
    }
}

/// The version written by `s`: three dot-separated integer fields (the third
/// runs to the end of the text); a year under 100 stands for 2000 plus it.
pub open spec fn parse_text(s: Seq<char>) -> Option<CalVer> {
    let i = dot_from(s, 0);
    let j = dot_from(s, i + 1);
    if i < 0 || j < 0 {
        None
    } else {
        match (
            bounded_field(s.subrange(0, i), 65535),
            bounded_field(s.subrange(i + 1, j), 255),
            byte_field(s.subrange(j + 1, s.len() as int)),
        ) {
            (Some(y), Some(m), Some(r)) => Some(
                CalVer {
                    year: if y >= 100 { y as u16 } else { (y + 2000) as u16 },
                    month: m as u8,
                    revision: r,
                },
            ),
            _ => None,
        }
    }
}

/// Position of the first `.` in `s` at or after `start`.
fn find_dot(s: &str, start: usize) -> (r: Option<usize>)
    requires
        start <= s@.len(),
    ensures
        match r {
            Some(k) => k == dot_from(s@, start as int) && start <= k < s@.len(),
            None => dot_from(s@, start as int) == -1,
        },
{
    let n = s.unicode_len();
    let mut k: usize = start;
    while k < n
        invariant
            n == s@.len(),
            start <= k <= n,
            dot_from(s@, start as int) == dot_from(s@, k as int),
        decreases n - k,
    {
        if s.get_char(k) == '.' {
            return Some(k);
        }
        k = k + 1;
    }
    None
}

/// Reads the digits `s[lo..hi]`; the value is capped at `max + 1`.
fn read_digits(s: &str, lo: usize, hi: usize, max: u32) -> (r: Option<u32>)
    requires
        lo <= hi <= s@.len(),
        max < 1000000,
    ensures
        match r {
            Some(v) => lo < hi && all_digits(s@.subrange(lo as int, hi as int)) && v as nat == if digits_value(
                s@.subrange(lo as int, hi as int),
            ) <= max {
                digits_value(s@.subrange(lo as int, hi as int))
            } else {
                max as nat + 1
            },
            None => !(lo < hi && all_digits(s@.subrange(lo as int, hi as int))),
        },
{
    if lo == hi {
        return None;
    }
    let mut acc: u32 = 0;
    let mut k: usize = lo;
    while k < hi
        invariant
            lo <= k <= hi <= s@.len(),
            max < 1000000,
            all_digits(s@.subrange(lo as int, k as int)),
            acc as nat == if digits_value(s@.subrange(lo as int, k as int)) <= max {
                digits_value(s@.subrange(lo as int, k as int))
            } else {
                max as nat + 1
            },
        decreases hi - k,
    {
        let c = s.get_char(k);
        if !('0' <= c && c <= '9') {
            assert(s@.subrange(lo as int, hi as int)[k - lo] == c);
            return None;
        }
        let d = (c as u32) - ('0' as u32);
        let ghost prev = s@.subrange(lo as int, k as int);
        let ghost next = s@.subrange(lo as int, k + 1);
        assert(next.drop_last() =~= prev);
        assert(next.last() == c);
        let step = acc * 10 + d;
        acc = if step > max { max + 1 } else { step };
        proof {
            if digits_value(prev) > max {
                assert(digits_value(next) >= digits_value(prev)) by (nonlinear_arith)
                    requires digits_value(next) == digits_value(prev) * 10 + d, d >= 0;
            }
        }
        assert(all_digits(next)) by {
            assert forall|i: int| 0 <= i < next.len() implies is_digit(#[trigger] next[i]) by {
                if i < prev.len() {
                    assert(next[i] == prev[i]);
                }
            }
        }
        k = k + 1;
    }
    Some(acc)
}


/// Reads the unsigned field `s[lo..hi]` when its value is at most `max`.
fn read_unsigned(s: &str, lo: usize, hi: usize, max: u32) -> (r: Option<u32>)
    requires
        lo <= hi <= s@.len(),
        max < 100000,
    ensures
        match bounded_field(s@.subrange(lo as int, hi as int), max as nat) {
            Some(v) => r == Some(v as u32),
            None => r is None,
        },
{
    let ghost t = s@.subrange(lo as int, hi as int);
    let start = if lo < hi && s.get_char(lo) == '+' {
        assert(t.subrange(1, t.len() as int) =~= s@.subrange(lo + 1, hi as int));
        lo + 1
    } else {
        assert(t =~= s@.subrange(lo as int, hi as int));
        lo
    };
    match read_digits(s, start, hi, max) {
        Some(v) => if v <= max {
            Some(v)
        } else {
            None
        },
        None => None,
    }
}

/// Reads the signed field `s[lo..hi]` when its value fits in an `i8`.
fn read_byte(s: &str, lo: usize, hi: usize) -> (r: Option<i8>)
    requires
        lo <= hi <= s@.len(),
    ensures
        r == byte_field(s@.subrange(lo as int, hi as int)),
{
    let ghost t = s@.subrange(lo as int, hi as int);
    if lo < hi && s.get_char(lo) == '-' {
        assert(t.subrange(1, t.len() as int) =~= s@.subrange(lo + 1, hi as int));
        match read_digits(s, lo + 1, hi, 128) {
            Some(v) => if v <= 128 {
                let n: i32 = 0 - (v as i32);
                Some(n as i8)
            } else {
                None
            },
            None => None,
        }
    } else {
        match read_unsigned(s, lo, hi, 127) {
            Some(v) => Some(v as i8),
            None => {
                assert(unsigned_field(t) is None || unsigned_field(t).unwrap() > 127);
                None
            },
        }
    }
}

/// Parses the text form of a version; `None` when it is not one.
pub fn parse(s: &str) -> (r: Option<CalVer>)
    ensures
        r == parse_text(s@),
{
    let n = s.unicode_len();
    let i = match find_dot(s, 0) {
        Some(i) => i,
        None => return None,
    };
    let j = match find_dot(s, i + 1) {
        Some(j) => j,
        None => return None,
    };
    let y = match read_unsigned(s, 0, i, 65535) {
        Some(y) => y,
        None => return None,
    };
    let m = match read_unsigned(s, i + 1, j, 255) {
        Some(m) => m,
        None => return None,
    };
    let r = match read_byte(s, j + 1, n) {
        Some(r) => r,
        None => return None,
    };
    let year: u16 = if y >= 100 { y as u16 } else { (y + 2000) as u16 };
    Some(CalVer { year, month: m as u8, revision: r })
}


/// The text form: two-digit year, month and revision, joined by dots.
pub open spec fn format_text(v: CalVer) -> Seq<char> {
    decimal((v.year % 100) as nat) + seq!['.'] + decimal(v.month as nat) + seq!['.']
        + signed_decimal(v.revision as int)
}

fn digit_text(d: u32) -> (r: &'static str)
    requires
        d < 10,
    ensures
        r@ == seq![digit_char(d as int)],
{
    if d == 0 {
        proof { reveal_strlit("0"); }
        "0"
    } else if d == 1 {
        proof { reveal_strlit("1"); }
        "1"
    } else if d == 2 {
        proof { reveal_strlit("2"); }
        "2"
    } else if d == 3 {
        proof { reveal_strlit("3"); }
        "3"
    } else if d == 4 {
        proof { reveal_strlit("4"); }
        "4"
    } else if d == 5 {
        proof { reveal_strlit("5"); }
        "5"
    } else if d == 6 {
        proof { reveal_strlit("6"); }
        "6"
    } else if d == 7 {
        proof { reveal_strlit("7"); }
        "7"
    } else if d == 8 {
        proof { reveal_strlit("8"); }
        "8"
    } else {
        proof { reveal_strlit("9"); }
        "9"
    }
}

/// Appends the decimal text of `n` to `out`.
fn push_decimal(out: &mut String, n: u32)
    ensures
        final(out)@ == old(out)@ + decimal(n as nat),
    decreases n,
{
    if n >= 10 {
        push_decimal(out, n / 10);
    }
    out.append(digit_text(n % 10));
    assert(decimal(n as nat) =~= if n < 10 {
        seq![digit_char(n as int)]
    } else {
        decimal((n / 10) as nat).push(digit_char((n % 10) as int))
    });
}

fn push_dot(out: &mut String)
    ensures
        final(out)@ == old(out)@ + seq!['.'],
{
    proof { reveal_strlit("."); }
    out.append(".");
}

impl CalVer {
    /// A version of the current local month with the given revision.
    pub fn new(revision: i8) -> (r: CalVer)
        ensures
            r.revision == revision,
            1 <= r.month <= 12,
    {
        let d = CalDate::now();
        CalVer { year: d.year as u16, month: d.month as u8, revision }
    }

    /// Whether `self` comes after `other` in the version order.
    pub fn newer_than(&self, other: &CalVer) -> (r: bool)
        ensures
            r == precedes(*other, *self),
    {
        other.year < self.year || (other.year == self.year && (other.month < self.month || (
        other.month == self.month && other.revision < self.revision)))
    }

    /// The next version at the current local time: `None` when this month has
    /// no revision left above `self`, or the clock reads a year before 0.
    pub fn next_version(&self) -> (r: Option<CalVer>)
        ensures
            exists|d: CalDate| 1 <= d.month <= 12 && r == #[trigger] next_in(*self, d),
    {
        self.next_version_in(CalDate::now())
    }

    /// The next version at `date`, or `None` when `date` is no valid date or
    /// no revision of its month comes after `self`.
    pub fn next_version_in(&self, date: CalDate) -> (r: Option<CalVer>)
        ensures
            r == next_in(*self, date),
    {
        if 0 <= date.year && 1 <= date.month && date.month <= 12 {
            let last = CalVer { year: (2000 + date.year % 100) as u16, month: date.month as u8, revision: 127 };
            if last.newer_than(self) {
                return Some(self.next_version_at(date));
            }
        }
        None
    }

    /// The first version of `date`'s month, by increasing revision, that
    /// comes after `self`.
    pub fn next_version_at(&self, date: CalDate) -> (r: CalVer)
        requires
            date.valid(),
            precedes(*self, candidate(date, 127)),
        ensures
            r == next_spec(*self, date),
            precedes(*self, r),
    {
        let yy = (date.year % 100) as u32;
        let mut prefix = String::new();
        push_decimal(&mut prefix, yy);
        push_dot(&mut prefix);
        push_decimal(&mut prefix, date.month);
        let mut i: i8 = 0;
        loop
            invariant
                date.valid(),
                yy == date.year % 100,
                prefix@ == decimal(yy as nat) + seq!['.'] + decimal(date.month as nat),
                precedes(*self, candidate(date, 127)),
                0 <= i <= 127,
                forall|k: int| 0 <= k < i ==> !precedes(*self, #[trigger] candidate(date, k)),
            decreases 127 - i,
        {
            let mut text = prefix.clone();
            push_dot(&mut text);
            push_decimal(&mut text, i as u32);
            proof {
                let c = candidate(date, i as int);
                lemma_round_trip(c);
                assert(text@ =~= format_text(c));
            }
            let v = text.calver().unwrap();
            if v.newer_than(self) {
                return v;
            }
            i = i + 1;
        }
    }

    /// The sentinel version that stands for "no release yet".
    pub fn zero() -> (r: CalVer)
        ensures
            r == zero_version(),
    {
        CalVer { year: 0, month: 0, revision: 0 }
    }

    /// The text form `YY.M.R`, always with a two-digit year.
    pub fn to_string(&self) -> (r: String)
        ensures
            r@ == format_text(*self),
    {
        let mut out = String::new();
        push_decimal(&mut out, (self.year % 100) as u32);
        push_dot(&mut out);
        push_decimal(&mut out, self.month as u32);
        push_dot(&mut out);
        if self.revision < 0 {
            proof { reveal_strlit("-"); }
            out.append("-");
            let n: i32 = 0 - (self.revision as i32);
            push_decimal(&mut out, n as u32);
        } else {
            push_decimal(&mut out, self.revision as u32);
        }
        assert(out@ =~= format_text(*self));
        out
    }
}


proof fn lemma_digit_char(d: int)
    requires
        0 <= d < 10,
    ensures
        is_digit(digit_char(d)),
        digit_value(digit_char(d)) == d,
{
}

/// Decimal text is a non-empty run of digits that reads back as its number.
proof fn lemma_decimal(n: nat)
    ensures
        decimal(n).len() > 0,
        all_digits(decimal(n)),
        digits_value(decimal(n)) == n,
    decreases n,
{
    if n < 10 {
        lemma_digit_char(n as int);
        assert(decimal(n).drop_last() =~= Seq::<char>::empty());
        assert(digits_value(decimal(n)) == digits_value(Seq::<char>::empty()) * 10 + digit_value(
            decimal(n).last(),
        ));
    } else {
        lemma_decimal(n / 10);
        lemma_digit_char((n % 10) as int);
        let s = decimal(n);
        assert(s.drop_last() =~= decimal(n / 10));
        assert(s.last() == digit_char((n % 10) as int));
        assert((n / 10) * 10 + n % 10 == n) by (nonlinear_arith);
        assert(digits_value(s) == digits_value(decimal(n / 10)) * 10 + digit_value(s.last()));
        assert forall|i: int| 0 <= i < s.len() implies is_digit(#[trigger] s[i]) by {
            if i < s.len() - 1 {
                assert(s[i] == decimal(n / 10)[i]);
            }
        }
    }
}

proof fn lemma_dot_at(s: Seq<char>, k: int, p: int)
    requires
        0 <= k <= p < s.len(),
        s[p] == '.',
        forall|q: int| k <= q < p ==> s[q] != '.',
    ensures
        dot_from(s, k) == p,
    decreases p - k,
{
    if k < p {
        lemma_dot_at(s, k + 1, p);
    }
}

proof fn lemma_unsigned_decimal(n: nat)
    ensures
        unsigned_field(decimal(n)) == Some(n),
        signed_field(decimal(n)) == Some(n as int),
{
    lemma_decimal(n);
    assert(is_digit(decimal(n)[0]));
}

proof fn lemma_signed_decimal(n: int)
    ensures
        signed_field(signed_decimal(n)) == Some(n),
{
    if n < 0 {
        let s = signed_decimal(n);
        lemma_decimal((-n) as nat);
        assert(s.subrange(1, s.len() as int) =~= decimal((-n) as nat));
    } else {
        lemma_unsigned_decimal(n as nat);
    }
}

/// The text form of a version whose year lies in 2000..=2099 parses back to
/// that version.
pub proof fn lemma_round_trip(v: CalVer)
    requires
        2000 <= v.year <= 2099,
    ensures
        parse_text(format_text(v)) == Some(v),
{
    let a = decimal((v.year % 100) as nat);
    let b = decimal(v.month as nat);
    let c = signed_decimal(v.revision as int);
    let t = format_text(v);
    lemma_decimal((v.year % 100) as nat);
    lemma_decimal(v.month as nat);
    let i = a.len() as int;
    let j = i + 1 + b.len();
    assert(t[i] == '.');
    assert(t[j] == '.');
    assert forall|q: int| 0 <= q < i implies t[q] != '.' by {
        assert(t[q] == a[q]);
        assert(is_digit(a[q]));
    }
    assert forall|q: int| i + 1 <= q < j implies t[q] != '.' by {
        assert(t[q] == b[q - i - 1]);
        assert(is_digit(b[q - i - 1]));
    }
    lemma_dot_at(t, 0, i);
    lemma_dot_at(t, i + 1, j);
    assert(t.subrange(0, i) =~= a);
    assert(t.subrange(i + 1, j) =~= b);
    assert(t.subrange(j + 1, t.len() as int) =~= c);
    lemma_unsigned_decimal((v.year % 100) as nat);
    lemma_unsigned_decimal(v.month as nat);
    lemma_signed_decimal(v.revision as int);
}


/// The version order is a strict total order: irreflexive, asymmetric,
/// transitive, and any two different versions are comparable.
pub proof fn lemma_strict_total_order(a: CalVer, b: CalVer, c: CalVer)
    ensures
        !precedes(a, a),
        precedes(a, b) ==> !precedes(b, a),
        precedes(a, b) && precedes(b, c) ==> precedes(a, c),
        a != b ==> precedes(a, b) || precedes(b, a),
{
}

/// The sentinel comes before every other version that has no negative
/// revision in year 0, month 0.
pub proof fn lemma_zero_least(v: CalVer)
    requires
        v != zero_version(),
        !(v.year == 0 && v.month == 0 && v.revision < 0),
    ensures
        precedes(zero_version(), v),
{
}

/// Reading a version from text.
pub trait ToCalVer {
    spec fn calver_spec(&self) -> Option<CalVer>;

    fn calver(&self) -> (r: Option<CalVer>)
        ensures
            r == self.calver_spec(),
    ;
}

impl ToCalVer for String {
    open spec fn calver_spec(&self) -> Option<CalVer> {
        parse_text(self@)
    }

    fn calver(&self) -> (r: Option<CalVer>) {
        parse(self.as_str())
    }
}

} // verus!

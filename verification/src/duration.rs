//! Retention durations such as `30d`, `6m` or `1y`, as `purge --older-than`
//! takes them.

use vstd::prelude::*;
use crate::text::{chars_of, decimal_digits, digit_char, digit_value, is_digit, is_white_space, signed_decimal, push_char, push_chars, trim, trim_bounds};

verus! {

/// Why a duration was refused.
#[derive(Debug, PartialEq, Eq)]
pub enum DurationError {
    /// The part before the unit is not a decimal `i64`; holds that part.
    InvalidNumber(String),
    /// The unit is none of `d`, `m`, `y`; holds the unit.
    UnknownUnit(String),
}

/// The value of a nonempty run of decimal digits.
pub open spec fn digits_value(d: Seq<char>) -> int
    decreases d.len(),
{
    if d.len() == 0 {
        0
    } else {
        digits_value(d.drop_last()) * 10 + digit_value(d.last())
    }
}

pub open spec fn all_digits(d: Seq<char>) -> bool {
    forall|i: int| 0 <= i < d.len() ==> is_digit(#[trigger] d[i])
}

/// What `str::parse::<i64>` accepts: an optional `+` or `-`, then one or
/// more ASCII digits, denoting a value within the range of `i64`.
pub open spec fn parse_i64_spec(s: Seq<char>) -> Option<i64> {
    let neg = s.len() > 0 && s[0] == '-';
    let digits = if s.len() > 0 && (s[0] == '-' || s[0] == '+') {
        s.drop_first()
    } else {
        s
    };
    let v = if neg {
        -digits_value(digits)
    } else {
        digits_value(digits)
    };
    if digits.len() == 0 || !all_digits(digits) || v < i64::MIN || v > i64::MAX {
        None
    } else {
        Some(v as i64)
    }
}

/// Seconds per unit: a day, a month of 30 days, a year of 365 days.
pub open spec fn unit_seconds(u: char) -> Option<int> {
    if u == 'd' {
        Some(86400)
    } else if u == 'm' {
        Some(86400int * 30)
    } else if u == 'y' {
        Some(86400int * 365)
    } else {
        None
    }
}

/// The input can be split into a number and a one-byte unit: after
/// trimming it is nonempty and ends in an ASCII character.
pub open spec fn duration_splittable(s: Seq<char>) -> bool {
    trim(s).len() > 0 && (trim(s).last() as u32) < 128
}

/// The number part (all but the unit) of a trimmed duration.
pub open spec fn duration_number(s: Seq<char>) -> Seq<char> {
    trim(s).drop_last()
}

/// The unit of a trimmed duration.
pub open spec fn duration_unit(s: Seq<char>) -> char {
    trim(s).last()
}

/// The number of seconds a well-formed duration denotes.
pub open spec fn duration_seconds(s: Seq<char>) -> Option<int> {
    match (parse_i64_spec(duration_number(s)), unit_seconds(duration_unit(s))) {
        (Some(n), Some(f)) => Some(n * f),
        _ => None,
    }
}

/// The duration's seconds, when it has any, fit in an `i64`.
pub open spec fn duration_in_range(s: Seq<char>) -> bool {
    duration_seconds(s) matches Some(v) ==> i64::MIN <= v <= i64::MAX
}

proof fn lemma_digits_value_nonneg(d: Seq<char>)
    requires
        all_digits(d),
    ensures
        digits_value(d) >= 0,
    decreases d.len(),
{
    if d.len() > 0 {
        assert(is_digit(d[d.len() - 1]));
        assert(all_digits(d.drop_last())) by {
            assert forall|i: int| 0 <= i < d.drop_last().len() implies is_digit(
                #[trigger] d.drop_last()[i],
            ) by {
                assert(d.drop_last()[i] == d[i]);
            }
        }
        lemma_digits_value_nonneg(d.drop_last());
    }
}

/// Parses a decimal `i64` from `v[from..]`, as `str::parse::<i64>` does.
pub fn parse_i64_chars(v: &Vec<char>, from: usize, to: usize) -> (r: Option<i64>)
    requires
        from <= to <= v@.len(),
    ensures
        r == parse_i64_spec(v@.subrange(from as int, to as int)),
{
    let ghost s = v@.subrange(from as int, to as int);
    let mut start = from;
    let mut neg = false;
    if from < to && (v[from] == '-' || v[from] == '+') {
        neg = v[from] == '-';
        start = from + 1;
    }
    let ghost digits = v@.subrange(start as int, to as int);
    assert(digits =~= if s.len() > 0 && (s[0] == '-' || s[0] == '+') {
        s.drop_first()
    } else {
        s
    });
    assert(neg == (s.len() > 0 && s[0] == '-'));
    if start == to {
        return None;
    }
    // Magnitudes above 2^63 fit neither sign.

    let limit: u64 = 0x8000_0000_0000_0000;
    let mut acc: u64 = 0;
    let mut over = false;
    let mut i = start;
    while i < to
        invariant
            from <= start <= i <= to <= v@.len(),
            digits == v@.subrange(start as int, to as int),
            s == v@.subrange(from as int, to as int),
            digits == if s.len() > 0 && (s[0] == '-' || s[0] == '+') {
                s.drop_first()
            } else {
                s
            },
            neg == (s.len() > 0 && s[0] == '-'),
            all_digits(v@.subrange(start as int, i as int)),
            !over ==> acc as int == digits_value(v@.subrange(start as int, i as int)) && acc
                <= limit,
            over ==> digits_value(v@.subrange(start as int, i as int)) > limit,
            limit == 0x8000_0000_0000_0000u64,
        decreases to - i,
    {
        let c = v[i];
        let ghost prev = v@.subrange(start as int, i as int);
        let ghost next = v@.subrange(start as int, i + 1);
        assert(next.drop_last() =~= prev);
        if !('0' <= c && c <= '9') {
            assert(digits[i - start] == c);
            assert(!is_digit(digits[i - start]));
            assert(!all_digits(digits));
            return None;
        }
        assert(all_digits(next)) by {
            assert forall|j: int| 0 <= j < next.len() implies is_digit(#[trigger] next[j]) by {
                if j < prev.len() {
                    assert(next[j] == prev[j]);
                }
            }
        }
        let d: u64 = (c as u32 - '0' as u32) as u64;
        proof {
            lemma_digits_value_nonneg(prev);
        }
        if !over {
            if acc > (limit - d) / 10 {
                over = true;
                assert(digits_value(next) > limit) by (nonlinear_arith)
                    requires
                        digits_value(next) == acc * 10 + d,
                        acc > (limit - d) / 10,
                        d < 10,
                        limit == 0x8000_0000_0000_0000u64,
                ;
            } else {
                acc = acc * 10 + d;
            }
        } else {
            assert(digits_value(next) >= digits_value(prev)) by (nonlinear_arith)
                requires
                    digits_value(next) == digits_value(prev) * 10 + d,
                    digits_value(prev) >= 0,
            ;
        }
        i = i + 1;
    }
    assert(v@.subrange(start as int, i as int) == digits);
    if over {
        return None;
    }
    if neg {
        let wide: i128 = -(acc as i128);
        Some(wide as i64)
    } else if acc > 0x7fff_ffff_ffff_ffff {
        None
    } else {
        Some(acc as i64)
    }
}

/// Whether the input can be handed to [`parse_duration_to_secs`]: it
/// splits into a number and a one-byte unit, and the seconds it denotes,
/// if any, fit in an `i64`.
pub fn duration_input_accepted(s: &str) -> (r: bool)
    ensures
        r == (duration_splittable(s@) && duration_in_range(s@)),
{
    let v = chars_of(s);
    let (a, b) = trim_bounds(&v);
    if a == b || (v[b - 1] as u32) >= 128 {
        return false;
    }
    let ghost t = v@.subrange(a as int, b as int);
    assert(t.drop_last() =~= v@.subrange(a as int, b - 1));
    let num = parse_i64_chars(&v, a, b - 1);
    let unit = v[b - 1];
    match num {
        None => true,
        Some(n) => {
            let f: i64 = if unit == 'd' {
                86400
            } else if unit == 'm' {
                86400 * 30
            } else if unit == 'y' {
                86400 * 365
            } else {
                return true;
            };
            assert(-0x8000_0000_0000_0000_0000_0000 <= (n as int) * (f as int)
                <= 0x7fff_ffff_ffff_ffff_ffff_ffff) by (nonlinear_arith)
                requires
                    i64::MIN <= n <= i64::MAX,
                    0 < f <= 86400 * 365,
            ;
            let wide: i128 = n as i128 * f as i128;
            i64::MIN as i128 <= wide && wide <= i64::MAX as i128
        },
    }
}

/// Parses a retention duration such as `30d` (days), `6m` (months of 30
/// days) or `1y` (years of 365 days) into seconds. Surrounding whitespace
/// is ignored; the last character is the unit and the rest the number.
pub fn parse_duration_to_secs(s: &str) -> (r: Result<i64, DurationError>)
    requires
        duration_splittable(s@),
        duration_in_range(s@),
    ensures
        match r {
            Ok(secs) => duration_seconds(s@) == Some(secs as int),
            Err(DurationError::InvalidNumber(n)) => parse_i64_spec(duration_number(s@)) is None
                && n@ == duration_number(s@),
            Err(DurationError::UnknownUnit(u)) => parse_i64_spec(duration_number(s@)) is Some
                && unit_seconds(duration_unit(s@)) is None && u@ == seq![duration_unit(s@)],
        },
        r is Ok <==> duration_seconds(s@) is Some,
{
    let v = chars_of(s);
    let (a, b) = trim_bounds(&v);
    let ghost t = v@.subrange(a as int, b as int);
    assert(t.drop_last() =~= v@.subrange(a as int, b - 1));
    let num = parse_i64_chars(&v, a, b - 1);
    let unit = v[b - 1];
    let n = match num {
        Some(n) => n,
        None => {
            let mut text = String::new();
            push_chars(&mut text, &v.as_slice()[a..b - 1]);
            return Err(DurationError::InvalidNumber(text));
        },
    };
    let secs = if unit == 'd' {
        assert(n * 86400 == duration_seconds(s@).unwrap());
        n * 86400
    } else if unit == 'm' {
        assert(n * 86400 * 30 == duration_seconds(s@).unwrap()) by (nonlinear_arith)
            requires duration_seconds(s@) == Some(n * (86400 * 30)),
        ;
        assert(i64::MIN <= n * 86400 <= i64::MAX) by (nonlinear_arith)
            requires i64::MIN <= n * 86400 * 30 <= i64::MAX,
        ;
        n * 86400 * 30
    } else if unit == 'y' {
        assert(n * 86400 * 365 == duration_seconds(s@).unwrap()) by (nonlinear_arith)
            requires duration_seconds(s@) == Some(n * (86400 * 365)),
        ;
        assert(i64::MIN <= n * 86400 <= i64::MAX) by (nonlinear_arith)
            requires i64::MIN <= n * 86400 * 365 <= i64::MAX,
        ;
        n * 86400 * 365
    } else {
        let mut u = String::new();
        push_char(&mut u, unit);
        assert(u@ =~= seq![duration_unit(s@)]);
        return Err(DurationError::UnknownUnit(u));
    };
    Ok(secs)
}

proof fn lemma_digit_char_value(d: int)
    requires
        0 <= d < 10,
    ensures
        digit_value(digit_char(d)) == d,
        is_digit(digit_char(d)),
{
}

proof fn lemma_decimal_digits_value(m: nat)
    ensures
        all_digits(decimal_digits(m)),
        digits_value(decimal_digits(m)) == m,
        decimal_digits(m).len() > 0,
    decreases m,
{
    lemma_digit_char_value((m % 10) as int);
    if m >= 10 {
        lemma_decimal_digits_value(m / 10);
        let d = decimal_digits(m);
        let p = decimal_digits(m / 10);
        assert(d.drop_last() =~= p);
        assert(d.last() == digit_char((m % 10) as int));
        assert(digits_value(d) == digits_value(p) * 10 + digit_value(d.last()));
        assert(m == (m / 10) * 10 + m % 10);
        assert forall|i: int| 0 <= i < d.len() implies is_digit(#[trigger] d[i]) by {
            if i < p.len() {
                assert(d[i] == p[i]);
            }
        }
    } else {
        assert(decimal_digits(m).drop_last() =~= Seq::<char>::empty());
        assert(m % 10 == m);
        assert(digits_value(decimal_digits(m)) == digits_value(Seq::<char>::empty()) * 10
            + digit_value(decimal_digits(m).last()));
    }
}

proof fn lemma_trim_unchanged(s: Seq<char>)
    requires
        s.len() > 0,
        !is_white_space(s[0]),
        !is_white_space(s.last()),
    ensures
        trim(s) == s,
{
}

/// A number written in decimal and followed by a unit is read back as that
/// many days, months or years, whenever the seconds fit in an `i64`.
pub proof fn lemma_duration_reads_written(n: i64, u: char)
    requires
        unit_seconds(u) is Some,
        i64::MIN <= n * unit_seconds(u).unwrap() <= i64::MAX,
    ensures
        duration_splittable(signed_decimal(n as int).push(u)),
        duration_in_range(signed_decimal(n as int).push(u)),
        duration_seconds(signed_decimal(n as int).push(u)) == Some(n * unit_seconds(u).unwrap()),
{
    let m: nat = if n < 0 { (-n) as nat } else { n as nat };
    lemma_decimal_digits_value(m);
    let d = decimal_digits(m);
    let w = signed_decimal(n as int);
    let s = w.push(u);
    assert(!is_white_space(s[0])) by {
        if n >= 0 {
            assert(s[0] == d[0]);
            assert(is_digit(d[0]));
        } else {
            assert(s[0] == '-');
        }
    }
    lemma_trim_unchanged(s);
    assert(s.drop_last() =~= w);
    assert(duration_number(s) == w);
    if n < 0 {
        assert(w.drop_first() =~= d);
    } else {
        assert(is_digit(d[0]));
    }
    assert(parse_i64_spec(w) == Some(n));
}

/// An answer that confirms a purge: `y` or `Y`, surrounding whitespace
/// aside.
pub open spec fn confirms_purge_spec(answer: Seq<char>) -> bool {
    trim(answer) == seq!['y'] || trim(answer) == seq!['Y']
}

/// Whether the answer to "Continue? [y/N]" confirms the purge.
pub fn confirms_purge(answer: &str) -> (r: bool)
    ensures
        r == confirms_purge_spec(answer@),
{
    let v = chars_of(answer);
    let (a, b) = trim_bounds(&v);
    if b - a != 1 {
        assert(trim(answer@).len() != 1);
        return false;
    }
    let c = v[a];
    assert(trim(answer@) =~= seq![c]);
    assert(seq![c][0] == c);
    assert(seq!['y'][0] == 'y');
    assert(seq!['Y'][0] == 'Y');
    c == 'y' || c == 'Y'
}

/// An answer of one character amid whitespace confirms a purge exactly
/// when that character is `y` in either case; `n`, `N` and every other
/// character refuse.
pub proof fn lemma_purge_confirmed_by_y_alone(pre: Seq<char>, c: char, post: Seq<char>)
    requires
        forall|i: int| 0 <= i < pre.len() ==> is_white_space(#[trigger] pre[i]),
        forall|i: int| 0 <= i < post.len() ==> is_white_space(#[trigger] post[i]),
        !is_white_space(c),
    ensures
        confirms_purge_spec(pre + seq![c] + post) <==> (c == 'y' || c == 'Y'),
{
    crate::text::lemma_trim_padding(pre, seq![c], post);
    assert(seq![c][0] == c);
    assert(seq!['y'][0] == 'y');
    assert(seq!['Y'][0] == 'Y');
}

/// An answer that is not a single character once whitespace is removed
/// (an empty answer, `yes`, `yy`) never confirms a purge.
pub proof fn lemma_purge_needs_one_character(answer: Seq<char>)
    requires
        trim(answer).len() != 1,
    ensures
        !confirms_purge_spec(answer),
{
    assert(seq!['y'].len() == 1);
    assert(seq!['Y'].len() == 1);
}

/// The start of a window reaching `days` days back from `now` (seconds).
pub fn window_start(now: i64, days: u32) -> (r: i64)
    requires
        i64::MIN <= now - days * 86400,
    ensures
        r == now - days * 86400,
{
    now - (days as i64 * 86400)
}

/// The moment `secs` seconds before `now`.
pub fn seconds_before(now: i64, secs: i64) -> (r: i64)
    requires
        i64::MIN <= now - secs <= i64::MAX,
    ensures
        r == now - secs,
{
    now - secs
}

/// Whitespace around a duration does not change what it denotes.
pub proof fn lemma_duration_ignores_padding(pre: Seq<char>, core: Seq<char>, post: Seq<char>)
    requires
        forall|i: int| 0 <= i < pre.len() ==> is_white_space(#[trigger] pre[i]),
        forall|i: int| 0 <= i < post.len() ==> is_white_space(#[trigger] post[i]),
        core.len() > 0,
        !is_white_space(core[0]),
        !is_white_space(core.last()),
    ensures
        trim(pre + core + post) == trim(core),
        duration_seconds(pre + core + post) == duration_seconds(core),
        duration_splittable(pre + core + post) == duration_splittable(core),
{
    crate::text::lemma_trim_padding(pre, core, post);
    crate::text::lemma_trim_padding(Seq::empty(), core, Seq::empty());
    assert(Seq::<char>::empty() + core + Seq::<char>::empty() =~= core);
}

impl DurationError {
    /// The message shown for this error.
    pub open spec fn message_spec(&self) -> Seq<char> {
        match self {
            DurationError::InvalidNumber(n) => "Invalid duration number: "@ + n@,
            DurationError::UnknownUnit(u) => "Unknown duration unit '"@ + u@
                + "'. Use d (days), m (months), y (years)"@,
        }
    }

    /// The message shown for this error.
    pub fn message(&self) -> (r: String)
        ensures
            r@ == self.message_spec(),
    {
        match self {
            DurationError::InvalidNumber(n) => {
                let mut r = "Invalid duration number: ".to_owned();
                let v = chars_of(n.as_str());
                push_chars(&mut r, v.as_slice());
                r
            },
            DurationError::UnknownUnit(u) => {
                let mut r = "Unknown duration unit '".to_owned();
                let v = chars_of(u.as_str());
                push_chars(&mut r, v.as_slice());
                let w = chars_of("'. Use d (days), m (months), y (years)");
                push_chars(&mut r, w.as_slice());
                r
            },
        }
    }
}

} // verus!

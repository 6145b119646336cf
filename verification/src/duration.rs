//! Durations written the human way: `"60s"`, `"500ms"`, `"2m"` — parsing
//! them into nanoseconds and rendering them back.
//!
//! The accepted form is optional ASCII whitespace, a decimal number with an
//! optional fraction, and a unit (`ns`, `us`, `ms`, `s`, `m`, `h`).
//! Fractions are honoured to the nanosecond and truncated below that; a value
//! beyond the nanosecond range of `u64` is rejected as an invalid number.

use crate::model::DurationNanos;
use crate::strutil::{spec_decimal, u64_to_string, str_eq};
use vstd::arithmetic::mul::lemma_mul_inequality;
use vstd::prelude::*;

verus! {

/// A duration that was written, or can be written, in a human-readable form.
#[derive(Clone, Copy, Debug, PartialEq, Eq, Structural)]
pub struct HumanDuration(pub DurationNanos);

impl HumanDuration {
    /// The plain duration value.
    pub fn as_duration(&self) -> (r: DurationNanos)
        ensures
            r == self.0,
    {
        self.0
    }
}

/// ASCII whitespace, as trimming understands it.
pub open spec fn spec_is_space(c: char) -> bool {
    c == ' ' || c == '\t' || c == '\n' || c == '\r'
}

/// A decimal digit.
pub open spec fn spec_is_digit(c: char) -> bool {
    48 <= c as u32 <= 57
}

/// A character that may appear in the number part: a digit or a dot.
pub open spec fn spec_is_num_char(c: char) -> bool {
    spec_is_digit(c) || c == '.'
}

/// The text with leading whitespace removed.
pub open spec fn spec_trim_front(s: Seq<char>) -> Seq<char>
    decreases s.len(),
{
    if s.len() > 0 && spec_is_space(s.first()) {
        spec_trim_front(s.drop_first())
    } else {
        s
    }
}

/// The text with trailing whitespace removed.
pub open spec fn spec_trim_back(s: Seq<char>) -> Seq<char>
    decreases s.len(),
{
    if s.len() > 0 && spec_is_space(s.last()) {
        spec_trim_back(s.drop_last())
    } else {
        s
    }
}

/// The text with whitespace removed at both ends.
pub open spec fn spec_trim(s: Seq<char>) -> Seq<char> {
    spec_trim_back(spec_trim_front(s))
}

/// Where the number part ends: the first position that holds neither a digit
/// nor a dot, or the text's length if there is none.
pub open spec fn spec_split_pos(s: Seq<char>) -> int
    decreases s.len(),
{
    if s.len() == 0 {
        0
    } else if !spec_is_num_char(s.first()) {
        0
    } else {
        1 + spec_split_pos(s.drop_first())
    }
}

/// Where the fraction begins: the first dot's position, or the length.
pub open spec fn spec_dot_pos(s: Seq<char>) -> int
    decreases s.len(),
{
    if s.len() == 0 {
        0
    } else if s.first() == '.' {
        0
    } else {
        1 + spec_dot_pos(s.drop_first())
    }
}

/// How many dots the text holds.
pub open spec fn spec_count_dots(s: Seq<char>) -> int
    decreases s.len(),
{
    if s.len() == 0 {
        0
    } else {
        spec_count_dots(s.drop_last()) + if s.last() == '.' {
            1int
        } else {
            0int
        }
    }
}

/// A usable number: non-empty, at most one dot, and at least one digit.
pub open spec fn spec_num_valid(num: Seq<char>) -> bool {
    &&& num.len() > 0
    &&& spec_count_dots(num) <= 1
    &&& num.len() - spec_count_dots(num) >= 1
}

/// The value of a digit string, most significant digit first.
pub open spec fn spec_digits_val(s: Seq<char>) -> int
    decreases s.len(),
{
    if s.len() == 0 {
        0
    } else {
        spec_digits_val(s.drop_last()) * 10 + (s.last() as u32 - 48)
    }
}

/// The nanoseconds a fraction contributes under a unit: each digit counts a
/// tenth of the previous one's worth, truncated to whole nanoseconds.
pub open spec fn spec_frac_nanos(fr: Seq<char>, unit: int) -> int
    decreases fr.len(),
{
    if fr.len() == 0 {
        0
    } else {
        (fr.first() as u32 - 48) * (unit / 10) + spec_frac_nanos(fr.drop_first(), unit / 10)
    }
}

/// The nanoseconds one unit is worth.
pub open spec fn spec_unit_nanos(u: Seq<char>) -> Option<int> {
    if u == "ns"@ {
        Some(1int)
    } else if u == "us"@ {
        Some(1_000int)
    } else if u == "ms"@ {
        Some(1_000_000int)
    } else if u == "s"@ {
        Some(1_000_000_000int)
    } else if u == "m"@ {
        Some(60_000_000_000int)
    } else if u == "h"@ {
        Some(3_600_000_000_000int)
    } else {
        None
    }
}

/// The whole part of a number: everything before the first dot.
pub open spec fn spec_whole_part(num: Seq<char>) -> Seq<char> {
    num.subrange(0, spec_dot_pos(num))
}

/// The fractional part of a number: everything after the first dot.
pub open spec fn spec_frac_part(num: Seq<char>) -> Seq<char> {
    if spec_dot_pos(num) < num.len() {
        num.subrange(spec_dot_pos(num) + 1, num.len() as int)
    } else {
        Seq::empty()
    }
}

/// The nanoseconds a number denotes under a unit.
pub open spec fn spec_duration_value(num: Seq<char>, unit: int) -> int {
    spec_digits_val(spec_whole_part(num)) * unit + spec_frac_nanos(spec_frac_part(num), unit)
}

/// What parsing a duration text yields: its value in nanoseconds, or the
/// error message reported for the first check that fails.
pub open spec fn spec_parse_duration(s: Seq<char>) -> Result<u64, Seq<char>> {
    let t = spec_trim(s);
    if t.len() == 0 {
        Err("Empty duration string"@)
    } else {
        let i = spec_split_pos(t);
        if i == t.len() {
            Err("Missing time unit in '"@ + t + "'"@)
        } else {
            let num = t.subrange(0, i);
            let rest = t.subrange(i, t.len() as int);
            let unit = spec_trim(rest);
            if !spec_num_valid(num) {
                Err("Invalid number: '"@ + num + "'"@)
            } else {
                match spec_unit_nanos(unit) {
                    None => Err("Unknown time unit: '"@ + rest + "'"@),
                    Some(u) => {
                        let v = spec_duration_value(num, u);
                        if v > u64::MAX {
                            Err("Invalid number: '"@ + num + "'"@)
                        } else {
                            Ok(v as u64)
                        }
                    },
                }
            }
        }
    }
}

/// ASCII whitespace test.
fn is_space(c: char) -> (r: bool)
    ensures
        r == spec_is_space(c),
{
    c == ' ' || c == '\t' || c == '\n' || c == '\r'
}

/// Digit-or-dot test.
fn is_num_char(c: char) -> (r: bool)
    ensures
        r == spec_is_num_char(c),
{
    let u = c as u32;
    (48 <= u && u <= 57) || c == '.'
}

/// Trim ASCII whitespace from both ends.
fn trim_str<'a>(s: &'a str) -> (r: &'a str)
    ensures
        r@ == spec_trim(s@),
{
    let len = s.unicode_len();
    let mut a: usize = 0;
    proof {
        assert(s@.skip(0) =~= s@);
    }
    while a < len && is_space(s.get_char(a))
        invariant
            a <= len,
            len == s@.len(),
            spec_trim_front(s@) == spec_trim_front(s@.skip(a as int)),
        decreases len - a,
    {
        proof {
            assert(s@.skip(a as int).first() == s@[a as int]);
            assert(s@.skip(a as int).drop_first() =~= s@.skip(a + 1));
        }
        a += 1;
    }
    proof {
        if a < len {
            assert(s@.skip(a as int).first() == s@[a as int]);
        }
        assert(spec_trim_front(s@) == s@.skip(a as int));
    }
    let mut b: usize = len;
    while b > a && is_space(s.get_char(b - 1))
        invariant
            a <= b <= len,
            len == s@.len(),
            spec_trim_front(s@) == s@.skip(a as int),
            spec_trim_back(s@.skip(a as int)) == spec_trim_back(s@.subrange(a as int, b as int)),
        decreases b,
    {
        proof {
            assert(s@.subrange(a as int, b as int).last() == s@[b - 1]);
            assert(s@.subrange(a as int, b as int).drop_last() =~= s@.subrange(a as int, b - 1));
        }
        b -= 1;
    }
    proof {
        if b > a {
            assert(s@.subrange(a as int, b as int).last() == s@[b - 1]);
        }
        assert(spec_trim_back(s@.subrange(a as int, b as int)) == s@.subrange(a as int, b as int));
    }
    s.substring_char(a, b)
}

/// The first position in `t` that is neither a digit nor a dot.
fn find_split(t: &str) -> (r: usize)
    ensures
        r == spec_split_pos(t@),
        r <= t@.len(),
        forall|j: int| 0 <= j < r ==> spec_is_num_char(t@[j]),
        r < t@.len() ==> !spec_is_num_char(t@[r as int]),
{
    let len = t.unicode_len();
    let mut i: usize = 0;
    proof {
        assert(t@.skip(0) =~= t@);
    }
    while i < len && is_num_char(t.get_char(i))
        invariant
            i <= len,
            len == t@.len(),
            spec_split_pos(t@) == i + spec_split_pos(t@.skip(i as int)),
            forall|j: int| 0 <= j < i ==> spec_is_num_char(t@[j]),
        decreases len - i,
    {
        proof {
            assert(t@.skip(i as int).first() == t@[i as int]);
            assert(t@.skip(i as int).drop_first() =~= t@.skip(i + 1));
        }
        i += 1;
    }
    proof {
        if i < len {
            assert(t@.skip(i as int).first() == t@[i as int]);
        }
        assert(spec_split_pos(t@.skip(i as int)) == 0);
    }
    i
}

/// The first dot's position in `num`, or its length.
fn find_dot(num: &str) -> (r: usize)
    ensures
        r == spec_dot_pos(num@),
        r <= num@.len(),
        forall|j: int| 0 <= j < r ==> num@[j] != '.',
        r < num@.len() ==> num@[r as int] == '.',
{
    let len = num.unicode_len();
    let mut i: usize = 0;
    proof {
        assert(num@.skip(0) =~= num@);
    }
    while i < len && num.get_char(i) != '.'
        invariant
            i <= len,
            len == num@.len(),
            spec_dot_pos(num@) == i + spec_dot_pos(num@.skip(i as int)),
            forall|j: int| 0 <= j < i ==> num@[j] != '.',
        decreases len - i,
    {
        proof {
            assert(num@.skip(i as int).first() == num@[i as int]);
            assert(num@.skip(i as int).drop_first() =~= num@.skip(i + 1));
        }
        i += 1;
    }
    proof {
        if i < len {
            assert(num@.skip(i as int).first() == num@[i as int]);
        }
        assert(spec_dot_pos(num@.skip(i as int)) == 0);
    }
    i
}

/// Count the dots in `num`.
fn count_dots(num: &str) -> (r: usize)
    ensures
        r == spec_count_dots(num@),
{
    let len = num.unicode_len();
    let mut i: usize = 0;
    let mut c: usize = 0;
    proof {
        assert(num@.subrange(0, 0) =~= Seq::<char>::empty());
    }
    while i < len
        invariant
            i <= len,
            c <= i,
            len == num@.len(),
            c == spec_count_dots(num@.subrange(0, i as int)),
        decreases len - i,
    {
        proof {
            assert(num@.subrange(0, i + 1).drop_last() =~= num@.subrange(0, i as int));
            assert(num@.subrange(0, i + 1).last() == num@[i as int]);
            lemma_count_dots_bounds(num@.subrange(0, i as int));
        }
        if num.get_char(i) == '.' {
            c += 1;
        }
        i += 1;
    }
    proof {
        assert(num@.subrange(0, len as int) =~= num@);
    }
    c
}

/// Dot counts are non-negative and at most the length.
proof fn lemma_count_dots_bounds(s: Seq<char>)
    ensures
        0 <= spec_count_dots(s) <= s.len(),
    decreases s.len(),
{
    if s.len() > 0 {
        lemma_count_dots_bounds(s.drop_last());
    }
}

/// A digit string's value never shrinks as the string grows to the right.
proof fn lemma_digits_val_bounds(s: Seq<char>, i: int)
    requires
        0 <= i <= s.len(),
        forall|j: int| 0 <= j < s.len() ==> spec_is_digit(s[j]),
    ensures
        0 <= spec_digits_val(s.subrange(0, i)) <= spec_digits_val(s),
    decreases s.len() - i,
{
    if i == s.len() {
        assert(s.subrange(0, i) =~= s);
        lemma_digits_val_nonneg(s);
    } else {
        lemma_digits_val_bounds(s, i + 1);
        let p = s.subrange(0, i + 1);
        assert(p.drop_last() =~= s.subrange(0, i));
        assert(spec_is_digit(p.last()));
        lemma_digits_val_nonneg(s.subrange(0, i));
        assert(spec_digits_val(s.subrange(0, i)) * 10 >= spec_digits_val(s.subrange(0, i)))
            by (nonlinear_arith)
            requires
                spec_digits_val(s.subrange(0, i)) >= 0,
        ;
    }
}

/// A digit string's value is non-negative.
proof fn lemma_digits_val_nonneg(s: Seq<char>)
    requires
        forall|j: int| 0 <= j < s.len() ==> spec_is_digit(s[j]),
    ensures
        spec_digits_val(s) >= 0,
    decreases s.len(),
{
    if s.len() > 0 {
        assert(forall|j: int| 0 <= j < s.len() - 1 ==> s.drop_last()[j] == s[j]);
        lemma_digits_val_nonneg(s.drop_last());
        assert(spec_digits_val(s.drop_last()) * 10 >= 0) by (nonlinear_arith)
            requires
                spec_digits_val(s.drop_last()) >= 0,
        ;
    }
}

/// What a fraction contributes lies between zero and the unit itself.
proof fn lemma_frac_nanos_bounds(fr: Seq<char>, unit: int)
    requires
        unit >= 0,
        forall|j: int| 0 <= j < fr.len() ==> spec_is_digit(fr[j]),
    ensures
        0 <= spec_frac_nanos(fr, unit) <= unit,
    decreases fr.len(),
{
    if fr.len() > 0 {
        assert(forall|j: int| 0 <= j < fr.len() - 1 ==> fr.drop_first()[j] == fr[j + 1]);
        lemma_frac_nanos_bounds(fr.drop_first(), unit / 10);
        let d = fr.first() as u32 - 48;
        assert(0 <= d <= 9);
        assert(0 <= d * (unit / 10) <= 9 * (unit / 10)) by (nonlinear_arith)
            requires
                0 <= d <= 9,
                unit / 10 >= 0,
        ;
        assert(10 * (unit / 10) <= unit) by {
            vstd::arithmetic::div_mod::lemma_fundamental_div_mod(unit, 10);
        }
    }
}

/// The value of the digits seen so far, stopping early once the value has
/// outgrown the representable range.
fn digits_value(whole: &str) -> (r: Option<u64>)
    requires
        forall|j: int| 0 <= j < whole@.len() ==> spec_is_digit(whole@[j]),
    ensures
        match r {
            Some(v) => v == spec_digits_val(whole@),
            None => spec_digits_val(whole@) > u64::MAX,
        },
{
    let len = whole.unicode_len();
    let mut i: usize = 0;
    let mut val: u64 = 0;
    proof {
        assert(whole@.subrange(0, 0) =~= Seq::<char>::empty());
    }
    while i < len
        invariant
            i <= len,
            len == whole@.len(),
            forall|j: int| 0 <= j < whole@.len() ==> spec_is_digit(whole@[j]),
            val == spec_digits_val(whole@.subrange(0, i as int)),
        decreases len - i,
    {
        proof {
            assert(whole@.subrange(0, i + 1).drop_last() =~= whole@.subrange(0, i as int));
            assert(whole@.subrange(0, i + 1).last() == whole@[i as int]);
        }
        let c = whole.get_char(i);
        let d = (c as u32) - 48;
        let wide = (val as u128) * 10 + (d as u128);
        if wide > u64::MAX as u128 {
            proof {
                lemma_digits_val_bounds(whole@, i + 1);
            }
            return None;
        }
        val = wide as u64;
        i += 1;
    }
    proof {
        assert(whole@.subrange(0, len as int) =~= whole@);
    }
    Some(val)
}

/// The nanoseconds the fraction contributes under a unit.
fn frac_value(frac: &str, unit: u64) -> (r: u64)
    requires
        unit <= 3_600_000_000_000,
        forall|j: int| 0 <= j < frac@.len() ==> spec_is_digit(frac@[j]),
    ensures
        r == spec_frac_nanos(frac@, unit as int),
{
    let len = frac.unicode_len();
    let mut i: usize = 0;
    let mut acc: u64 = 0;
    let mut u: u64 = unit;
    proof {
        assert(frac@.skip(0) =~= frac@);
        lemma_frac_nanos_bounds(frac@, unit as int);
    }
    while i < len
        invariant
            i <= len,
            len == frac@.len(),
            u <= unit <= 3_600_000_000_000,
            forall|j: int| 0 <= j < frac@.len() ==> spec_is_digit(frac@[j]),
            acc + spec_frac_nanos(frac@.skip(i as int), u as int) == spec_frac_nanos(
                frac@,
                unit as int,
            ),
            0 <= spec_frac_nanos(frac@, unit as int) <= unit,
            0 <= spec_frac_nanos(frac@.skip(i as int), u as int),
        decreases len - i,
    {
        proof {
            assert(frac@.skip(i as int).first() == frac@[i as int]);
            assert(frac@.skip(i as int).drop_first() =~= frac@.skip(i + 1));
            assert(forall|j: int|
                0 <= j < frac@.skip(i as int).len() ==> frac@.skip(i as int)[j] == frac@[i + j]);
            lemma_frac_nanos_bounds(frac@.skip(i + 1), u as int / 10);
        }
        let c = frac.get_char(i);
        let d = ((c as u32) - 48) as u64;
        let part = d * (u / 10);
        proof {
            assert(d * (u as int / 10) <= 9 * (u as int / 10) && 0 <= d * (u as int / 10))
                by (nonlinear_arith)
                requires
                    0 <= d <= 9,
                    u as int / 10 >= 0,
            ;
            assert(10 * (u as int / 10) <= u) by {
                vstd::arithmetic::div_mod::lemma_fundamental_div_mod(u as int, 10);
            }
        }
        acc = acc + part;
        u = u / 10;
        i += 1;
    }
    proof {
        assert(frac@.skip(len as int).len() == 0);
    }
    acc
}

/// An owned copy of a literal.
fn msg_string(s: &str) -> (r: String)
    ensures
        r@ == s@,
{
    s.to_owned()
}

/// A message of the shape `prefix'part'`.
fn quoted_msg(prefix: &str, part: &str) -> (r: String)
    ensures
        r@ == prefix@ + part@ + "'"@,
{
    let mut m = prefix.to_owned();
    m.append(part);
    m.append("'");
    proof {
        assert(m@ =~= prefix@ + part@ + "'"@);
    }
    m
}

/// Parse a human-readable duration: optional whitespace, a decimal number
/// with an optional fraction, and a time unit. Succeeds exactly when the
/// text is well-formed and the value fits the nanosecond range; otherwise
/// reports the first failing check.
pub fn parse_duration(s: &str) -> (r: Result<DurationNanos, String>)
    ensures
        match r {
            Ok(d) => spec_parse_duration(s@) == Ok::<u64, Seq<char>>(d.nanos),
            Err(m) => spec_parse_duration(s@) == Err::<u64, Seq<char>>(m@),
        },
{
    let t = trim_str(s);
    let t_len = t.unicode_len();
    if t_len == 0 {
        return Err(msg_string("Empty duration string"));
    }
    let split = find_split(t);
    if split == t_len {
        return Err(quoted_msg("Missing time unit in '", t));
    }
    let num = t.substring_char(0, split);
    let rest = t.substring_char(split, t_len);
    let unit = trim_str(rest);
    let dots = count_dots(num);
    let num_len = num.unicode_len();
    proof {
        lemma_count_dots_bounds(num@);
    }
    if !(num_len > 0 && dots <= 1 && num_len - dots >= 1) {
        return Err(quoted_msg("Invalid number: '", num));
    }
    let unit_nanos: u64 = if str_eq(unit, "ns") {
        1
    } else if str_eq(unit, "us") {
        1_000
    } else if str_eq(unit, "ms") {
        1_000_000
    } else if str_eq(unit, "s") {
        1_000_000_000
    } else if str_eq(unit, "m") {
        60_000_000_000
    } else if str_eq(unit, "h") {
        3_600_000_000_000
    } else {
        return Err(quoted_msg("Unknown time unit: '", rest));
    };
    let dp = find_dot(num);
    let whole = num.substring_char(0, dp);
    let frac = if dp < num_len {
        num.substring_char(dp + 1, num_len)
    } else {
        num.substring_char(num_len, num_len)
    };
    proof {
        assert(whole@ =~= spec_whole_part(num@));
        if dp < num_len {
            assert(frac@ =~= spec_frac_part(num@));
        } else {
            assert(frac@ =~= spec_frac_part(num@));
        }
        assert(forall|j: int| 0 <= j < whole@.len() ==> spec_is_num_char(#[trigger] whole@[j])
            && whole@[j] != '.');
        lemma_frac_all_digits(num@);
        lemma_digits_val_nonneg(whole@);
    }
    let whole_val = match digits_value(whole) {
        Some(v) => v,
        None => {
            proof {
                lemma_frac_nanos_bounds(frac@, unit_nanos as int);
                lemma_mul_inequality(1, unit_nanos as int, spec_digits_val(whole@));
                vstd::arithmetic::mul::lemma_mul_is_commutative(
                    unit_nanos as int,
                    spec_digits_val(whole@),
                );
            }
            return Err(quoted_msg("Invalid number: '", num));
        },
    };
    let frac_nanos = frac_value(frac, unit_nanos);
    proof {
        lemma_mul_inequality(whole_val as int, u64::MAX as int, unit_nanos as int);
        lemma_mul_inequality(unit_nanos as int, 3_600_000_000_000, u64::MAX as int);
        vstd::arithmetic::mul::lemma_mul_is_commutative(u64::MAX as int, unit_nanos as int);
        vstd::arithmetic::mul::lemma_mul_nonnegative(whole_val as int, unit_nanos as int);
    }
    let total = (whole_val as u128) * (unit_nanos as u128) + (frac_nanos as u128);
    if total > u64::MAX as u128 {
        return Err(quoted_msg("Invalid number: '", num));
    }
    Ok(DurationNanos { nanos: total as u64 })
}

/// Every character after the first dot of a well-formed number is a digit.
proof fn lemma_frac_all_digits(num: Seq<char>)
    requires
        forall|j: int| 0 <= j < num.len() ==> spec_is_num_char(num[j]),
        spec_count_dots(num) <= 1,
    ensures
        forall|j: int|
            0 <= j < spec_frac_part(num).len() ==> spec_is_digit(#[trigger] spec_frac_part(num)[j]),
        forall|j: int|
            0 <= j < spec_whole_part(num).len() ==> spec_is_digit(#[trigger] spec_whole_part(num)[j]),
{
    let dp = spec_dot_pos(num);
    lemma_dot_pos_first(num);
    assert forall|j: int|
        0 <= j < spec_frac_part(num).len() implies spec_is_digit(
        #[trigger] spec_frac_part(num)[j],
    ) by {
        let k = dp + 1 + j;
        assert(spec_frac_part(num)[j] == num[k]);
        if num[k] == '.' {
            lemma_two_dots(num, dp, k);
        }
    }
    assert forall|j: int|
        0 <= j < spec_whole_part(num).len() implies spec_is_digit(
        #[trigger] spec_whole_part(num)[j],
    ) by {
        assert(spec_whole_part(num)[j] == num[j]);
    }
}

/// The dot position is the first dot: nothing before it is a dot, and it is
/// in range exactly when a dot exists.
proof fn lemma_dot_pos_first(num: Seq<char>)
    ensures
        0 <= spec_dot_pos(num) <= num.len(),
        forall|j: int| 0 <= j < spec_dot_pos(num) ==> num[j] != '.',
        spec_dot_pos(num) < num.len() ==> num[spec_dot_pos(num)] == '.',
    decreases num.len(),
{
    if num.len() > 0 && num.first() != '.' {
        lemma_dot_pos_first(num.drop_first());
        assert forall|j: int| 0 <= j < spec_dot_pos(num) implies num[j] != '.' by {
            if j > 0 {
                assert(num.drop_first()[j - 1] == num[j]);
            }
        }
    }
}

/// Two dots at distinct positions mean a dot count of at least two.
proof fn lemma_two_dots(num: Seq<char>, i: int, j: int)
    requires
        0 <= i < j < num.len(),
        num[i] == '.',
        num[j] == '.',
    ensures
        spec_count_dots(num) >= 2,
    decreases num.len(),
{
    if j == num.len() - 1 {
        lemma_one_dot(num.drop_last(), i);
    } else {
        assert(num.drop_last()[i] == num[i]);
        assert(num.drop_last()[j] == num[j]);
        lemma_two_dots(num.drop_last(), i, j);
        lemma_count_dots_bounds(num.drop_last());
    }
}

/// One dot means a dot count of at least one.
proof fn lemma_one_dot(num: Seq<char>, i: int)
    requires
        0 <= i < num.len(),
        num[i] == '.',
    ensures
        spec_count_dots(num) >= 1,
    decreases num.len(),
{
    if i < num.len() - 1 {
        assert(num.drop_last()[i] == num[i]);
        lemma_one_dot(num.drop_last(), i);
    } else {
        lemma_count_dots_bounds(num.drop_last());
    }
}

/// A number below one thousand, padded to three digits.
pub open spec fn spec_pad3(n: u64) -> Seq<char> {
    if n < 10 {
        "00"@ + spec_decimal(n as nat)
    } else if n < 100 {
        "0"@ + spec_decimal(n as nat)
    } else {
        spec_decimal(n as nat)
    }
}

/// How a duration is written back: whole milliseconds below one second,
/// whole minutes where they are exact, else seconds, with the millisecond
/// remainder as a three-digit fraction when it is not zero.
pub open spec fn spec_format_duration(nanos: u64) -> Seq<char> {
    let secs = nanos / 1_000_000_000;
    let millis = (nanos % 1_000_000_000) / 1_000_000;
    if secs == 0 {
        spec_decimal(millis as nat) + "ms"@
    } else if secs % 60 == 0 && millis == 0 {
        spec_decimal((secs / 60) as nat) + "m"@
    } else if millis == 0 {
        spec_decimal(secs as nat) + "s"@
    } else {
        spec_decimal(secs as nat) + "."@ + spec_pad3(millis) + "s"@
    }
}

/// Render a duration in the shortest human form this crate writes.
pub fn format_duration(d: DurationNanos) -> (r: String)
    ensures
        r@ == spec_format_duration(d.nanos),
{
    let secs = d.as_secs();
    let millis = d.subsec_millis();
    if secs == 0 {
        let mut m = u64_to_string(millis);
        m.append("ms");
        proof {
            assert(m@ =~= spec_format_duration(d.nanos));
        }
        m
    } else if secs % 60 == 0 && millis == 0 {
        let mut m = u64_to_string(secs / 60);
        m.append("m");
        proof {
            assert(m@ =~= spec_format_duration(d.nanos));
        }
        m
    } else if millis == 0 {
        let mut m = u64_to_string(secs);
        m.append("s");
        proof {
            assert(m@ =~= spec_format_duration(d.nanos));
        }
        m
    } else {
        let mut m = u64_to_string(secs);
        m.append(".");
        if millis < 10 {
            m.append("00");
        } else if millis < 100 {
            m.append("0");
        }
        m.append(u64_to_string(millis).as_str());
        m.append("s");
        proof {
            assert(m@ =~= spec_format_duration(d.nanos));
        }
        m
    }
}

} // verus!

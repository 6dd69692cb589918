//! Reading a decimal literal into a fixed-point quantity.
//!
//! A literal is an optional sign, digits with an optional decimal point
//! among them, and an optional exponent: `12`, `-0.5`, `.25`, `3.`,
//! `1.234568e+05`. Its value is rounded to the nearest billionth, a value
//! half way between two billionths going away from zero.

use crate::fixed::{
    lemma_pow10_monotonic, lemma_pow10_positive, lemma_pow10_values, lemma_round_div_by_remainder,
    pow10, power_of_ten, representable, round_div, Fixed,
};
use vstd::prelude::*;

verus! {

/// Whether `byte` is one of the digits `0` to `9`.
pub open spec fn is_digit(byte: u8) -> bool {
    48 <= byte <= 57
}

/// Whether `byte` is `+` or `-`.
pub open spec fn is_sign(byte: u8) -> bool {
    byte == 43 || byte == 45
}

/// The number that the digits `s` spell.
pub open spec fn digits_value(s: Seq<u8>) -> int
    decreases s.len(),
{
    if s.len() == 0 {
        0
    } else {
        10 * digits_value(s.drop_last()) + (s.last() - 48)
    }
}

/// Whether `s` holds digits only.
pub open spec fn all_digits(s: Seq<u8>) -> bool {
    forall|i: int| 0 <= i < s.len() ==> is_digit(#[trigger] s[i])
}

/// Where the run of digits that starts at `from` ends.
pub open spec fn digits_end(text: Seq<u8>, from: int) -> int
    decreases text.len() - from,
{
    if 0 <= from < text.len() && is_digit(text[from]) {
        digits_end(text, from + 1)
    } else {
        from
    }
}

/// How a literal is laid out in `text`: where its parts begin and end.
pub struct Layout {
    /// Whether the literal starts with `-`.
    pub negative: bool,
    /// Where the digits before the point begin.
    pub whole_start: int,
    /// Where the digits before the point end.
    pub whole_end: int,
    /// Where the digits after the point begin.
    pub fraction_start: int,
    /// Where the digits after the point end.
    pub fraction_end: int,
    /// Whether an exponent follows.
    pub has_exponent: bool,
    /// Whether the exponent starts with `-`.
    pub exponent_negative: bool,
    /// Where the digits of the exponent begin.
    pub exponent_start: int,
    /// Where the digits of the exponent end.
    pub exponent_end: int,
}

/// The layout of the longest literal at the start of `text`.
pub open spec fn layout_of(text: Seq<u8>) -> Layout {
    let whole_start: int = if text.len() > 0 && is_sign(text[0]) {
        1
    } else {
        0
    };
    let whole_end = digits_end(text, whole_start);
    let fraction_start = if whole_end < text.len() && text[whole_end] == 46 {
        whole_end + 1
    } else {
        whole_end
    };
    let fraction_end = digits_end(text, fraction_start);
    let has_exponent = fraction_end < text.len() && (text[fraction_end] == 101
        || text[fraction_end] == 69);
    let signed = has_exponent && fraction_end + 1 < text.len() && is_sign(text[fraction_end + 1]);
    let exponent_start = if signed {
        fraction_end + 2
    } else {
        fraction_end + 1
    };
    Layout {
        negative: text.len() > 0 && text[0] == 45,
        whole_start,
        whole_end,
        fraction_start,
        fraction_end,
        has_exponent,
        exponent_negative: signed && text[fraction_end + 1] == 45,
        exponent_start,
        exponent_end: digits_end(text, exponent_start),
    }
}

impl Layout {
    /// Where the literal ends.
    pub open spec fn end(&self) -> int {
        if self.has_exponent {
            self.exponent_end
        } else {
            self.fraction_end
        }
    }

    /// Whether the layout is that of a literal that fills all of `text`: it
    /// has a digit before or after the point, its exponent has a digit if it
    /// has an exponent, and nothing follows it.
    pub open spec fn fills(&self, text: Seq<u8>) -> bool {
        &&& (self.whole_end - self.whole_start) + (self.fraction_end - self.fraction_start) >= 1
        &&& (self.has_exponent ==> self.exponent_end > self.exponent_start)
        &&& self.end() == text.len()
    }

    /// The digits of the literal, those before the point followed by those
    /// after it.
    pub open spec fn digits(&self, text: Seq<u8>) -> Seq<u8> {
        text.subrange(self.whole_start, self.whole_end) + text.subrange(
            self.fraction_start,
            self.fraction_end,
        )
    }

    /// The exponent of the literal; 0 where it has none.
    pub open spec fn exponent(&self, text: Seq<u8>) -> int {
        if !self.has_exponent {
            0
        } else if self.exponent_negative {
            -digits_value(text.subrange(self.exponent_start, self.exponent_end))
        } else {
            digits_value(text.subrange(self.exponent_start, self.exponent_end))
        }
    }

    /// The power of ten by which the digits, read as one number, are to be
    /// multiplied to give billionths.
    pub open spec fn shift(&self, text: Seq<u8>) -> int {
        9 + self.exponent(text) - (self.fraction_end - self.fraction_start)
    }
}

/// The number spelled by `digits` times ten to the power `shift`, rounded to
/// the nearest integer, halves going up.
pub open spec fn shifted(digits: Seq<u8>, shift: int) -> int {
    if shift >= 0 {
        digits_value(digits) * pow10(shift as nat)
    } else {
        round_div(digits_value(digits), pow10((-shift) as nat))
    }
}

/// The value of the literal `text` in billionths; `None` where `text` is no
/// literal or its value cannot be stored.
pub open spec fn decimal_value(text: Seq<u8>) -> Option<int> {
    let layout = layout_of(text);
    let magnitude = shifted(layout.digits(text), layout.shift(text));
    let value = if layout.negative {
        -magnitude
    } else {
        magnitude
    };
    if layout.fills(text) && representable(value) {
        Some(value)
    } else {
        None
    }
}

/// The digits of a run are digits, and the run stops at the end of the text
/// or at a byte that is no digit.
pub proof fn lemma_digits_end(text: Seq<u8>, from: int)
    requires
        0 <= from <= text.len(),
    ensures
        from <= digits_end(text, from) <= text.len(),
        all_digits(text.subrange(from, digits_end(text, from))),
        digits_end(text, from) < text.len() ==> !is_digit(text[digits_end(text, from)]),
    decreases text.len() - from,
{
    if from < text.len() && is_digit(text[from]) {
        lemma_digits_end(text, from + 1);
        let end = digits_end(text, from);
        assert forall|i: int| 0 <= i < end - from implies is_digit(
            #[trigger] text.subrange(from, end)[i],
        ) by {
            if i > 0 {
                assert(text.subrange(from, end)[i] == text.subrange(from + 1, end)[i - 1]);
            }
        }
    }
}

/// Digits spell a number that is not negative and has no more digits than
/// they are.
pub proof fn lemma_value_bounds(s: Seq<u8>)
    requires
        all_digits(s),
    ensures
        0 <= digits_value(s) < pow10(s.len()),
    decreases s.len(),
{
    if s.len() > 0 {
        let front = s.drop_last();
        assert(forall|i: int| 0 <= i < front.len() ==> front[i] == s[i]);
        lemma_value_bounds(front);
        assert(is_digit(s[s.len() - 1]));
    }
}

/// The number spelled by digits is the number spelled by their first `at`,
/// times ten for each digit that follows, plus the number spelled by the
/// rest.
pub proof fn lemma_value_split(s: Seq<u8>, at: int)
    requires
        0 <= at <= s.len(),
    ensures
        digits_value(s) == digits_value(s.take(at)) * pow10((s.len() - at) as nat) + digits_value(
            s.skip(at),
        ),
    decreases s.len(),
{
    if at == s.len() {
        assert(s.take(at) =~= s);
        assert(s.skip(at) =~= Seq::<u8>::empty());
    } else {
        let front = s.drop_last();
        lemma_value_split(front, at);
        assert(front.take(at) =~= s.take(at));
        assert(s.skip(at).drop_last() =~= front.skip(at));
        assert(s.skip(at).last() == s.last());
        let head = digits_value(s.take(at));
        let rest = digits_value(front.skip(at));
        let p = pow10((front.len() - at) as nat);
        assert(pow10((s.len() - at) as nat) == 10 * p);
        assert(10 * (head * p + rest) == head * (10 * p) + 10 * rest) by (nonlinear_arith);
    }
}

/// A beginning of digits spells no more than all of them.
pub proof fn lemma_value_grows(s: Seq<u8>, at: int)
    requires
        all_digits(s),
        0 <= at <= s.len(),
    ensures
        0 <= digits_value(s.take(at)) <= digits_value(s),
{
    lemma_value_split(s, at);
    assert(forall|i: int| 0 <= i < at ==> s.take(at)[i] == s[i]);
    assert(forall|i: int| 0 <= i < s.len() - at ==> s.skip(at)[i] == s[i + at]);
    lemma_value_bounds(s.take(at));
    lemma_value_bounds(s.skip(at));
    lemma_pow10_positive((s.len() - at) as nat);
    assert(digits_value(s.take(at)) * pow10((s.len() - at) as nat) >= digits_value(s.take(at)))
        by (nonlinear_arith)
        requires
            digits_value(s.take(at)) >= 0,
            pow10((s.len() - at) as nat) >= 1,
    ;
}

/// Digits that spell zero give zero whatever the shift.
pub proof fn lemma_shifted_zero(digits: Seq<u8>, shift: int)
    requires
        digits_value(digits) == 0,
    ensures
        shifted(digits, shift) == 0,
{
    if shift < 0 {
        lemma_pow10_positive((-shift) as nat);
        lemma_round_div_by_remainder(0, pow10((-shift) as nat));
    }
}

/// Digits that do not spell zero, shifted up by nineteen places or more,
/// give at least ten to the nineteenth.
pub proof fn lemma_shifted_large(digits: Seq<u8>, shift: int)
    requires
        digits_value(digits) >= 1,
        shift >= 19,
    ensures
        shifted(digits, shift) >= 10_000_000_000_000_000_000,
{
    lemma_pow10_monotonic(19, shift as nat);
    lemma_pow10_values();
    assert(pow10(19) == 10 * pow10(18));
    assert(digits_value(digits) * pow10(shift as nat) >= pow10(shift as nat)) by (nonlinear_arith)
        requires
            digits_value(digits) >= 1,
            pow10(shift as nat) >= 0,
    ;
}

/// Digits shifted down by more places than they are give zero.
pub proof fn lemma_shifted_away(digits: Seq<u8>, shift: int)
    requires
        all_digits(digits),
        shift < -digits.len(),
    ensures
        shifted(digits, shift) == 0,
{
    let m = digits_value(digits);
    let c = (-shift) as nat;
    lemma_value_bounds(digits);
    lemma_pow10_monotonic(digits.len(), (c - 1) as nat);
    assert(pow10(c) == 10 * pow10((c - 1) as nat));
    lemma_round_div_by_remainder(m, pow10(c));
    vstd::arithmetic::div_mod::lemma_small_mod(m as nat, pow10(c) as nat);
    vstd::arithmetic::div_mod::lemma_basic_div(m, pow10(c));
}

/// Digits shifted down by `c` places, no more than they are, give the
/// number spelled by the digits that stay, plus one where the first digit
/// that goes is 5 or more.
pub proof fn lemma_shifted_down(digits: Seq<u8>, c: int)
    requires
        all_digits(digits),
        1 <= c <= digits.len(),
    ensures
        shifted(digits, -c) == digits_value(digits.take(digits.len() - c)) + (if digits[digits.len()
            - c] >= 53 {
            1int
        } else {
            0int
        }),
{
    let n = digits.len() as int;
    let keep = n - c;
    let m = digits_value(digits);
    let d = pow10(c as nat);
    let head = digits_value(digits.take(keep));
    let tail = digits.skip(keep);
    let rest = digits_value(tail);
    lemma_value_split(digits, keep);
    assert(forall|i: int| 0 <= i < keep ==> digits.take(keep)[i] == digits[i]);
    assert(forall|i: int| 0 <= i < c ==> tail[i] == digits[i + keep]);
    lemma_value_bounds(digits.take(keep));
    lemma_value_bounds(tail);
    lemma_pow10_positive(c as nat);
    assert(m == d * head + rest) by (nonlinear_arith)
        requires
            m == head * d + rest,
    ;
    vstd::arithmetic::div_mod::lemma_fundamental_div_mod_converse(m, d, head, rest);
    lemma_round_div_by_remainder(m, d);
    lemma_value_split(tail, 1);
    let first = tail.take(1);
    assert(first.drop_last() =~= Seq::<u8>::empty());
    assert(first.last() == tail[0]);
    assert(digits_value(first.drop_last()) == 0);
    assert(digits_value(first) == 10 * digits_value(first.drop_last()) + (first.last() - 48));
    let lower = digits_value(tail.skip(1));
    assert(forall|i: int| 0 <= i < c - 1 ==> tail.skip(1)[i] == tail[i + 1]);
    lemma_value_bounds(tail.skip(1));
    let p = pow10((c - 1) as nat);
    assert(d == 10 * p);
    assert(rest == (tail[0] - 48) * p + lower);
    assert(is_digit(tail[0]));
    if tail[0] >= 53 {
        assert((tail[0] - 48) * p >= 5 * p) by (nonlinear_arith)
            requires
                tail[0] - 48 >= 5,
                p >= 0,
        ;
    } else {
        assert((tail[0] - 48) * p <= 4 * p) by (nonlinear_arith)
            requires
                tail[0] - 48 <= 4,
                p >= 0,
        ;
    }
}

/// Largest exponent that is read exactly: ten to the thirtieth. A larger one
/// is read as this one, which decides the value just as well.
pub const EXPONENT_CAP: i128 = 1_000_000_000_000_000_000_000_000_000_000;

/// Largest number of billionths that is read exactly before it is found too
/// large: ten to the nineteenth.
pub const MAGNITUDE_CAP: u128 = 10_000_000_000_000_000_000;

/// Where the run of digits that starts at `from` ends.
pub fn scan_digits(text: &[u8], from: usize) -> (end: usize)
    requires
        from <= text@.len(),
    ensures
        end == digits_end(text@, from as int),
        from <= end <= text@.len(),
{
    let mut i: usize = from;
    while i < text.len() && 48 <= text[i] && text[i] <= 57
        invariant
            from <= i <= text@.len(),
            digits_end(text@, i as int) == digits_end(text@, from as int),
        decreases text@.len() - i,
    {
        i = i + 1;
    }
    i
}

/// The number that the digits from `start` to `end` spell, or ten to the
/// thirtieth where they spell more.
pub fn read_capped(text: &[u8], start: usize, end: usize) -> (value: i128)
    requires
        start <= end <= text@.len(),
        all_digits(text@.subrange(start as int, end as int)),
    ensures
        0 <= value <= EXPONENT_CAP,
        value < EXPONENT_CAP ==> value == digits_value(text@.subrange(start as int, end as int)),
        value == EXPONENT_CAP ==> digits_value(text@.subrange(start as int, end as int))
            >= EXPONENT_CAP,
{
    let ghost digits = text@.subrange(start as int, end as int);
    let mut value: i128 = 0;
    let mut i: usize = start;
    while i < end
        invariant
            start <= i <= end <= text@.len(),
            digits == text@.subrange(start as int, end as int),
            all_digits(digits),
            0 <= value <= EXPONENT_CAP,
            value < EXPONENT_CAP ==> value == digits_value(digits.take(i - start)),
            value == EXPONENT_CAP ==> digits_value(digits.take(i - start)) >= EXPONENT_CAP,
        decreases end - i,
    {
        proof {
            let next = digits.take(i - start + 1);
            assert(next.drop_last() =~= digits.take(i - start));
            assert(next.last() == text@[i as int]);
            assert(is_digit(digits[i - start]));
        }
        let digit: i128 = (text[i] - 48) as i128;
        if value < EXPONENT_CAP {
            value = value * 10 + digit;
            if value > EXPONENT_CAP {
                value = EXPONENT_CAP;
            }
        }
        i = i + 1;
    }
    proof {
        assert(digits.take(end - start) =~= digits);
    }
    value
}

/// The number that the first `keep` digits spell, the digits being those
/// from `a0` to `a1` followed by those from `b0` to `b1`; `None` where they
/// spell more than ten to the nineteenth.
fn read_head(text: &[u8], a0: usize, a1: usize, b0: usize, b1: usize, keep: usize) -> (head:
    Option<u128>)
    requires
        a0 <= a1 <= text@.len(),
        b0 <= b1 <= text@.len(),
        keep <= (a1 - a0) + (b1 - b0),
        all_digits(text@.subrange(a0 as int, a1 as int) + text@.subrange(b0 as int, b1 as int)),
    ensures
        head is Some <==> digits_value(
            (text@.subrange(a0 as int, a1 as int) + text@.subrange(b0 as int, b1 as int)).take(
                keep as int,
            ),
        ) <= MAGNITUDE_CAP,
        head is Some ==> head->Some_0 == digits_value(
            (text@.subrange(a0 as int, a1 as int) + text@.subrange(b0 as int, b1 as int)).take(
                keep as int,
            ),
        ),
{
    let ghost digits = text@.subrange(a0 as int, a1 as int) + text@.subrange(b0 as int, b1 as int);
    let ghost kept = digits.take(keep as int);
    let first: usize = a1 - a0;
    let mut value: u128 = 0;
    let mut j: usize = 0;
    proof {
        assert(forall|i: int| 0 <= i < keep ==> kept[i] == digits[i]);
    }
    while j < keep
        invariant
            a0 <= a1 <= text@.len(),
            b0 <= b1 <= text@.len(),
            first == a1 - a0,
            j <= keep <= (a1 - a0) + (b1 - b0),
            digits == text@.subrange(a0 as int, a1 as int) + text@.subrange(b0 as int, b1 as int),
            kept == digits.take(keep as int),
            all_digits(digits),
            all_digits(kept),
            value == digits_value(kept.take(j as int)),
            value <= MAGNITUDE_CAP,
        decreases keep - j,
    {
        let byte = if j < first {
            text[a0 + j]
        } else {
            text[b0 + (j - first)]
        };
        proof {
            let next = kept.take(j + 1);
            assert(next.drop_last() =~= kept.take(j as int));
            assert(next.last() == digits[j as int]);
            assert(digits[j as int] == byte);
            assert(is_digit(kept[j as int]));
        }
        value = value * 10 + (byte - 48) as u128;
        if value > MAGNITUDE_CAP {
            proof {
                lemma_value_grows(kept, j + 1);
            }
            return None;
        }
        j = j + 1;
    }
    proof {
        assert(kept.take(keep as int) =~= kept);
    }
    Some(value)
}

/// Where the parts of a literal were found, and its exponent.
struct Scanned {
    negative: bool,
    whole_start: usize,
    whole_end: usize,
    fraction_start: usize,
    fraction_end: usize,
    /// The exponent, or plus or minus ten to the thirtieth where it lies
    /// beyond.
    exponent: i128,
}

impl Scanned {
    /// Whether this is what is found in `text`, a literal that fills it.
    spec fn matches(&self, text: Seq<u8>) -> bool {
        let layout = layout_of(text);
        &&& layout.fills(text)
        &&& self.negative == layout.negative
        &&& self.whole_start == layout.whole_start
        &&& self.whole_end == layout.whole_end
        &&& self.fraction_start == layout.fraction_start
        &&& self.fraction_end == layout.fraction_end
        &&& self.whole_start <= self.whole_end <= self.fraction_start <= self.fraction_end
            <= text.len()
        &&& all_digits(layout.digits(text))
        &&& -EXPONENT_CAP <= self.exponent <= EXPONENT_CAP
        &&& (-EXPONENT_CAP < self.exponent < EXPONENT_CAP ==> layout.exponent(text)
            == self.exponent)
        &&& (self.exponent == EXPONENT_CAP ==> layout.exponent(text) >= EXPONENT_CAP)
        &&& (self.exponent == -EXPONENT_CAP ==> layout.exponent(text) <= -EXPONENT_CAP)
    }
}

/// Finds the parts of the literal that fills `text`; `None` where `text` is
/// no literal.
fn scan_literal(text: &[u8]) -> (found: Option<Scanned>)
    ensures
        found is Some <==> layout_of(text@).fills(text@),
        found is Some ==> found->Some_0.matches(text@),
{
    let ghost layout = layout_of(text@);
    let len = text.len();
    let negative = len > 0 && text[0] == 45;
    let whole_start: usize = if len > 0 && (text[0] == 43 || text[0] == 45) {
        1
    } else {
        0
    };
    let whole_end = scan_digits(text, whole_start);
    let fraction_start: usize = if whole_end < len && text[whole_end] == 46 {
        whole_end + 1
    } else {
        whole_end
    };
    let fraction_end = scan_digits(text, fraction_start);
    let has_exponent = fraction_end < len && (text[fraction_end] == 101 || text[fraction_end]
        == 69);
    proof {
        lemma_digits_end(text@, whole_start as int);
        lemma_digits_end(text@, fraction_start as int);
    }
    if (whole_end - whole_start) + (fraction_end - fraction_start) < 1 {
        return None;
    }
    let mut exponent: i128 = 0;
    if has_exponent {
        let signed = fraction_end + 1 < len && (text[fraction_end + 1] == 43 || text[fraction_end
            + 1] == 45);
        let exponent_start: usize = if signed {
            fraction_end + 2
        } else {
            fraction_end + 1
        };
        let exponent_end = scan_digits(text, exponent_start);
        proof {
            lemma_digits_end(text@, exponent_start as int);
        }
        if exponent_end == exponent_start || exponent_end != len {
            return None;
        }
        let size = read_capped(text, exponent_start, exponent_end);
        exponent = if signed && text[fraction_end + 1] == 45 {
            -size
        } else {
            size
        };
    } else if fraction_end != len {
        return None;
    }
    proof {
        let digits = layout.digits(text@);
        assert forall|i: int| 0 <= i < digits.len() implies is_digit(#[trigger] digits[i]) by {
            if i < whole_end - whole_start {
                assert(digits[i] == text@.subrange(whole_start as int, whole_end as int)[i]);
            } else {
                assert(digits[i] == text@.subrange(fraction_start as int, fraction_end as int)[i
                    - (whole_end - whole_start)]);
            }
        }
    }
    Some(Scanned { negative, whole_start, whole_end, fraction_start, fraction_end, exponent })
}

/// The magnitude of the scanned literal in billionths. `None` where it is
/// more than can be stored with either sign.
fn read_magnitude(text: &[u8], scanned: &Scanned) -> (magnitude: Option<u128>)
    requires
        scanned.matches(text@),
    ensures
        magnitude is Some ==> magnitude->Some_0 == shifted(
            layout_of(text@).digits(text@),
            layout_of(text@).shift(text@),
        ),
        magnitude is None ==> shifted(
            layout_of(text@).digits(text@),
            layout_of(text@).shift(text@),
        ) > 0x8000_0000_0000_0000,
{
    let ghost layout = layout_of(text@);
    let ghost digits = layout.digits(text@);
    let ghost true_shift = layout.shift(text@);
    let whole: usize = scanned.whole_end - scanned.whole_start;
    let places: usize = scanned.fraction_end - scanned.fraction_start;
    let count: usize = whole + places;
    let shift: i128 = 9 + scanned.exponent - (places as i128);
    proof {
        assert(digits.len() == count);
        lemma_value_bounds(digits);
        assert(-EXPONENT_CAP < scanned.exponent < EXPONENT_CAP ==> true_shift == shift);
        assert(scanned.exponent == EXPONENT_CAP ==> true_shift >= shift);
        assert(scanned.exponent == -EXPONENT_CAP ==> true_shift <= shift);
    }
    if shift < -(count as i128) {
        proof {
            lemma_shifted_away(digits, true_shift);
        }
        return Some(0);
    }
    assert(shift <= 18 ==> true_shift == shift);
    let keep: usize = if shift < 0 {
        (count as i128 + shift) as usize
    } else {
        count
    };
    let head = match read_head(
        text,
        scanned.whole_start,
        scanned.whole_end,
        scanned.fraction_start,
        scanned.fraction_end,
        keep,
    ) {
        Some(head) => head,
        None => {
            proof {
                if shift < 0 {
                    lemma_shifted_down(digits, -true_shift);
                } else {
                    assert(digits.take(keep as int) =~= digits);
                    lemma_pow10_positive(true_shift as nat);
                    assert(digits_value(digits) * pow10(true_shift as nat) >= digits_value(
                        digits,
                    )) by (nonlinear_arith)
                        requires
                            digits_value(digits) >= 0,
                            pow10(true_shift as nat) >= 1,
                    ;
                }
            }
            return None;
        },
    };
    if shift < 0 {
        proof {
            lemma_shifted_down(digits, -true_shift);
        }
        let turning = if keep < whole {
            text[scanned.whole_start + keep]
        } else {
            text[scanned.fraction_start + (keep - whole)]
        };
        assert(turning == digits[keep as int]);
        if turning >= 53 {
            Some(head + 1)
        } else {
            Some(head)
        }
    } else {
        proof {
            assert(digits.take(keep as int) =~= digits);
        }
        if head == 0 {
            proof {
                lemma_shifted_zero(digits, true_shift);
            }
            Some(0)
        } else if shift > 18 {
            proof {
                lemma_shifted_large(digits, true_shift);
            }
            None
        } else {
            let scale = power_of_ten(shift as usize);
            proof {
                assert(head * scale <= 10_000_000_000_000_000_000 * 1_000_000_000_000_000_000)
                    by (nonlinear_arith)
                    requires
                        0 <= head <= 10_000_000_000_000_000_000,
                        0 <= scale <= 1_000_000_000_000_000_000,
                ;
            }
            Some(head * (scale as u128))
        }
    }
}

/// Reads a decimal literal. `None` where `text` is no literal, or where its
/// value rounded to the nearest billionth cannot be stored.
pub fn parse_decimal(text: &[u8]) -> (value: Option<Fixed>)
    ensures
        match decimal_value(text@) {
            Some(v) => value is Some && value->Some_0@ == v,
            None => value is None,
        },
{
    let scanned = match scan_literal(text) {
        Some(scanned) => scanned,
        None => {
            return None;
        },
    };
    match read_magnitude(text, &scanned) {
        None => None,
        Some(magnitude) => {
            if scanned.negative {
                if magnitude > 0x8000_0000_0000_0000 {
                    None
                } else {
                    Some(Fixed { nanos: (-(magnitude as i128)) as i64 })
                }
            } else {
                if magnitude > 0x7fff_ffff_ffff_ffff {
                    None
                } else {
                    Some(Fixed { nanos: magnitude as i64 })
                }
            }
        },
    }
}

/// The digits that spell `n`, without leading zeros; `0` for zero.
pub open spec fn digits_of(n: nat) -> Seq<u8>
    decreases n,
{
    if n < 10 {
        seq![(48 + n) as u8]
    } else {
        digits_of(n / 10).push((48 + n % 10) as u8)
    }
}

/// The last `width` digits of `n`, with leading zeros where `n` has fewer.
pub open spec fn padded_digits(n: nat, width: nat) -> Seq<u8>
    decreases width,
{
    if width == 0 {
        Seq::empty()
    } else {
        padded_digits(n / 10, (width - 1) as nat).push((48 + n % 10) as u8)
    }
}

/// The literal that spells `v` billionths: a `-` where `v` is negative, the
/// whole units, a point, and nine digits of billionths.
#[verifier::opaque]
pub open spec fn decimal_text(v: int) -> Seq<u8> {
    let magnitude = (if v < 0 { -v } else { v }) as nat;
    let sign = if v < 0 { seq![45u8] } else { Seq::<u8>::empty() };
    sign + digits_of(magnitude / 1_000_000_000) + seq![46u8] + padded_digits(
        magnitude % 1_000_000_000,
        9,
    )
}

/// The digits of a number are digits and spell the number.
pub proof fn lemma_digits_of(n: nat)
    ensures
        digits_of(n).len() >= 1,
        all_digits(digits_of(n)),
        digits_value(digits_of(n)) == n,
    decreases n,
{
    if n < 10 {
        let s = digits_of(n);
        assert(s.drop_last() =~= Seq::<u8>::empty());
        assert(digits_value(s.drop_last()) == 0);
    } else {
        lemma_digits_of(n / 10);
        let s = digits_of(n);
        assert(s.drop_last() =~= digits_of(n / 10));
    }
}

/// Padded digits are as many as asked for, are digits, and spell what is
/// left of the number after division by ten to their count.
pub proof fn lemma_padded_digits(n: nat, width: nat)
    ensures
        padded_digits(n, width).len() == width,
        all_digits(padded_digits(n, width)),
        digits_value(padded_digits(n, width)) == n % (pow10(width) as nat),
    decreases width,
{
    lemma_pow10_positive(width);
    if width == 0 {
    } else {
        lemma_padded_digits(n / 10, (width - 1) as nat);
        lemma_pow10_positive((width - 1) as nat);
        let s = padded_digits(n, width);
        assert(s.drop_last() =~= padded_digits(n / 10, (width - 1) as nat));
        let p = pow10((width - 1) as nat);
        vstd::arithmetic::div_mod::lemma_breakdown(n as int, 10, p);
        assert(10 * p == pow10(width));
    }
}

/// A run of digits that is followed by no digit ends where it is known to
/// end.
pub proof fn lemma_run_ends(text: Seq<u8>, from: int, to: int)
    requires
        0 <= from <= to <= text.len(),
        all_digits(text.subrange(from, to)),
        to < text.len() ==> !is_digit(text[to]),
    ensures
        digits_end(text, from) == to,
    decreases to - from,
{
    if from < to {
        assert(text.subrange(from, to)[0] == text[from]);
        assert forall|i: int| 0 <= i < to - (from + 1) implies is_digit(
            #[trigger] text.subrange(from + 1, to)[i],
        ) by {
            assert(text.subrange(from + 1, to)[i] == text.subrange(from, to)[i + 1]);
        }
        lemma_run_ends(text, from + 1, to);
    }
}

/// What is written is read back: the literal that spells a quantity has
/// that quantity for its value.
pub proof fn law_text_round_trip(v: int)
    requires
        representable(v),
    ensures
        decimal_value(decimal_text(v)) == Some(v),
{
    reveal(decimal_text);
    let magnitude = (if v < 0 { -v } else { v }) as nat;
    let whole = digits_of(magnitude / 1_000_000_000);
    let fraction = padded_digits(magnitude % 1_000_000_000, 9);
    let sign = if v < 0 { seq![45u8] } else { Seq::<u8>::empty() };
    let text = decimal_text(v);
    lemma_digits_of(magnitude / 1_000_000_000);
    lemma_padded_digits(magnitude % 1_000_000_000, 9);
    lemma_pow10_values();
    let a = sign.len() as int;
    let b = a + whole.len();
    assert(text.len() == b + 10);
    assert(text.subrange(a, b) =~= whole);
    assert(text.subrange(b + 1, b + 10) =~= fraction);
    assert(text[b] == 46);
    assert(is_digit(whole[0]));
    assert(text[a] == whole[0]);
    if v < 0 {
        assert(text[0] == 45);
    }
    lemma_run_ends(text, a, b);
    lemma_run_ends(text, b + 1, b + 10);
    let layout = layout_of(text);
    assert(layout.whole_start == a);
    assert(layout.whole_end == b);
    assert(layout.fraction_start == b + 1);
    assert(layout.fraction_end == b + 10);
    assert(!layout.has_exponent);
    assert(layout.negative == (v < 0));
    assert(layout.fills(text));
    let digits = layout.digits(text);
    assert(digits =~= whole + fraction);
    lemma_value_split(digits, whole.len() as int);
    assert(digits.take(whole.len() as int) =~= whole);
    assert(digits.skip(whole.len() as int) =~= fraction);
    assert(layout.shift(text) == 0);
    assert(pow10(0) == 1);
    vstd::arithmetic::div_mod::lemma_fundamental_div_mod(magnitude as int, 1_000_000_000);
    assert(magnitude % 1_000_000_000 < 1_000_000_000);
    vstd::arithmetic::div_mod::lemma_small_mod(
        (magnitude % 1_000_000_000) as nat,
        1_000_000_000,
    );
    assert(digits_value(digits) == magnitude) by (nonlinear_arith)
        requires
            digits_value(digits) == (magnitude / 1_000_000_000) * 1_000_000_000 + (magnitude
                % 1_000_000_000),
            magnitude == 1_000_000_000 * (magnitude / 1_000_000_000) + (magnitude
                % 1_000_000_000),
    ;
    assert(shifted(digits, 0) == digits_value(digits) * 1);
}

/// Appends the digits of `n` to `out`.
pub fn push_digits(n: u64, out: &mut Vec<u8>)
    ensures
        final(out)@ == old(out)@ + digits_of(n as nat),
    decreases n,
{
    if n >= 10 {
        push_digits(n / 10, out);
    }
    out.push(48 + (n % 10) as u8);
    proof {
        if n < 10 {
            assert(old(out)@.push((48 + n) as u8) =~= old(out)@ + digits_of(n as nat));
        } else {
            assert((old(out)@ + digits_of((n / 10) as nat)).push((48 + n % 10) as u8) =~= old(
                out,
            )@ + digits_of(n as nat));
        }
    }
}

/// Appends the last `width` digits of `n` to `out`, with leading zeros
/// where `n` has fewer.
pub fn push_padded(n: u64, width: usize, out: &mut Vec<u8>)
    ensures
        final(out)@ == old(out)@ + padded_digits(n as nat, width as nat),
    decreases width,
{
    if width == 0 {
        proof {
            assert(old(out)@ =~= old(out)@ + padded_digits(n as nat, 0));
        }
        return ;
    }
    push_padded(n / 10, width - 1, out);
    out.push(48 + (n % 10) as u8);
    proof {
        assert((old(out)@ + padded_digits((n / 10) as nat, (width - 1) as nat)).push(
            (48 + n % 10) as u8,
        ) =~= old(out)@ + padded_digits(n as nat, width as nat));
    }
}

/// Writes a quantity as a decimal literal. What it writes, `parse_decimal`
/// reads back as the same quantity.
pub fn format_decimal(value: Fixed) -> (text: Vec<u8>)
    ensures
        text@ == decimal_text(value@),
        decimal_value(text@) == Some(value@),
{
    let mut text: Vec<u8> = Vec::new();
    let magnitude: u64 = if value.nanos < 0 {
        text.push(45);
        (-(value.nanos as i128)) as u64
    } else {
        value.nanos as u64
    };
    push_digits(magnitude / 1_000_000_000, &mut text);
    text.push(46);
    push_padded(magnitude % 1_000_000_000, 9, &mut text);
    proof {
        reveal(decimal_text);
        law_text_round_trip(value@);
        assert(text@ =~= decimal_text(value@));
    }
    text
}

} // verus!

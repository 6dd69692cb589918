//! The file in which a simulated device keeps its state.
//!
//! The file holds one record of four members, in this order and under these
//! names: `description`, a string; `zero_point` and `raw_angle`, decimal
//! numbers of degrees; `date`, a string. It is written as
//!
//! ```text
//! {"description":"bench","zero_point":0.000000000,"raw_angle":171.000000000,"date":"2021-11-02T10:00:00Z"}
//! ```
//!
//! and read with blanks allowed around every brace, name, colon, comma and
//! value. Inside a string a backslash stands before every quotation mark
//! and every backslash, and before nothing else. The strings are kept as
//! bytes: whoever owns the file decides what text they are.

use crate::decimal::{
    decimal_text, decimal_value, digits_of, format_decimal, is_digit, law_text_round_trip,
    lemma_digits_of, lemma_padded_digits, padded_digits, parse_decimal,
};
use crate::device::{
    accepts, answer_to, frame_of, initial_model, simulate, state_after, DeviceError, DeviceModel,
    DeviceState, StateFile, TiltCommand, TiltOutcome,
};
use crate::fields::{is_space, separates};
use crate::fixed::{representable, Fixed};
use vstd::prelude::*;
use vstd::slice::slice_subrange;

verus! {

/// The name `"description"`, quotation marks included.
#[verifier::opaque]
pub open spec fn description_name() -> Seq<u8> {
    seq![34u8, 100, 101, 115, 99, 114, 105, 112, 116, 105, 111, 110, 34]
}

/// The name `"zero_point"`, quotation marks included.
#[verifier::opaque]
pub open spec fn zero_point_name() -> Seq<u8> {
    seq![34u8, 122, 101, 114, 111, 95, 112, 111, 105, 110, 116, 34]
}

/// The name `"raw_angle"`, quotation marks included.
#[verifier::opaque]
pub open spec fn raw_angle_name() -> Seq<u8> {
    seq![34u8, 114, 97, 119, 95, 97, 110, 103, 108, 101, 34]
}

/// The name `"date"`, quotation marks included.
#[verifier::opaque]
pub open spec fn date_name() -> Seq<u8> {
    seq![34u8, 100, 97, 116, 101, 34]
}

/// Whether a backslash is written before `byte` inside a string: before a
/// quotation mark and before a backslash.
pub open spec fn needs_escape(byte: u8) -> bool {
    byte == 34 || byte == 92
}

/// The bytes `s` as they are written inside a string.
pub open spec fn escaped(s: Seq<u8>) -> Seq<u8>
    decreases s.len(),
{
    if s.len() == 0 {
        Seq::empty()
    } else if needs_escape(s[0]) {
        seq![92u8, s[0]] + escaped(s.skip(1))
    } else {
        seq![s[0]] + escaped(s.skip(1))
    }
}

/// The string `s` as it is written: escaped, between quotation marks.
#[verifier::opaque]
pub open spec fn quoted(s: Seq<u8>) -> Seq<u8> {
    seq![34u8] + escaped(s) + seq![34u8]
}

/// A member as it is written: its name, a colon, and its value.
#[verifier::opaque]
pub open spec fn member(name: Seq<u8>, value: Seq<u8>) -> Seq<u8> {
    name + seq![58u8] + value
}

/// Four members as they are written: between braces, with commas between
/// them.
#[verifier::opaque]
pub open spec fn braced(m1: Seq<u8>, m2: Seq<u8>, m3: Seq<u8>, m4: Seq<u8>) -> Seq<u8> {
    seq![123u8] + m1 + seq![44u8] + m2 + seq![44u8] + m3 + seq![44u8] + m4 + seq![125u8]
}

/// The record as it is written.
pub open spec fn record_text(r: DeviceModel) -> Seq<u8> {
    braced(
        member(description_name(), quoted(r.description)),
        member(zero_point_name(), decimal_text(r.zero_point)),
        member(raw_angle_name(), decimal_text(r.raw_angle)),
        member(date_name(), quoted(r.timestamp)),
    )
}

/// Where the blanks that start at `at` end.
pub open spec fn blanks_end(text: Seq<u8>, at: int) -> int
    decreases text.len() - at,
{
    if 0 <= at < text.len() && is_space(text[at]) {
        blanks_end(text, at + 1)
    } else {
        at
    }
}

/// The place after `byte`, where `byte` stands at `at` or after blanks that
/// start at `at`.
pub open spec fn after_byte(text: Seq<u8>, at: int, byte: u8) -> Option<int> {
    let p = blanks_end(text, at);
    if 0 <= p < text.len() && text[p] == byte {
        Some(p + 1)
    } else {
        None
    }
}

/// The place after `name` and the colon that follows it, each where it
/// stands or after blanks.
pub open spec fn after_name(text: Seq<u8>, at: int, name: Seq<u8>) -> Option<int> {
    let p = blanks_end(text, at);
    if 0 <= p && p + name.len() <= text.len() && text.subrange(p, p + name.len()) == name {
        after_byte(text, p + name.len(), 58)
    } else {
        None
    }
}

/// The bytes of the string whose inside starts at `at`, and the place
/// after the quotation mark that ends it.
pub open spec fn string_inside(text: Seq<u8>, at: int) -> Option<(Seq<u8>, int)>
    decreases text.len() - at,
{
    if at < 0 || at >= text.len() {
        None
    } else if text[at] == 34 {
        Some((Seq::empty(), at + 1))
    } else if text[at] == 92 {
        if at + 1 < text.len() && needs_escape(text[at + 1]) {
            match string_inside(text, at + 2) {
                Some((s, end)) => Some((seq![text[at + 1]] + s, end)),
                None => None,
            }
        } else {
            None
        }
    } else {
        match string_inside(text, at + 1) {
            Some((s, end)) => Some((seq![text[at]] + s, end)),
            None => None,
        }
    }
}

/// The string that stands at `at` or after blanks, and the place after it.
pub open spec fn string_at(text: Seq<u8>, at: int) -> Option<(Seq<u8>, int)> {
    match after_byte(text, at, 34) {
        Some(p) => string_inside(text, p),
        None => None,
    }
}

/// Whether `byte` may stand in a number: a digit, a sign, a point or the
/// letter e.
pub open spec fn in_number(byte: u8) -> bool {
    (48 <= byte <= 57) || byte == 43 || byte == 45 || byte == 46 || byte == 101 || byte == 69
}

/// Where the bytes of a number that start at `at` end.
pub open spec fn number_end(text: Seq<u8>, at: int) -> int
    decreases text.len() - at,
{
    if 0 <= at < text.len() && in_number(text[at]) {
        number_end(text, at + 1)
    } else {
        at
    }
}

/// The number that stands at `at` or after blanks, and the place after it.
pub open spec fn number_at(text: Seq<u8>, at: int) -> Option<(int, int)> {
    let p = blanks_end(text, at);
    let end = number_end(text, p);
    if 0 <= p <= end <= text.len() {
        match decimal_value(text.subrange(p, end)) {
            Some(v) => Some((v, end)),
            None => None,
        }
    } else {
        None
    }
}

/// The string member called `name` that starts at `at`, and the place after
/// it.
pub open spec fn string_member(text: Seq<u8>, at: int, name: Seq<u8>) -> Option<(Seq<u8>, int)> {
    match after_name(text, at, name) {
        Some(p) => string_at(text, p),
        None => None,
    }
}

/// The number member called `name` that starts at `at`, and the place after
/// it.
pub open spec fn number_member(text: Seq<u8>, at: int, name: Seq<u8>) -> Option<(int, int)> {
    match after_name(text, at, name) {
        Some(p) => number_at(text, p),
        None => None,
    }
}

/// The first three members of the record that `text` holds, and the place
/// after the comma that follows them.
pub open spec fn head_of(text: Seq<u8>) -> Option<(Seq<u8>, int, int, int)> {
    match after_byte(text, 0, 123) {
        None => None,
        Some(p0) => match string_member(text, p0, description_name()) {
            None => None,
            Some((description, p1)) => match after_byte(text, p1, 44) {
                None => None,
                Some(p2) => match number_member(text, p2, zero_point_name()) {
                    None => None,
                    Some((zero_point, p3)) => match after_byte(text, p3, 44) {
                        None => None,
                        Some(p4) => match number_member(text, p4, raw_angle_name()) {
                            None => None,
                            Some((raw_angle, p5)) => match after_byte(text, p5, 44) {
                                None => None,
                                Some(p6) => Some((description, zero_point, raw_angle, p6)),
                            },
                        },
                    },
                },
            },
        },
    }
}

/// The record that `text` holds; `None` where it holds none.
pub open spec fn record_of(text: Seq<u8>) -> Option<DeviceModel> {
    match head_of(text) {
        None => None,
        Some((description, zero_point, raw_angle, p)) => match string_member(
            text,
            p,
            date_name(),
        ) {
            None => None,
            Some((date, q)) => match after_byte(text, q, 125) {
                None => None,
                Some(end) => if blanks_end(text, end) == text.len() {
                    Some(DeviceModel { description, zero_point, raw_angle, timestamp: date })
                } else {
                    None
                },
            },
        },
    }
}

fn skip_blanks(text: &[u8], at: usize) -> (p: usize)
    requires
        at <= text@.len(),
    ensures
        p == blanks_end(text@, at as int),
        at <= p <= text@.len(),
{
    let mut p: usize = at;
    while p < text.len() && separates(text[p])
        invariant
            at <= p <= text@.len(),
            blanks_end(text@, p as int) == blanks_end(text@, at as int),
        decreases text@.len() - p,
    {
        p = p + 1;
    }
    p
}

fn expect_byte(text: &[u8], at: usize, byte: u8) -> (place: Option<usize>)
    requires
        at <= text@.len(),
    ensures
        place is Some <==> after_byte(text@, at as int, byte) is Some,
        place is Some ==> place->Some_0 == after_byte(text@, at as int, byte)->Some_0
            && place->Some_0 <= text@.len(),
{
    let p = skip_blanks(text, at);
    if p < text.len() && text[p] == byte {
        Some(p + 1)
    } else {
        None
    }
}

fn expect_name(text: &[u8], at: usize, name: &[u8]) -> (place: Option<usize>)
    requires
        at <= text@.len(),
    ensures
        place is Some <==> after_name(text@, at as int, name@) is Some,
        place is Some ==> place->Some_0 == after_name(text@, at as int, name@)->Some_0
            && place->Some_0 <= text@.len(),
{
    let p = skip_blanks(text, at);
    if name.len() > text.len() - p {
        return None;
    }
    let mut j: usize = 0;
    while j < name.len()
        invariant
            j <= name@.len(),
            p == blanks_end(text@, at as int),
            p + name@.len() <= text@.len(),
            text@.len() <= usize::MAX,
            forall|k: int| 0 <= k < j ==> text@[p + k] == name@[k],
        decreases name@.len() - j,
    {
        if text[p + j] != name[j] {
            proof {
                assert(text@.subrange(p as int, p + name@.len())[j as int] == text@[p + j]);
            }
            return None;
        }
        j = j + 1;
    }
    proof {
        assert(text@.subrange(p as int, p + name@.len()) =~= name@);
    }
    expect_byte(text, p + name.len(), 58)
}

fn read_string(text: &[u8], at: usize) -> (found: Option<(Vec<u8>, usize)>)
    requires
        at <= text@.len(),
    ensures
        found is Some <==> string_at(text@, at as int) is Some,
        found is Some ==> {
            &&& found->Some_0.0@ == string_at(text@, at as int)->Some_0.0
            &&& found->Some_0.1 == string_at(text@, at as int)->Some_0.1
            &&& found->Some_0.1 <= text@.len()
        },
{
    let start = match expect_byte(text, at, 34) {
        Some(start) => start,
        None => {
            return None;
        },
    };
    let mut bytes: Vec<u8> = Vec::new();
    let mut i: usize = start;
    loop
        invariant
            start <= i <= text@.len(),
            string_at(text@, at as int) == string_inside(text@, start as int),
            string_inside(text@, start as int) == (match string_inside(text@, i as int) {
                Some((s, end)) => Some((bytes@ + s, end)),
                None => None,
            }),
        decreases text@.len() - i,
    {
        if i >= text.len() {
            return None;
        }
        let byte = text[i];
        if byte == 34 {
            proof {
                assert(bytes@ + Seq::<u8>::empty() =~= bytes@);
            }
            return Some((bytes, i + 1));
        }
        if byte == 92 {
            if i + 1 < text.len() && (text[i + 1] == 34 || text[i + 1] == 92) {
                let ghost before = bytes@;
                bytes.push(text[i + 1]);
                proof {
                    match string_inside(text@, i + 2) {
                        Some((s, end)) => {
                            assert(bytes@ + s =~= before + (seq![text@[i + 1]] + s));
                        },
                        None => {},
                    }
                }
                i = i + 2;
            } else {
                return None;
            }
        } else {
            let ghost before = bytes@;
            bytes.push(byte);
            proof {
                match string_inside(text@, i + 1) {
                    Some((s, end)) => {
                        assert(bytes@ + s =~= before + (seq![byte] + s));
                    },
                    None => {},
                }
            }
            i = i + 1;
        }
    }
}

fn read_number(text: &[u8], at: usize) -> (found: Option<(Fixed, usize)>)
    requires
        at <= text@.len(),
    ensures
        found is Some <==> number_at(text@, at as int) is Some,
        found is Some ==> {
            &&& found->Some_0.0@ == number_at(text@, at as int)->Some_0.0
            &&& found->Some_0.1 == number_at(text@, at as int)->Some_0.1
            &&& found->Some_0.1 <= text@.len()
        },
{
    let p = skip_blanks(text, at);
    let mut end: usize = p;
    while end < text.len() && ((48 <= text[end] && text[end] <= 57) || text[end] == 43 || text[end]
        == 45 || text[end] == 46 || text[end] == 101 || text[end] == 69)
        invariant
            p <= end <= text@.len(),
            number_end(text@, end as int) == number_end(text@, p as int),
        decreases text@.len() - end,
    {
        end = end + 1;
    }
    match parse_decimal(slice_subrange(text, p, end)) {
        Some(value) => Some((value, end)),
        None => None,
    }
}

fn read_string_member(text: &[u8], at: usize, name: &[u8]) -> (found: Option<(Vec<u8>, usize)>)
    requires
        at <= text@.len(),
    ensures
        found is Some <==> string_member(text@, at as int, name@) is Some,
        found is Some ==> {
            &&& found->Some_0.0@ == string_member(text@, at as int, name@)->Some_0.0
            &&& found->Some_0.1 == string_member(text@, at as int, name@)->Some_0.1
            &&& found->Some_0.1 <= text@.len()
        },
{
    match expect_name(text, at, name) {
        Some(p) => read_string(text, p),
        None => None,
    }
}

fn read_number_member(text: &[u8], at: usize, name: &[u8]) -> (found: Option<(Fixed, usize)>)
    requires
        at <= text@.len(),
    ensures
        found is Some <==> number_member(text@, at as int, name@) is Some,
        found is Some ==> {
            &&& found->Some_0.0@ == number_member(text@, at as int, name@)->Some_0.0
            &&& found->Some_0.1 == number_member(text@, at as int, name@)->Some_0.1
            &&& found->Some_0.1 <= text@.len()
        },
{
    match expect_name(text, at, name) {
        Some(p) => read_number(text, p),
        None => None,
    }
}

fn name_of_description() -> (name: Vec<u8>)
    ensures
        name@ == description_name(),
{
    let name = vec![34u8, 100, 101, 115, 99, 114, 105, 112, 116, 105, 111, 110, 34];
    reveal(description_name);
    assert(name@ =~= description_name());
    name
}

fn name_of_zero_point() -> (name: Vec<u8>)
    ensures
        name@ == zero_point_name(),
{
    let name = vec![34u8, 122, 101, 114, 111, 95, 112, 111, 105, 110, 116, 34];
    reveal(zero_point_name);
    assert(name@ =~= zero_point_name());
    name
}

fn name_of_raw_angle() -> (name: Vec<u8>)
    ensures
        name@ == raw_angle_name(),
{
    let name = vec![34u8, 114, 97, 119, 95, 97, 110, 103, 108, 101, 34];
    reveal(raw_angle_name);
    assert(name@ =~= raw_angle_name());
    name
}

fn name_of_date() -> (name: Vec<u8>)
    ensures
        name@ == date_name(),
{
    let name = vec![34u8, 100, 97, 116, 101, 34];
    reveal(date_name);
    assert(name@ =~= date_name());
    name
}

fn read_head(text: &[u8]) -> (found: Option<(Vec<u8>, Fixed, Fixed, usize)>)
    ensures
        found is Some <==> head_of(text@) is Some,
        found is Some ==> {
            &&& found->Some_0.0@ == head_of(text@)->Some_0.0
            &&& found->Some_0.1@ == head_of(text@)->Some_0.1
            &&& found->Some_0.2@ == head_of(text@)->Some_0.2
            &&& found->Some_0.3 == head_of(text@)->Some_0.3
            &&& found->Some_0.3 <= text@.len()
        },
{
    let p0 = match expect_byte(text, 0, 123) { Some(p) => p, None => { return None; } };
    let (description, p1) = match read_string_member(text, p0, name_of_description().as_slice()) {
        Some(m) => m,
        None => { return None; },
    };
    let p2 = match expect_byte(text, p1, 44) { Some(p) => p, None => { return None; } };
    let (zero_point, p3) = match read_number_member(text, p2, name_of_zero_point().as_slice()) {
        Some(m) => m,
        None => { return None; },
    };
    let p4 = match expect_byte(text, p3, 44) { Some(p) => p, None => { return None; } };
    let (raw_angle, p5) = match read_number_member(text, p4, name_of_raw_angle().as_slice()) {
        Some(m) => m,
        None => { return None; },
    };
    let p6 = match expect_byte(text, p5, 44) { Some(p) => p, None => { return None; } };
    Some((description, zero_point, raw_angle, p6))
}

/// Reads the record that a state file holds. `None` where the file holds
/// no record: where a brace, a name, a colon, a comma or a value is missing
/// or out of place, where a number is no decimal literal or too large, or
/// where anything but blanks follows the record.
pub fn read_state(text: &[u8]) -> (record: Option<DeviceState>)
    ensures
        match record_of(text@) {
            Some(r) => record is Some && record->Some_0@ == r,
            None => record is None,
        },
{
    let (description, zero_point, raw_angle, p) = match read_head(text) {
        Some(head) => head,
        None => { return None; },
    };
    let (date, q) = match read_string_member(text, p, name_of_date().as_slice()) {
        Some(m) => m,
        None => { return None; },
    };
    let end = match expect_byte(text, q, 125) { Some(p) => p, None => { return None; } };
    if skip_blanks(text, end) != text.len() {
        return None;
    }
    Some(DeviceState { description, zero_point, raw_angle, timestamp: date })
}

/// Where no blank stands, no blanks are passed over.
pub proof fn lemma_no_blanks(text: Seq<u8>, at: int)
    requires
        0 <= at <= text.len(),
        at < text.len() ==> !is_space(text[at]),
    ensures
        blanks_end(text, at) == at,
{
}

/// A name that stands at `at`, with its colon, is found there.
pub proof fn lemma_name_found(text: Seq<u8>, at: int, name: Seq<u8>)
    requires
        0 <= at,
        name.len() > 0,
        !is_space(name[0]),
        at + name.len() < text.len(),
        text.subrange(at, at + name.len()) == name,
        text[at + name.len()] == 58,
    ensures
        after_name(text, at, name) == Some(at + name.len() + 1),
{
    assert(text.subrange(at, at + name.len())[0] == text[at]);
    lemma_no_blanks(text, at);
    lemma_no_blanks(text, at + name.len());
}

/// The inside of a written string, with the quotation mark that ends it, is
/// read back as the string.
pub proof fn lemma_string_read(text: Seq<u8>, at: int, s: Seq<u8>)
    requires
        0 <= at,
        at + escaped(s).len() < text.len(),
        text.subrange(at, at + escaped(s).len()) == escaped(s),
        text[at + escaped(s).len()] == 34,
    ensures
        string_inside(text, at) == Some((s, at + escaped(s).len() + 1)),
    decreases s.len(),
{
    if s.len() == 0 {
        assert(s =~= Seq::<u8>::empty());
    } else {
        let rest = s.skip(1);
        let written = escaped(s);
        let tail = escaped(rest);
        let step: int = if needs_escape(s[0]) { 2 } else { 1 };
        assert(written.len() == step + tail.len());
        assert(text[at] == written[0]) by {
            assert(text.subrange(at, at + written.len())[0] == text[at]);
        }
        if needs_escape(s[0]) {
            assert(text[at + 1] == written[1]) by {
                assert(text.subrange(at, at + written.len())[1] == text[at + 1]);
            }
        }
        assert(text.subrange(at + step, at + step + tail.len()) =~= tail) by {
            assert forall|i: int| 0 <= i < tail.len() implies text.subrange(
                at + step,
                at + step + tail.len(),
            )[i] == tail[i] by {
                assert(text.subrange(at, at + written.len())[i + step] == text[at + step + i]);
                assert(written[i + step] == tail[i]);
            }
        }
        lemma_string_read(text, at + step, rest);
        assert(seq![s[0]] + rest =~= s);
    }
}

/// Every byte of a written quantity may stand in a number, and the first
/// is no blank.
pub proof fn lemma_decimal_text_bytes(v: int)
    ensures
        decimal_text(v).len() >= 3,
        forall|i: int| 0 <= i < decimal_text(v).len() ==> in_number(#[trigger] decimal_text(v)[i]),
{
    reveal(decimal_text);
    let magnitude = (if v < 0 { -v } else { v }) as nat;
    lemma_digits_of(magnitude / 1_000_000_000);
    lemma_padded_digits(magnitude % 1_000_000_000, 9);
    let whole = digits_of_text(v);
    let fraction = padded_digits(magnitude % 1_000_000_000, 9);
    let sign = if v < 0 { seq![45u8] } else { Seq::<u8>::empty() };
    let text = decimal_text(v);
    assert(text =~= sign + whole + seq![46u8] + fraction);
    assert forall|i: int| 0 <= i < text.len() implies in_number(#[trigger] text[i]) by {
        let a = sign.len() as int;
        let b = a + whole.len();
        if i < a {
        } else if i < b {
            assert(text[i] == whole[i - a]);
            assert(is_digit(whole[i - a]));
        } else if i == b {
        } else {
            assert(text[i] == fraction[i - b - 1]);
            assert(is_digit(fraction[i - b - 1]));
        }
    }
}

/// The digits of the whole units of `v`.
pub open spec fn digits_of_text(v: int) -> Seq<u8> {
    digits_of(((if v < 0 { -v } else { v }) as nat) / 1_000_000_000)
}

/// Bytes of a number that are followed by no such byte end where they are
/// known to end.
pub proof fn lemma_number_ends(text: Seq<u8>, from: int, to: int)
    requires
        0 <= from <= to <= text.len(),
        forall|i: int| from <= i < to ==> in_number(#[trigger] text[i]),
        to < text.len() ==> !in_number(text[to]),
    ensures
        number_end(text, from) == to,
    decreases to - from,
{
    if from < to {
        lemma_number_ends(text, from + 1, to);
    }
}

/// A written quantity that is followed by a byte that cannot stand in a
/// number is read back as the quantity.
pub proof fn lemma_number_read(text: Seq<u8>, at: int, v: int)
    requires
        representable(v),
        0 <= at,
        at + decimal_text(v).len() < text.len(),
        text.subrange(at, at + decimal_text(v).len()) == decimal_text(v),
        !in_number(text[at + decimal_text(v).len()]),
    ensures
        number_at(text, at) == Some((v, at + decimal_text(v).len())),
{
    let written = decimal_text(v);
    lemma_decimal_text_bytes(v);
    law_text_round_trip(v);
    assert forall|i: int| at <= i < at + written.len() implies in_number(#[trigger] text[i]) by {
        assert(text.subrange(at, at + written.len())[i - at] == text[i]);
        assert(in_number(written[i - at]));
    }
    assert(!is_space(text[at]));
    lemma_no_blanks(text, at);
    lemma_number_ends(text, at, at + written.len());
}

/// Writing one more byte inside a string.
pub proof fn lemma_escaped_push(s: Seq<u8>, byte: u8)
    ensures
        escaped(s.push(byte)) == escaped(s) + (if needs_escape(byte) {
            seq![92u8, byte]
        } else {
            seq![byte]
        }),
    decreases s.len(),
{
    let more = s.push(byte);
    if s.len() == 0 {
        assert(more.skip(1) =~= Seq::<u8>::empty());
        assert(escaped(more.skip(1)) =~= Seq::<u8>::empty());
        assert(escaped(more) =~= escaped(s) + (if needs_escape(byte) {
            seq![92u8, byte]
        } else {
            seq![byte]
        }));
    } else {
        assert(more.skip(1) =~= s.skip(1).push(byte));
        lemma_escaped_push(s.skip(1), byte);
        assert(escaped(more) =~= escaped(s) + (if needs_escape(byte) {
            seq![92u8, byte]
        } else {
            seq![byte]
        }));
    }
}

/// A written string member is read back as its string.
pub proof fn lemma_string_member_read(text: Seq<u8>, at: int, name: Seq<u8>, s: Seq<u8>)
    requires
        0 <= at,
        name.len() > 0,
        !is_space(name[0]),
        at + (member(name, quoted(s))).len() <= text.len(),
        text.subrange(at, at + (member(name, quoted(s))).len()) == member(name, quoted(s)),
    ensures
        string_member(text, at, name) == Some((s, at + (member(name, quoted(s))).len())),
{
    reveal(member);
    reveal(quoted);
    let member = name + seq![58u8] + quoted(s);
    let n = name.len() as int;
    let e = escaped(s).len() as int;
    assert(member.len() == n + e + 3);
    assert forall|i: int| 0 <= i < member.len() implies text[at + i] == member[i] by {
        assert(text.subrange(at, at + member.len())[i] == text[at + i]);
    }
    assert(text.subrange(at, at + n) =~= name) by {
        assert forall|i: int| 0 <= i < n implies text.subrange(at, at + n)[i] == name[i] by {
            assert(member[i] == name[i]);
        }
    }
    assert(text[at + n] == 58) by {
        assert(member[n] == 58);
    }
    lemma_name_found(text, at, name);
    assert(text[at + n + 1] == 34) by {
        assert(member[n + 1] == 34);
    }
    lemma_no_blanks(text, at + n + 1);
    assert(text.subrange(at + n + 2, at + n + 2 + e) =~= escaped(s)) by {
        assert forall|i: int| 0 <= i < e implies text.subrange(at + n + 2, at + n + 2 + e)[i]
            == escaped(s)[i] by {
            assert(member[n + 2 + i] == escaped(s)[i]);
        }
    }
    assert(text[at + n + 2 + e] == 34) by {
        assert(member[n + 2 + e] == 34);
    }
    lemma_string_read(text, at + n + 2, s);
}

/// A written number member that is followed by a byte that cannot stand in
/// a number is read back as its quantity.
pub proof fn lemma_number_member_read(text: Seq<u8>, at: int, name: Seq<u8>, v: int)
    requires
        representable(v),
        0 <= at,
        name.len() > 0,
        !is_space(name[0]),
        at + (member(name, decimal_text(v))).len() < text.len(),
        text.subrange(at, at + (member(name, decimal_text(v))).len()) == member(name, decimal_text(v)),
        !in_number(text[at + (member(name, decimal_text(v))).len()]),
    ensures
        number_member(text, at, name) == Some(
            (v, at + (member(name, decimal_text(v))).len()),
        ),
{
    reveal(member);
    let member = name + seq![58u8] + decimal_text(v);
    let n = name.len() as int;
    let d = decimal_text(v).len() as int;
    assert(member.len() == n + 1 + d);
    assert forall|i: int| 0 <= i < member.len() implies text[at + i] == member[i] by {
        assert(text.subrange(at, at + member.len())[i] == text[at + i]);
    }
    assert(text.subrange(at, at + n) =~= name) by {
        assert forall|i: int| 0 <= i < n implies text.subrange(at, at + n)[i] == name[i] by {
            assert(member[i] == name[i]);
        }
    }
    assert(text[at + n] == 58) by {
        assert(member[n] == 58);
    }
    lemma_name_found(text, at, name);
    assert(text.subrange(at + n + 1, at + n + 1 + d) =~= decimal_text(v)) by {
        assert forall|i: int| 0 <= i < d implies text.subrange(at + n + 1, at + n + 1 + d)[i]
            == decimal_text(v)[i] by {
            assert(member[n + 1 + i] == decimal_text(v)[i]);
        }
    }
    lemma_number_read(text, at + n + 1, v);
}

/// Every name starts with a quotation mark.
pub proof fn lemma_names()
    ensures
        description_name().len() > 0 && description_name()[0] == 34,
        zero_point_name().len() > 0 && zero_point_name()[0] == 34,
        raw_angle_name().len() > 0 && raw_angle_name()[0] == 34,
        date_name().len() > 0 && date_name()[0] == 34,
{
    reveal(description_name);
    reveal(zero_point_name);
    reveal(raw_angle_name);
    reveal(date_name);
}

/// Where each of four members stands between the braces, and where the
/// braces and the commas stand.
pub proof fn lemma_braced(m1: Seq<u8>, m2: Seq<u8>, m3: Seq<u8>, m4: Seq<u8>)
    ensures
        ({
            let text = braced(m1, m2, m3, m4);
            let a2: int = (m1.len() + 2) as int;
            let a3: int = a2 + m2.len() + 1;
            let a4: int = a3 + m3.len() + 1;
            let end: int = a4 + m4.len();
            &&& text.len() == end + 1
            &&& text[0] == 123
            &&& text[a2 - 1] == 44
            &&& text[a3 - 1] == 44
            &&& text[a4 - 1] == 44
            &&& text[end] == 125
            &&& text.subrange(1, a2 - 1) == m1
            &&& text.subrange(a2, a3 - 1) == m2
            &&& text.subrange(a3, a4 - 1) == m3
            &&& text.subrange(a4, end) == m4
        }),
{
    reveal(braced);
    let text = braced(m1, m2, m3, m4);
    let a2: int = (m1.len() + 2) as int;
    let a3: int = a2 + m2.len() + 1;
    let a4: int = a3 + m3.len() + 1;
    let end: int = a4 + m4.len();
    assert(text.subrange(1, a2 - 1) =~= m1);
    assert(text.subrange(a2, a3 - 1) =~= m2);
    assert(text.subrange(a3, a4 - 1) =~= m3);
    assert(text.subrange(a4, end) =~= m4);
}

/// Where the last member of a written record starts.
pub open spec fn tail_start(r: DeviceModel) -> int {
    (member(description_name(), quoted(r.description)).len() + member(
        zero_point_name(),
        decimal_text(r.zero_point),
    ).len() + member(raw_angle_name(), decimal_text(r.raw_angle)).len() + 4) as int
}

/// The first three members of a written record are read back.
pub proof fn lemma_head_read(r: DeviceModel)
    requires
        representable(r.zero_point),
        representable(r.raw_angle),
    ensures
        head_of(record_text(r)) == Some(
            (r.description, r.zero_point, r.raw_angle, tail_start(r)),
        ),
{
    let text = record_text(r);
    let m1 = member(description_name(), quoted(r.description));
    let m2 = member(zero_point_name(), decimal_text(r.zero_point));
    let m3 = member(raw_angle_name(), decimal_text(r.raw_angle));
    let m4 = member(date_name(), quoted(r.timestamp));
    let a2: int = (m1.len() + 2) as int;
    let a3: int = a2 + m2.len() + 1;
    let a4: int = a3 + m3.len() + 1;
    lemma_braced(m1, m2, m3, m4);
    lemma_no_blanks(text, 0);
    lemma_names();
    lemma_string_member_read(text, 1, description_name(), r.description);
    lemma_no_blanks(text, a2 - 1);
    lemma_number_member_read(text, a2, zero_point_name(), r.zero_point);
    lemma_no_blanks(text, a3 - 1);
    lemma_number_member_read(text, a3, raw_angle_name(), r.raw_angle);
    lemma_no_blanks(text, a4 - 1);
    assert(after_byte(text, 0, 123) == Some(1int));
    assert(string_member(text, 1, description_name()) == Some((r.description, a2 - 1)));
    assert(after_byte(text, a2 - 1, 44) == Some(a2));
    assert(number_member(text, a2, zero_point_name()) == Some((r.zero_point, a3 - 1)));
    assert(after_byte(text, a3 - 1, 44) == Some(a3));
    assert(number_member(text, a3, raw_angle_name()) == Some((r.raw_angle, a4 - 1)));
    assert(after_byte(text, a4 - 1, 44) == Some(a4));
}

/// Writing a state and reading it again gives the state back: the same
/// zero point, the same raw angle, the same description and the same date.
pub proof fn law_state_round_trip(r: DeviceModel)
    requires
        representable(r.zero_point),
        representable(r.raw_angle),
    ensures
        record_of(record_text(r)) == Some(r),
{
    let text = record_text(r);
    let m1 = member(description_name(), quoted(r.description));
    let m2 = member(zero_point_name(), decimal_text(r.zero_point));
    let m3 = member(raw_angle_name(), decimal_text(r.raw_angle));
    let m4 = member(date_name(), quoted(r.timestamp));
    let a4: int = tail_start(r);
    let end: int = a4 + m4.len();
    lemma_head_read(r);
    lemma_braced(m1, m2, m3, m4);
    lemma_names();
    lemma_string_member_read(text, a4, date_name(), r.timestamp);
    lemma_no_blanks(text, end);
    lemma_no_blanks(text, end + 1);
    assert(string_member(text, a4, date_name()) == Some((r.timestamp, end)));
    assert(after_byte(text, end, 125) == Some(end + 1));
}

fn push_bytes(out: &mut Vec<u8>, bytes: &[u8])
    ensures
        final(out)@ == old(out)@ + bytes@,
{
    let mut i: usize = 0;
    while i < bytes.len()
        invariant
            i <= bytes@.len(),
            out@ == old(out)@ + bytes@.take(i as int),
        decreases bytes@.len() - i,
    {
        out.push(bytes[i]);
        proof {
            assert(bytes@.take(i + 1) =~= bytes@.take(i as int).push(bytes@[i as int]));
            assert(out@ =~= old(out)@ + bytes@.take(i + 1));
        }
        i = i + 1;
    }
    proof {
        assert(bytes@.take(i as int) =~= bytes@);
    }
}

fn push_quoted(out: &mut Vec<u8>, s: &[u8])
    ensures
        final(out)@ == old(out)@ + quoted(s@),
{
    out.push(34);
    let mut i: usize = 0;
    while i < s.len()
        invariant
            i <= s@.len(),
            out@ == old(out)@ + seq![34u8] + escaped(s@.take(i as int)),
        decreases s@.len() - i,
    {
        proof {
            lemma_escaped_push(s@.take(i as int), s@[i as int]);
            assert(s@.take(i + 1) =~= s@.take(i as int).push(s@[i as int]));
        }
        let ghost before = out@;
        if s[i] == 34 || s[i] == 92 {
            out.push(92);
        }
        out.push(s[i]);
        proof {
            assert(out@ =~= old(out)@ + seq![34u8] + escaped(s@.take(i + 1)));
        }
        i = i + 1;
    }
    out.push(34);
    proof {
        reveal(quoted);
        assert(s@.take(i as int) =~= s@);
        assert(out@ =~= old(out)@ + quoted(s@));
    }
}

fn write_member(name: &[u8], value: &[u8]) -> (written: Vec<u8>)
    ensures
        written@ == member(name@, value@),
{
    let mut written: Vec<u8> = Vec::new();
    push_bytes(&mut written, name);
    written.push(58);
    push_bytes(&mut written, value);
    proof {
        reveal(member);
        assert(written@ =~= member(name@, value@));
    }
    written
}

fn write_quoted(s: &[u8]) -> (written: Vec<u8>)
    ensures
        written@ == quoted(s@),
{
    let mut written: Vec<u8> = Vec::new();
    push_quoted(&mut written, s);
    proof {
        reveal(quoted);
        assert(written@ =~= quoted(s@));
    }
    written
}

/// Writes a record as it stands in a state file. What it writes,
/// `read_state` reads back as the same record.
pub fn write_state(record: &DeviceState) -> (text: Vec<u8>)
    ensures
        text@ == record_text(record@),
        record_of(text@) == Some(record@),
{
    let m1 = write_member(
        name_of_description().as_slice(),
        write_quoted(record.description.as_slice()).as_slice(),
    );
    let m2 = write_member(
        name_of_zero_point().as_slice(),
        format_decimal(record.zero_point).as_slice(),
    );
    let m3 = write_member(
        name_of_raw_angle().as_slice(),
        format_decimal(record.raw_angle).as_slice(),
    );
    let m4 = write_member(name_of_date().as_slice(), write_quoted(record.timestamp.as_slice()).as_slice());
    let mut text: Vec<u8> = Vec::new();
    text.push(123);
    push_bytes(&mut text, m1.as_slice());
    text.push(44);
    push_bytes(&mut text, m2.as_slice());
    text.push(44);
    push_bytes(&mut text, m3.as_slice());
    text.push(44);
    push_bytes(&mut text, m4.as_slice());
    text.push(125);
    proof {
        reveal(braced);
        law_state_round_trip(record@);
        assert(text@ =~= braced(m1@, m2@, m3@, m4@));
    }
    text
}

/// What a file of the given contents holds; `None` stands for a file that
/// is not there.
pub open spec fn file_state(contents: Option<Seq<u8>>) -> Option<DeviceModel> {
    match contents {
        Some(text) => record_of(text),
        None => None,
    }
}

/// Tells what was found where a simulated device keeps its state: nothing,
/// a state, or something that is no state.
pub fn found_in(contents: Option<&[u8]>) -> (file: StateFile)
    ensures
        contents is None <==> file is Missing,
        contents is Some ==> (file is Corrupt <==> record_of(contents->Some_0@) is None),
        file is Loaded ==> Some(file->Loaded_0@) == record_of(contents->Some_0@),
{
    match contents {
        None => StateFile::Missing,
        Some(text) => match read_state(text) {
            Some(state) => StateFile::Loaded(state),
            None => StateFile::Corrupt,
        },
    }
}

/// The state on which a command acts that finds a file of the given
/// contents: the state that the file holds, or the initial state where no
/// file is there.
pub open spec fn state_in(
    contents: Option<Seq<u8>>,
    description: Seq<u8>,
    timestamp: Seq<u8>,
) -> DeviceModel {
    match file_state(contents) {
        Some(state) => state,
        None => initial_model(description, timestamp),
    }
}

/// One command against a simulated device, from the contents of its file to
/// the contents that are to replace them.
///
/// `contents` is what the file holds, or `None` where there is no file;
/// `description` and `timestamp` label the state that is created where
/// there is none. On success the first component is to be written to the
/// file in full, and the second is the device's answer. A file that holds
/// no state fails the command.
pub fn execute_simulated(
    contents: Option<&[u8]>,
    command: TiltCommand,
    description: Vec<u8>,
    timestamp: Vec<u8>,
) -> (result: Result<(Vec<u8>, TiltOutcome), DeviceError>)
    ensures
        result is Ok <==> (contents is Some ==> record_of(contents->Some_0@) is Some) && accepts(
            state_in(
                match contents {
                    Some(text) => Some(text@),
                    None => None,
                },
                description@,
                timestamp@,
            ),
            command,
        ),
        result is Ok ==> {
            let before = state_in(
                match contents {
                    Some(text) => Some(text@),
                    None => None,
                },
                description@,
                timestamp@,
            );
            &&& result->Ok_0.0@ == record_text(state_after(before, command))
            &&& record_of(result->Ok_0.0@) == Some(state_after(before, command))
            &&& result->Ok_0.1.frame == frame_of(command)
            &&& result->Ok_0.1.angle@ == answer_to(before, command)
        },
        result is Err ==> result->Err_0 == (if contents is Some && record_of(contents->Some_0@)
            is None {
            DeviceError::CorruptState
        } else {
            DeviceError::OutOfRange
        }),
{
    let file = found_in(contents);
    match simulate(file, command, description, timestamp) {
        Ok((state, outcome)) => Ok((write_state(&state), outcome)),
        Err(e) => Err(e),
    }
}

/// A state that was written is the state that is read: a file that holds
/// what was written for a state holds that state, with the same zero point
/// and the same raw angle, and a query on it answers with them.
pub proof fn law_written_state_is_read_back(state: DeviceModel)
    requires
        representable(state.zero_point),
        representable(state.raw_angle),
    ensures
        file_state(Some(record_text(state))) == Some(state),
        state_in(Some(record_text(state)), Seq::empty(), Seq::empty()) == state,
        answer_to(
            state_in(Some(record_text(state)), Seq::empty(), Seq::empty()),
            TiltCommand::GetZero,
        ) == state.zero_point,
        answer_to(
            state_in(Some(record_text(state)), Seq::empty(), Seq::empty()),
            TiltCommand::GetRaw,
        ) == state.raw_angle,
{
    law_state_round_trip(state);
}

} // verus!

//! Splitting a line of text into its whitespace-separated fields.
//!
//! The fields of a line are kept as spans into the line, in an
//! `arrayvec::ArrayVec` of fourteen places: no line that this crate reads
//! has more fields than that, and a line that has is refused.

use arrayvec::ArrayVec;
use vstd::prelude::*;
use vstd::slice::slice_subrange;

verus! {

/// Most fields that a line may hold.
pub const MAX_FIELDS: usize = 14;

/// Whether `byte` separates fields: a blank, a tab, a line feed, a vertical
/// tab, a form feed or a carriage return.
pub open spec fn is_space(byte: u8) -> bool {
    byte == 32 || (9 <= byte && byte <= 13)
}

/// The fields of `line`: its maximal runs of bytes that are not spaces, from
/// left to right. Stated byte by byte: a space changes nothing, a byte that
/// follows a byte of a field extends the last field, and any other byte
/// starts a new field.
pub open spec fn fields_of(line: Seq<u8>) -> Seq<Seq<u8>>
    decreases line.len(),
{
    if line.len() == 0 {
        Seq::empty()
    } else {
        let front = line.drop_last();
        let before = fields_of(front);
        if is_space(line.last()) {
            before
        } else if front.len() > 0 && !is_space(front.last()) {
            before.update(before.len() - 1, before.last().push(line.last()))
        } else {
            before.push(seq![line.last()])
        }
    }
}

/// A line that ends in a byte of a field has at least one field.
pub proof fn lemma_open_field(line: Seq<u8>)
    requires
        line.len() > 0,
        !is_space(line.last()),
    ensures
        fields_of(line).len() >= 1,
    decreases line.len(),
{
    let front = line.drop_last();
    if front.len() > 0 && !is_space(front.last()) {
        lemma_open_field(front);
    }
}

/// A line has at least as many fields as any of its beginnings.
pub proof fn lemma_fields_grow(line: Seq<u8>, i: int)
    requires
        0 <= i <= line.len(),
    ensures
        fields_of(line.take(i)).len() <= fields_of(line).len(),
    decreases line.len(),
{
    if i == line.len() {
        assert(line.take(i) =~= line);
    } else {
        let front = line.drop_last();
        assert(line.take(i) =~= front.take(i));
        lemma_fields_grow(front, i);
        if !is_space(line.last()) && front.len() > 0 && !is_space(front.last()) {
            lemma_open_field(front);
        }
    }
}

/// Whether `word` holds a byte and no space.
pub open spec fn is_word(word: Seq<u8>) -> bool {
    word.len() > 0 && forall|i: int| 0 <= i < word.len() ==> !is_space(#[trigger] word[i])
}

/// A word is its own single field.
pub proof fn lemma_one_word(word: Seq<u8>)
    requires
        is_word(word),
    ensures
        fields_of(word) == seq![word],
    decreases word.len(),
{
    let front = word.drop_last();
    if front.len() == 0 {
        assert(fields_of(front) =~= Seq::<Seq<u8>>::empty());
        assert(seq![word.last()] =~= word);
    } else {
        assert(forall|i: int| 0 <= i < front.len() ==> front[i] == word[i]);
        lemma_one_word(front);
        assert(front.push(word.last()) =~= word);
        assert(seq![front].update(0, front.push(word.last())) =~= seq![word]);
    }
}

/// Two words with a blank between them are two fields.
pub proof fn lemma_two_words(first: Seq<u8>, second: Seq<u8>)
    requires
        is_word(first),
        is_word(second),
    ensures
        fields_of(first + seq![32u8] + second) == seq![first, second],
    decreases second.len(),
{
    let text = first + seq![32u8] + second;
    let front = text.drop_last();
    let before = second.drop_last();
    assert(front =~= first + seq![32u8] + before);
    assert(text.last() == second.last());
    if before.len() == 0 {
        assert(front =~= first + seq![32u8]);
        assert(front.drop_last() =~= first);
        lemma_one_word(first);
        assert(fields_of(front) == seq![first]);
        assert(seq![second.last()] =~= second);
        assert(seq![first].push(second) =~= seq![first, second]);
    } else {
        assert(forall|i: int| 0 <= i < before.len() ==> before[i] == second[i]);
        lemma_two_words(first, before);
        assert(front.last() == before.last());
        assert(before.push(second.last()) =~= second);
        assert(seq![first, before].update(1, before.push(second.last())) =~= seq![first, second]);
    }
}

#[verifier::external_type_specification]
#[verifier::external_body]
#[verifier::reject_recursive_types(T)]
pub struct ExArrayVec<T, const CAP: usize>(ArrayVec<T, CAP>);

/// The spans that a field buffer holds, in the order in which they were
/// pushed.
pub uninterp spec fn spans_held(buffer: ArrayVec<(usize, usize), 14>) -> Seq<(usize, usize)>;

/// `ArrayVec::new`: a buffer that holds nothing.
#[verifier::external_body]
fn buffer_new() -> (buffer: ArrayVec<(usize, usize), 14>)
    ensures
        spans_held(buffer) == Seq::<(usize, usize)>::empty(),
{
    ArrayVec::new()
}

/// `ArrayVec::try_push`: where fewer than fourteen spans are held, `span`
/// is appended and the answer is `true`; a full buffer is left as it is and
/// the answer is `false`.
#[verifier::external_body]
fn buffer_try_push(buffer: &mut ArrayVec<(usize, usize), 14>, span: (usize, usize)) -> (pushed:
    bool)
    ensures
        pushed <==> spans_held(*old(buffer)).len() < 14,
        pushed ==> spans_held(*final(buffer)) == spans_held(*old(buffer)).push(span),
        !pushed ==> spans_held(*final(buffer)) == spans_held(*old(buffer)),
{
    buffer.try_push(span).is_ok()
}

/// `ArrayVec::len`: the number of spans held.
#[verifier::external_body]
fn buffer_len(buffer: &ArrayVec<(usize, usize), 14>) -> (len: usize)
    ensures
        len == spans_held(*buffer).len(),
{
    buffer.len()
}

/// Indexing an `ArrayVec` as a slice: the span at `index`.
#[verifier::external_body]
fn buffer_get(buffer: &ArrayVec<(usize, usize), 14>, index: usize) -> (span: (usize, usize))
    requires
        index < spans_held(*buffer).len(),
    ensures
        span == spans_held(*buffer)[index as int],
{
    buffer[index]
}

/// Whether `byte` separates fields.
pub fn separates(byte: u8) -> (r: bool)
    ensures
        r == is_space(byte),
{
    byte == 32 || (9 <= byte && byte <= 13)
}

/// Whether `spans` mark, in order, the first `spans.len()` fields of `fields`
/// as pieces of `line`.
pub open spec fn spans_mark(spans: Seq<(usize, usize)>, line: Seq<u8>, fields: Seq<Seq<u8>>) -> bool {
    &&& spans.len() <= fields.len()
    &&& forall|k: int|
        0 <= k < spans.len() ==> {
            &&& (#[trigger] spans[k]).0 <= spans[k].1 <= line.len()
            &&& line.subrange(spans[k].0 as int, spans[k].1 as int) == fields[k]
        }
}

/// The fields of a line, as spans into it.
pub struct Fields {
    buffer: ArrayVec<(usize, usize), 14>,
}

impl Fields {
    /// The spans of the fields, from left to right.
    pub closed spec fn spans(&self) -> Seq<(usize, usize)> {
        spans_held(self.buffer)
    }

    /// Whether the spans are those of all the fields of `line`.
    pub open spec fn cover(&self, line: Seq<u8>) -> bool {
        &&& self.spans().len() == fields_of(line).len()
        &&& spans_mark(self.spans(), line, fields_of(line))
    }

    /// Number of fields.
    pub fn len(&self) -> (n: usize)
        ensures
            n == self.spans().len(),
    {
        buffer_len(&self.buffer)
    }

    /// The bytes of field `index` of `line`.
    pub fn field<'a>(&self, line: &'a [u8], index: usize) -> (bytes: &'a [u8])
        requires
            self.cover(line@),
            index < self.spans().len(),
        ensures
            bytes@ == fields_of(line@)[index as int],
    {
        let span = buffer_get(&self.buffer, index);
        slice_subrange(line, span.0, span.1)
    }
}

/// Splits `line` into its fields. `None` where the line has more than
/// fourteen fields.
pub fn split_fields(line: &[u8]) -> (fields: Option<Fields>)
    ensures
        fields is Some <==> fields_of(line@).len() <= MAX_FIELDS,
        fields is Some ==> fields->Some_0.cover(line@),
{
    let mut buffer = buffer_new();
    let mut i: usize = 0;
    let mut start: usize = 0;
    let mut open: bool = false;
    while i < line.len()
        invariant
            i <= line@.len(),
            start <= i,
            open <==> i > 0 && !is_space(line@[i - 1]),
            spans_held(buffer).len() <= 14,
            spans_mark(spans_held(buffer), line@, fields_of(line@.take(i as int))),
            open ==> {
                &&& start < i
                &&& fields_of(line@.take(i as int)).len() == spans_held(buffer).len() + 1
                &&& fields_of(line@.take(i as int)).last() == line@.subrange(
                    start as int,
                    i as int,
                )
            },
            !open ==> fields_of(line@.take(i as int)).len() == spans_held(buffer).len(),
        decreases line@.len() - i,
    {
        let ghost before = line@.take(i as int);
        let ghost after = line@.take(i + 1);
        let ghost held = spans_held(buffer);
        proof {
            assert(after.drop_last() =~= before);
            assert(after.last() == line@[i as int]);
            if i > 0 {
                assert(before.last() == line@[i - 1]);
            }
        }
        let byte = line[i];
        if separates(byte) {
            if open {
                let pushed = buffer_try_push(&mut buffer, (start, i));
                if !pushed {
                    proof {
                        lemma_fields_grow(line@, i as int);
                    }
                    return None;
                }
                open = false;
            }
        } else {
            if !open {
                start = i;
                open = true;
                proof {
                    assert(fields_of(after) == fields_of(before).push(seq![byte]));
                    assert(line@.subrange(i as int, i + 1) =~= seq![byte]);
                }
            } else {
                proof {
                    assert(line@.subrange(start as int, i + 1) =~= line@.subrange(
                        start as int,
                        i as int,
                    ).push(byte));
                }
            }
        }
        i = i + 1;
    }
    proof {
        assert(line@.take(i as int) =~= line@);
    }
    if open {
        let pushed = buffer_try_push(&mut buffer, (start, i));
        if !pushed {
            return None;
        }
    }
    Some(Fields { buffer })
}

} // verus!

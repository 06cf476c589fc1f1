//! Reading the wire grammar from a byte slice, with a cursor and without
//! copying.

use crate::error::Malformation;
use crate::wire::{
    first_element, is_digit, is_numeral, lemma_first_element_bounds, lemma_numeral_value_prefix,
    lemma_position, lemma_position_is, numeral_value, parse, parse_elements, position, prepend,
    ARG_SEP, ELEM_SEP, INST_TERM,
};
use vstd::prelude::*;

verus! {

/// Where the element after the first `done` of `ranges` starts: at the
/// beginning, or one byte behind the end of the range before it.
pub open spec fn cursor(ranges: Seq<(usize, usize)>, done: int) -> int {
    if done <= 0 {
        0
    } else {
        ranges[done - 1].1 + 1
    }
}

/// Whether the element that starts at `from` has its content from `start`
/// to `end`: that is where `first_element` finds it.
#[verifier::opaque]
pub open spec fn found_at(bytes: Seq<u8>, from: int, start: int, end: int) -> bool {
    first_element(bytes.skip(from)) == Ok::<(int, int), Malformation>((start - from, end - from))
}

/// Whether the range at `i` is the place of the element at `i`: found
/// where the range before it ends, holding the content of the element,
/// behind an element separator and before an argument separator or the
/// terminator.
pub open spec fn placed(
    bytes: Seq<u8>,
    ranges: Seq<(usize, usize)>,
    elements: Seq<Seq<u8>>,
    i: int,
) -> bool {
    let (start, end) = ranges[i];
    let from = cursor(ranges, i);
    &&& 0 <= from < start <= end < bytes.len()
    &&& found_at(bytes, from, start as int, end as int)
    &&& bytes[start - 1] == ELEM_SEP
    &&& (bytes[end as int] == ARG_SEP || bytes[end as int] == INST_TERM)
    &&& bytes.subrange(start as int, end as int) == elements[i]
}

/// Whether `ranges` are the places of `elements` in `bytes`, one range for
/// each element.
pub open spec fn located(
    bytes: Seq<u8>,
    ranges: Seq<(usize, usize)>,
    elements: Seq<Seq<u8>>,
) -> bool {
    &&& ranges.len() == elements.len()
    &&& forall|i: int|
        0 <= i < ranges.len() ==> #[trigger] placed(bytes, ranges, elements, i)
}

/// The place of one more element, found at the cursor, goes behind the
/// places found before.
proof fn lemma_located_push(
    bytes: Seq<u8>,
    ranges: Seq<(usize, usize)>,
    elements: Seq<Seq<u8>>,
    start: usize,
    end: usize,
)
    requires
        located(bytes, ranges, elements),
        ({
            let from = cursor(ranges, ranges.len() as int);
            &&& 0 <= from < start <= end < bytes.len()
            &&& found_at(bytes, from, start as int, end as int)
        }),
        bytes[start - 1] == ELEM_SEP,
        bytes[end as int] == ARG_SEP || bytes[end as int] == INST_TERM,
    ensures
        located(
            bytes,
            ranges.push((start, end)),
            elements.push(bytes.subrange(start as int, end as int)),
        ),
{
    let more = ranges.push((start, end));
    let all = elements.push(bytes.subrange(start as int, end as int));
    assert forall|i: int| 0 <= i < more.len() implies #[trigger] placed(bytes, more, all, i) by {
        if i > 0 {
            assert(more[i - 1] == ranges[i - 1]);
        }
        if i < ranges.len() {
            assert(placed(bytes, ranges, elements, i));
            assert(more[i] == ranges[i]);
            assert(all[i] == elements[i]);
        }
    }
}

/// Reads the element that starts at `pos`: where its content begins and
/// ends, or what is wrong with it.
pub fn read_element(bytes: &[u8], pos: usize) -> (r: Result<(usize, usize), Malformation>)
    requires
        pos <= bytes@.len(),
    ensures
        match r {
            Ok((start, end)) => pos < start <= end < bytes@.len() && first_element(
                bytes@.skip(pos as int),
            ) == Ok::<(int, int), Malformation>((start - pos, end - pos)),
            Err(m) => first_element(bytes@.skip(pos as int)) == Err::<(int, int), Malformation>(m),
        },
{
    reveal(first_element);
    let n: usize = bytes.len();
    let ghost rest = bytes@.skip(pos as int);
    let mut i: usize = pos;
    while i < n && 0x30 <= bytes[i] && bytes[i] <= 0x39
        invariant
            pos <= i <= n,
            n == bytes@.len(),
            forall|j: int| pos <= j < i ==> is_digit(#[trigger] bytes@[j]),
        decreases n - i,
    {
        i += 1;
    }
    let ghost run = i - pos;
    assert forall|j: int| 0 <= j < run implies rest[j] != ELEM_SEP && is_digit(rest[j]) by {
        assert(rest[j] == bytes@[pos + j]);
    }
    if i == n {
        proof {
            lemma_position_is(rest, ELEM_SEP, run);
        }
        return Err(Malformation::InvalidLength);
    }
    if bytes[i] != ELEM_SEP {
        proof {
            lemma_position(rest, ELEM_SEP);
            let dot = position(rest, ELEM_SEP) as int;
            if dot < rest.len() {
                assert(dot > run);
                assert(rest.take(dot)[run] == rest[run]);
            }
        }
        return Err(Malformation::InvalidLength);
    }
    proof {
        lemma_position_is(rest, ELEM_SEP, run);
    }
    let ghost field = rest.take(run);
    assert(field =~= bytes@.subrange(pos as int, i as int));
    if i == pos || (i - pos > 1 && bytes[pos] == 0x30) {
        return Err(Malformation::InvalidLength);
    }
    assert(is_numeral(field));
    let mut value: usize = 0;
    let mut j: usize = pos;
    while j < i
        invariant
            pos <= j <= i < n,
            n == bytes@.len(),
            rest == bytes@.skip(pos as int),
            position(rest, ELEM_SEP) == i - pos,
            field == rest.take(i - pos),
            is_numeral(field),
            value == numeral_value(field.take(j - pos)),
            value <= n,
        decreases i - j,
    {
        proof {
            let next = field.take(j - pos + 1);
            assert(next.drop_last() =~= field.take(j - pos));
            assert(next.last() == field[j - pos]);
            assert(field[j - pos] == bytes@[j as int]);
            lemma_numeral_value_prefix(field, j - pos + 1);
        }
        let d: usize = (bytes[j] - 0x30) as usize;
        if value > n / 10 || d > n - value * 10 {
            proof {
                reveal(first_element);
            }
            return Err(Malformation::LengthMismatch);
        }
        value = value * 10 + d;
        j += 1;
    }
    assert(field.take(i - pos) =~= field);
    if value >= n - i - 1 {
        return Err(Malformation::LengthMismatch);
    }
    let end: usize = i + 1 + value;
    assert(rest[run + 1 + value] == bytes@[end as int]);
    if bytes[end] == ARG_SEP || (bytes[end] == INST_TERM && end + 1 == n) {
        Ok((i + 1, end))
    } else {
        Err(Malformation::LengthMismatch)
    }
}

/// What reading one element at the cursor adds to what was read before.
proof fn lemma_locate_step(
    bytes: Seq<u8>,
    ranges: Seq<(usize, usize)>,
    found: Seq<Seq<u8>>,
    start: usize,
    end: usize,
)
    requires
        located(bytes, ranges, found),
        0 <= cursor(ranges, ranges.len() as int) <= bytes.len(),
        first_element(bytes.skip(cursor(ranges, ranges.len() as int))) == Ok::<
            (int, int),
            Malformation,
        >(
            (
                start - cursor(ranges, ranges.len() as int),
                end - cursor(ranges, ranges.len() as int),
            ),
        ),
    ensures
        cursor(ranges, ranges.len() as int) < start <= end < bytes.len(),
        bytes[end as int] == ARG_SEP || (bytes[end as int] == INST_TERM && end + 1
            == bytes.len()),
        located(
            bytes,
            ranges.push((start, end)),
            found.push(bytes.subrange(start as int, end as int)),
        ),
        prepend(found, parse_elements(bytes.skip(cursor(ranges, ranges.len() as int))))
            == if bytes[end as int] == ARG_SEP {
            prepend(
                found.push(bytes.subrange(start as int, end as int)),
                parse_elements(bytes.skip(end + 1)),
            )
        } else {
            Ok(found.push(bytes.subrange(start as int, end as int)))
        },
{
    let pos = cursor(ranges, ranges.len() as int);
    let rest = bytes.skip(pos);
    let content = bytes.subrange(start as int, end as int);
    lemma_first_element_bounds(rest);
    assert(found_at(bytes, pos, start as int, end as int)) by {
        reveal(found_at);
    }
    assert(rest.subrange(start - pos, end - pos) =~= content);
    assert(rest[end - pos] == bytes[end as int]);
    assert(rest[start - pos - 1] == bytes[start - 1]);
    assert(rest.skip(end - pos + 1) =~= bytes.skip(end + 1));
    lemma_located_push(bytes, ranges, found, start, end);
    if bytes[end as int] == ARG_SEP {
        let after = parse_elements(bytes.skip(end + 1));
        if after is Ok {
            assert(found + (seq![content] + after->Ok_0) =~= found.push(content) + after->Ok_0);
        }
    } else {
        assert(found + seq![content] =~= found.push(content));
    }
}

/// Finds the elements of the instruction that `bytes` hold: the range of
/// each element's content, in order, or the first fault.
pub fn locate_elements(bytes: &[u8]) -> (r: Result<Vec<(usize, usize)>, Malformation>)
    ensures
        match parse(bytes@) {
            Ok(elements) => r is Ok && located(bytes@, r->Ok_0@, elements),
            Err(m) => r == Err::<Vec<(usize, usize)>, Malformation>(m),
        },
{
    let n: usize = bytes.len();
    if n == 0 || bytes[n - 1] != INST_TERM {
        return Err(Malformation::MissingTerminator);
    }
    let mut ranges: Vec<(usize, usize)> = Vec::new();
    let ghost mut found: Seq<Seq<u8>> = Seq::empty();
    let mut pos: usize = 0;
    proof {
        assert(bytes@.skip(0) =~= bytes@);
        if parse_elements(bytes@) is Ok {
            assert(found + parse_elements(bytes@)->Ok_0 =~= parse_elements(bytes@)->Ok_0);
        }
    }
    loop
        invariant
            pos < n,
            n == bytes@.len(),
            bytes@[n - 1] == INST_TERM,
            parse_elements(bytes@) == prepend(found, parse_elements(bytes@.skip(pos as int))),
            located(bytes@, ranges@, found),
            pos == cursor(ranges@, ranges@.len() as int),
        decreases n - pos,
    {
        match read_element(bytes, pos) {
            Err(m) => {
                return Err(m);
            },
            Ok((start, end)) => {
                proof {
                    lemma_locate_step(bytes@, ranges@, found, start, end);
                    found = found.push(bytes@.subrange(start as int, end as int));
                }
                ranges.push((start, end));
                if bytes[end] == ARG_SEP {
                    pos = end + 1;
                } else {
                    return Ok(ranges);
                }
            },
        }
    }
}

} // verus!

//! The wire grammar of an instruction, stated over bytes.
//!
//! ```text
//! instruction := element (',' element)* ';'
//! element     := length '.' content
//! length      := the shortest decimal numeral of the content's length in bytes
//! content     := any bytes
//! ```
//!
//! [`wire`] says what the bytes of a sequence of elements are, [`parse`]
//! says what a decoder answers for any bytes, and the two laws at the end
//! of this file say that each is the inverse of the other.

use crate::error::Malformation;
use vstd::prelude::*;

verus! {

/// The byte that ends the length field of an element: `.`
pub const ELEM_SEP: u8 = 0x2e;

/// The byte that ends an instruction: `;`
pub const INST_TERM: u8 = 0x3b;

/// The byte that stands between two elements: `,`
pub const ARG_SEP: u8 = 0x2c;

/// Whether `b` is an ASCII decimal digit.
pub open spec fn is_digit(b: u8) -> bool {
    0x30 <= b <= 0x39
}

/// The ASCII digit of `d`, for `d` below ten.
pub open spec fn digit(d: nat) -> u8 {
    (0x30 + d) as u8
}

/// The shortest decimal numeral of `n`, as ASCII digits.
pub open spec fn decimal(n: nat) -> Seq<u8>
    decreases n,
{
    if n < 10 {
        seq![digit(n)]
    } else {
        decimal(n / 10).push(digit(n % 10))
    }
}

/// Whether `field` is the shortest decimal numeral of some number: digits
/// only, at least one, and no leading zero but in `0` itself.
pub open spec fn is_numeral(field: Seq<u8>) -> bool {
    &&& field.len() > 0
    &&& forall|i: int| 0 <= i < field.len() ==> is_digit(#[trigger] field[i])
    &&& (field.len() > 1 ==> field[0] != 0x30)
}

/// The number that a sequence of digits denotes.
pub open spec fn numeral_value(field: Seq<u8>) -> nat
    decreases field.len(),
{
    if field.len() == 0 {
        0
    } else {
        numeral_value(field.drop_last()) * 10 + (field.last() - 0x30) as nat
    }
}

/// The bytes of one element: the length of `content`, the element
/// separator, and `content` itself.
pub open spec fn element(content: Seq<u8>) -> Seq<u8> {
    decimal(content.len()) + seq![ELEM_SEP] + content
}

/// The bytes of an instruction made of `elements`: each element in turn,
/// an argument separator between two of them, the terminator at the end.
pub open spec fn wire(elements: Seq<Seq<u8>>) -> Seq<u8>
    recommends
        elements.len() > 0,
    decreases elements.len(),
{
    if elements.len() <= 1 {
        element(elements.first()) + seq![INST_TERM]
    } else {
        element(elements.first()) + seq![ARG_SEP] + wire(elements.drop_first())
    }
}

/// The index of the first `b` in `bytes`, or the length of `bytes` where
/// it holds none.
pub open spec fn position(bytes: Seq<u8>, b: u8) -> nat
    decreases bytes.len(),
{
    if bytes.len() == 0 || bytes[0] == b {
        0
    } else {
        1 + position(bytes.drop_first(), b)
    }
}

/// Where the content of the element at the start of `bytes` begins and
/// ends, or what is wrong with that element.
///
/// The length field is what stands before the first element separator. The
/// content is followed by an argument separator, or by the terminator as
/// the very last byte.
#[verifier::opaque]
pub open spec fn first_element(bytes: Seq<u8>) -> Result<(int, int), Malformation> {
    let dot = position(bytes, ELEM_SEP) as int;
    let field = bytes.take(dot);
    if dot >= bytes.len() || !is_numeral(field) {
        Err(Malformation::InvalidLength)
    } else {
        let end = dot + 1 + numeral_value(field);
        if end < bytes.len() && (bytes[end] == ARG_SEP || (bytes[end] == INST_TERM && end + 1
            == bytes.len())) {
            Ok((dot + 1, end))
        } else {
            Err(Malformation::LengthMismatch)
        }
    }
}

/// Puts `front` before the elements that were read after it; a fault
/// stays what it is.
pub open spec fn prepend(front: Seq<Seq<u8>>, rest: Result<Seq<Seq<u8>>, Malformation>) -> Result<
    Seq<Seq<u8>>,
    Malformation,
> {
    match rest {
        Ok(elements) => Ok(front + elements),
        Err(m) => Err(m),
    }
}

/// The elements that `bytes` hold, read from left to right, or the fault
/// of the first element that cannot be read.
pub open spec fn parse_elements(bytes: Seq<u8>) -> Result<Seq<Seq<u8>>, Malformation>
    decreases bytes.len(),
{
    match first_element(bytes) {
        Err(m) => Err(m),
        Ok((start, end)) => {
            let content = bytes.subrange(start, end);
            if 0 <= end < bytes.len() && bytes[end] == ARG_SEP {
                prepend(seq![content], parse_elements(bytes.skip(end + 1)))
            } else {
                Ok(seq![content])
            }
        },
    }
}

/// What decoding `bytes` gives: the elements of the instruction, or the
/// first fault found.
pub open spec fn parse(bytes: Seq<u8>) -> Result<Seq<Seq<u8>>, Malformation> {
    if bytes.len() == 0 || bytes.last() != INST_TERM {
        Err(Malformation::MissingTerminator)
    } else {
        parse_elements(bytes)
    }
}

/// `position` is inside the bytes or at their end, points at a `b` where it
/// is inside, and passes over no `b`.
pub proof fn lemma_position(bytes: Seq<u8>, b: u8)
    ensures
        position(bytes, b) <= bytes.len(),
        position(bytes, b) < bytes.len() ==> bytes[position(bytes, b) as int] == b,
        forall|i: int| 0 <= i < position(bytes, b) ==> bytes[i] != b,
    decreases bytes.len(),
{
    if bytes.len() == 0 || bytes[0] == b {
    } else {
        let tail = bytes.drop_first();
        lemma_position(tail, b);
        assert forall|i: int| 0 <= i < position(bytes, b) implies bytes[i] != b by {
            if i > 0 {
                assert(tail[i - 1] == bytes[i]);
            }
        }
    }
}

/// An index that holds the first `b`, or the length where there is no
/// `b`, is the `position` of `b`.
pub proof fn lemma_position_is(bytes: Seq<u8>, b: u8, k: int)
    requires
        0 <= k <= bytes.len(),
        forall|i: int| 0 <= i < k ==> bytes[i] != b,
        k < bytes.len() ==> bytes[k] == b,
    ensures
        position(bytes, b) == k,
{
    lemma_position(bytes, b);
}

/// The numeral of `n` is a numeral, and its value is `n`.
pub proof fn lemma_decimal(n: nat)
    ensures
        is_numeral(decimal(n)),
        numeral_value(decimal(n)) == n,
        n > 0 ==> decimal(n)[0] != 0x30,
    decreases n,
{
    if n < 10 {
        assert(decimal(n).drop_last() =~= Seq::<u8>::empty());
        assert(numeral_value(Seq::<u8>::empty()) == 0);
    } else {
        lemma_decimal(n / 10);
        assert(decimal(n).drop_last() =~= decimal(n / 10));
        assert(decimal(n).last() == digit(n % 10));
    }
}

/// A numeral that does not start with a zero has a value above zero.
proof fn lemma_numeral_positive(field: Seq<u8>)
    requires
        is_numeral(field),
        field[0] != 0x30,
    ensures
        numeral_value(field) >= 1,
    decreases field.len(),
{
    if field.len() == 1 {
        assert(field.drop_last() =~= Seq::<u8>::empty());
    } else {
        let head = field.drop_last();
        assert(head[0] == field[0]);
        lemma_numeral_positive(head);
    }
}

/// A numeral is the shortest decimal numeral of its own value.
pub proof fn lemma_numeral(field: Seq<u8>)
    requires
        is_numeral(field),
    ensures
        decimal(numeral_value(field)) == field,
    decreases field.len(),
{
    let head = field.drop_last();
    if field.len() == 1 {
        assert(head =~= Seq::<u8>::empty());
        assert(decimal(numeral_value(field)) =~= field);
    } else {
        assert(head[0] == field[0]);
        lemma_numeral(head);
        lemma_numeral_positive(head);
        assert(decimal(numeral_value(field)) =~= field);
    }
}

/// The value of the first digits of a field is at most the value of the
/// whole field.
pub proof fn lemma_numeral_value_prefix(field: Seq<u8>, k: int)
    requires
        0 <= k <= field.len(),
        forall|i: int| 0 <= i < field.len() ==> is_digit(#[trigger] field[i]),
    ensures
        numeral_value(field.take(k)) <= numeral_value(field),
    decreases field.len(),
{
    if k == field.len() {
        assert(field.take(k) =~= field);
    } else {
        let head = field.drop_last();
        assert(field.take(k) =~= head.take(k));
        lemma_numeral_value_prefix(head, k);
    }
}

/// The content that `first_element` finds lies inside the bytes, behind an
/// element separator and before an argument separator or the terminator.
pub proof fn lemma_first_element_bounds(bytes: Seq<u8>)
    requires
        first_element(bytes) is Ok,
    ensures
        ({
            let (start, end) = first_element(bytes)->Ok_0;
            &&& 0 < start <= end < bytes.len()
            &&& bytes[start - 1] == ELEM_SEP
            &&& (bytes[end] == ARG_SEP || (bytes[end] == INST_TERM && end + 1 == bytes.len()))
        }),
{
    reveal(first_element);
    lemma_position(bytes, ELEM_SEP);
}

/// Where the first element of `element(content) + [next] + rest` lies.
proof fn lemma_first_element_of_wire(content: Seq<u8>, next: u8, rest: Seq<u8>)
    requires
        next == ARG_SEP || (next == INST_TERM && rest.len() == 0),
    ensures
        ({
            let bytes = element(content) + seq![next] + rest;
            let start = decimal(content.len()).len() as int + 1;
            &&& first_element(bytes) == Ok::<(int, int), Malformation>(
                (start, start + content.len()),
            )
            &&& bytes.subrange(start, start + content.len()) == content
            &&& bytes[start + content.len()] == next
            &&& bytes.skip(start + content.len() + 1) == rest
        }),
{
    reveal(first_element);
    let bytes = element(content) + seq![next] + rest;
    let field = decimal(content.len());
    let dot = field.len() as int;
    lemma_decimal(content.len());
    assert forall|i: int| 0 <= i < dot implies bytes[i] != ELEM_SEP by {
        assert(bytes[i] == field[i]);
    }
    assert(bytes[dot] == ELEM_SEP);
    lemma_position_is(bytes, ELEM_SEP, dot);
    assert(bytes.take(dot) =~= field);
    assert(bytes.subrange(dot + 1, dot + 1 + content.len()) =~= content);
    assert(bytes.skip(dot + 1 + content.len() + 1) =~= rest);
}

/// The bytes of an instruction end with the terminator.
pub proof fn lemma_wire_ends(elements: Seq<Seq<u8>>)
    ensures
        wire(elements).len() > 0,
        wire(elements).last() == INST_TERM,
    decreases elements.len(),
{
    if elements.len() > 1 {
        lemma_wire_ends(elements.drop_first());
    }
}

/// Reading `element(content) + [next] + rest` takes `content` off and goes
/// on with `rest` behind a separator, or stops at the terminator.
proof fn lemma_parse_step(content: Seq<u8>, next: u8, rest: Seq<u8>)
    requires
        next == ARG_SEP || (next == INST_TERM && rest.len() == 0),
    ensures
        parse_elements(element(content) + seq![next] + rest) == if next == ARG_SEP {
            prepend(seq![content], parse_elements(rest))
        } else {
            Ok(seq![content])
        },
{
    lemma_first_element_of_wire(content, next, rest);
}

/// Reading the elements of an instruction's bytes gives its elements.
proof fn lemma_parse_elements_of_wire(elements: Seq<Seq<u8>>)
    requires
        elements.len() > 0,
    ensures
        parse_elements(wire(elements)) == Ok::<Seq<Seq<u8>>, Malformation>(elements),
    decreases elements.len(),
{
    let content = elements.first();
    if elements.len() == 1 {
        let rest = Seq::<u8>::empty();
        lemma_parse_step(content, INST_TERM, rest);
        assert(wire(elements) == element(content) + seq![INST_TERM] + rest) by {
            assert(element(content) + seq![INST_TERM] + rest =~= element(content) + seq![
                INST_TERM,
            ]);
        }
        assert(seq![content] =~= elements);
    } else {
        let tail = elements.drop_first();
        lemma_parse_step(content, ARG_SEP, wire(tail));
        lemma_parse_elements_of_wire(tail);
        assert(seq![content] + tail =~= elements);
    }
}

/// Decoding inverts encoding: the bytes of any instruction, whatever its
/// elements hold, decode to exactly those elements.
pub proof fn lemma_parse_inverts_wire(elements: Seq<Seq<u8>>)
    requires
        elements.len() > 0,
    ensures
        parse(wire(elements)) == Ok::<Seq<Seq<u8>>, Malformation>(elements),
{
    lemma_wire_ends(elements);
    lemma_parse_elements_of_wire(elements);
}

/// Bytes whose elements can be read are the bytes of those elements.
proof fn lemma_wire_of_parse_elements(bytes: Seq<u8>)
    requires
        parse_elements(bytes) is Ok,
    ensures
        parse_elements(bytes)->Ok_0.len() > 0,
        wire(parse_elements(bytes)->Ok_0) == bytes,
    decreases bytes.len(),
{
    reveal(first_element);
    let (start, end) = first_element(bytes)->Ok_0;
    let dot = start - 1;
    let field = bytes.take(dot);
    let content = bytes.subrange(start, end);
    lemma_position(bytes, ELEM_SEP);
    lemma_numeral(field);
    assert(element(content) =~= bytes.take(end));
    if bytes[end] == ARG_SEP {
        let rest = bytes.skip(end + 1);
        lemma_wire_of_parse_elements(rest);
        let tail = parse_elements(rest)->Ok_0;
        let elements = seq![content] + tail;
        assert(elements.first() == content);
        assert(elements.drop_first() =~= tail);
        assert(wire(elements) =~= bytes);
    } else {
        let elements = seq![content];
        assert(elements.first() == content);
        assert(wire(elements) =~= bytes);
    }
}

/// Decoding accepts nothing but what encoding produces: bytes decode to
/// `elements` if and only if they are the bytes of `elements`.
pub proof fn lemma_parse_accepts_only_wire(bytes: Seq<u8>, elements: Seq<Seq<u8>>)
    ensures
        parse(bytes) == Ok::<Seq<Seq<u8>>, Malformation>(elements) <==> (elements.len() > 0
            && bytes == wire(elements)),
{
    if parse(bytes) == Ok::<Seq<Seq<u8>>, Malformation>(elements) {
        lemma_wire_of_parse_elements(bytes);
    }
    if elements.len() > 0 && bytes == wire(elements) {
        lemma_parse_inverts_wire(elements);
    }
}

} // verus!

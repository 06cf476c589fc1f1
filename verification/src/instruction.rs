//! The instruction and its codec: from an opcode and its arguments to the
//! text that goes over the wire, and back.

use crate::buffer::free_of_terminator;
use crate::error::GlobalError;
use crate::scan::{locate_elements, located, placed};
use crate::text::{
    decimal_text, lemma_ascii_is_utf8, lemma_boundary_after_ascii, lemma_utf8_concat,
    lemma_utf8_single, lemma_utf8_slice, slice_text,
};
use crate::wire::{
    decimal, element, first_element, is_digit, lemma_decimal, lemma_first_element_bounds,
    lemma_parse_accepts_only_wire, lemma_parse_inverts_wire, parse, parse_elements, wire, ARG_SEP,
    ELEM_SEP, INST_TERM,
};
use vstd::prelude::*;
use vstd::utf8::{
    decode_utf8, decode_utf8_encode_utf8, encode_utf8, encode_utf8_decode_utf8,
    encode_utf8_valid_utf8, is_char_boundary_iff_not_is_continuation_byte, valid_utf8,
    valid_utf8_concat, valid_utf8_split,
};

verus! {

/// One message of the protocol: an opcode and its arguments, in order.
#[derive(Debug, Clone, PartialEq, Eq)]
pub struct Instruction {
    /// What the instruction asks for or tells: `select`, `size`, `ready`.
    pub opcode: String,
    /// The arguments, whose order matters.
    pub args: Vec<String>,
}

/// What an instruction is: the characters of its opcode and of each of
/// its arguments.
pub struct InstructionView {
    /// The characters of the opcode.
    pub opcode: Seq<char>,
    /// The characters of each argument.
    pub args: Seq<Seq<char>>,
}

/// The UTF-8 bytes of each text.
pub open spec fn utf8_each(texts: Seq<Seq<char>>) -> Seq<Seq<u8>> {
    Seq::new(texts.len(), |i: int| encode_utf8(texts[i]))
}

/// The text that each sequence of UTF-8 bytes spells.
pub open spec fn text_each(elements: Seq<Seq<u8>>) -> Seq<Seq<char>> {
    Seq::new(elements.len(), |i: int| decode_utf8(elements[i]))
}

impl InstructionView {
    /// The elements of the instruction: the opcode, then the arguments.
    pub open spec fn elements(self) -> Seq<Seq<char>> {
        seq![self.opcode] + self.args
    }

    /// The bytes of the instruction on the wire. The length of an element
    /// counts its UTF-8 bytes, not its characters.
    pub open spec fn wire(self) -> Seq<u8> {
        wire(utf8_each(self.elements()))
    }

    /// Whether the instruction can be cut out of a stream at the first
    /// terminator: neither the opcode nor an argument holds one.
    pub open spec fn framable(self) -> bool {
        free_of_terminator(utf8_each(self.elements()))
    }
}

impl View for Instruction {
    type V = InstructionView;

    open spec fn view(&self) -> InstructionView {
        InstructionView { opcode: self.opcode@, args: self.args.deep_view() }
    }
}

impl DeepView for Instruction {
    type V = InstructionView;

    open spec fn deep_view(&self) -> InstructionView {
        self@
    }
}

/// What `Instruction::decode` answers for `text`: the elements that its
/// bytes hold, as text, or the fault in them.
pub open spec fn decoded(text: Seq<char>) -> Result<Seq<Seq<char>>, GlobalError> {
    match parse(encode_utf8(text)) {
        Ok(elements) => Ok(text_each(elements)),
        Err(m) => Err(GlobalError::MalformedInstruction(m)),
    }
}

/// What `Instruction::load` answers for `text`: the first element is the
/// opcode, the others are the arguments.
pub open spec fn loaded(text: Seq<char>) -> Result<InstructionView, GlobalError> {
    match decoded(text) {
        Ok(elements) => Ok(
            InstructionView { opcode: elements.first(), args: elements.drop_first() },
        ),
        Err(e) => Err(e),
    }
}

/// What std's `Debug` writes for a list of texts: the texts in double
/// quotes, with what cannot stand there escaped, between square brackets.
pub uninterp spec fn debug_text(items: Seq<Seq<char>>) -> Seq<char>;

/// `format!` of std with `{:?}` on a list of texts: the text that `Debug`
/// writes for the list.
#[verifier::external_body]
fn format_list(items: &Vec<String>) -> (r: String)
    ensures
        r@ == debug_text(items.deep_view()),
{
    format!("{:?}", items)
}

/// The text of one element: its length in bytes, the element separator,
/// and the content.
fn encode_element(content: &str) -> (r: String)
    ensures
        encode_utf8(r@) == element(encode_utf8(content@)),
{
    let mut out = decimal_text(content.as_bytes().len());
    proof {
        reveal_strlit(".");
        lemma_utf8_single("."@);
        lemma_utf8_concat(out@, "."@);
        lemma_utf8_concat(out@ + "."@, content@);
    }
    out.append(".");
    out.append(content);
    out
}

/// Whether a terminator is among the bytes of `text`.
fn holds_terminator(text: &str) -> (r: bool)
    ensures
        r == exists|j: int| 0 <= j < encode_utf8(text@).len() && encode_utf8(text@)[j] == INST_TERM,
{
    let bytes = text.as_bytes();
    let mut i: usize = 0;
    while i < bytes.len()
        invariant
            i <= bytes@.len(),
            bytes@ == encode_utf8(text@),
            forall|j: int| 0 <= j < i ==> bytes@[j] != INST_TERM,
        decreases bytes@.len() - i,
    {
        if bytes[i] == INST_TERM {
            return true;
        }
        i += 1;
    }
    false
}

/// What is still to be written when the first `done` of `elements` stand
/// in the output: the terminator, or a separator and the other elements.
spec fn remainder(elements: Seq<Seq<u8>>, done: int) -> Seq<u8> {
    if done >= elements.len() {
        seq![INST_TERM]
    } else {
        seq![ARG_SEP] + wire(elements.skip(done))
    }
}

proof fn lemma_remainder_step(elements: Seq<Seq<u8>>, done: int)
    requires
        0 <= done < elements.len(),
    ensures
        remainder(elements, done) == seq![ARG_SEP] + element(elements[done]) + remainder(
            elements,
            done + 1,
        ),
{
    let rest = elements.skip(done);
    assert(rest.first() == elements[done]);
    assert(rest.drop_first() =~= elements.skip(done + 1));
    assert(remainder(elements, done) =~= seq![ARG_SEP] + element(elements[done]) + remainder(
        elements,
        done + 1,
    ));
}

impl Instruction {
    /// An instruction with this opcode and these arguments.
    pub fn new(opcode: String, args: Vec<String>) -> (r: Self)
        ensures
            r.opcode == opcode,
            r.args == args,
    {
        Self { opcode, args }
    }

    /// The text of this instruction on the wire: the opcode and each
    /// argument as an element, a `,` between two of them, a `;` at the end.
    pub fn encode(&self) -> (r: String)
        ensures
            encode_utf8(r@) == self@.wire(),
    {
        let ghost elements = utf8_each(self@.elements());
        let mut out = encode_element(self.opcode.as_str());
        proof {
            assert(elements.first() == encode_utf8(self.opcode@));
            assert(elements.drop_first() =~= elements.skip(1));
            assert(wire(elements) =~= encode_utf8(out@) + remainder(elements, 1));
        }
        let mut i: usize = 0;
        while i < self.args.len()
            invariant
                i <= self.args.len(),
                elements == utf8_each(self@.elements()),
                wire(elements) == encode_utf8(out@) + remainder(elements, i + 1),
            decreases self.args.len() - i,
        {
            let item = encode_element(self.args[i].as_str());
            proof {
                reveal_strlit(",");
                lemma_utf8_single(","@);
                lemma_utf8_concat(out@, ","@);
                lemma_utf8_concat(out@ + ","@, item@);
                assert(elements[i + 1] == encode_utf8(self.args@[i as int]@));
                lemma_remainder_step(elements, i + 1);
                assert(wire(elements) =~= encode_utf8(out@ + ","@ + item@) + remainder(
                    elements,
                    i + 2,
                ));
            }
            out.append(",");
            out.append(item.as_str());
            i += 1;
        }
        proof {
            reveal_strlit(";");
            lemma_utf8_single(";"@);
            lemma_utf8_concat(out@, ";"@);
        }
        out.append(";");
        out
    }

    /// The text of one element: the length of `arg` in bytes, a `.`, and
    /// `arg` itself.
    pub fn encode_arg(&self, arg: String) -> (r: String)
        ensures
            encode_utf8(r@) == element(encode_utf8(arg@)),
    {
        encode_element(arg.as_str())
    }

    /// Whether neither the opcode nor an argument holds a terminator, so
    /// that a receiver who cuts the stream at the first terminator gets
    /// this instruction whole.
    pub fn is_framable(&self) -> (r: bool)
        ensures
            r == self@.framable(),
    {
        let ghost elements = utf8_each(self@.elements());
        if holds_terminator(self.opcode.as_str()) {
            assert(elements[0] == encode_utf8(self.opcode@));
            return false;
        }
        let mut i: usize = 0;
        while i < self.args.len()
            invariant
                i <= self.args.len(),
                elements == utf8_each(self@.elements()),
                forall|k: int, j: int|
                    0 <= k <= i && 0 <= j < elements[k].len() ==> #[trigger] elements[k][j]
                        != INST_TERM,
            decreases self.args.len() - i,
        {
            assert(elements[i + 1] == encode_utf8(self.args@[i as int]@));
            if holds_terminator(self.args[i].as_str()) {
                return false;
            }
            i += 1;
        }
        true
    }

    /// The instruction for a person to read: the opcode, a space, and the
    /// arguments as `Debug` writes a list.
    pub fn to_text(&self) -> (r: String)
        ensures
            r@ == self.opcode@ + " "@ + debug_text(self@.args),
    {
        let list = format_list(&self.args);
        Instruction::label(self.opcode.as_str(), list.as_str())
    }

    /// An opcode and a list that is already text, with a space between
    /// them.
    pub fn label(opcode: &str, list: &str) -> (r: String)
        ensures
            r@ == opcode@ + " "@ + list@,
    {
        let mut out = opcode.to_owned();
        out.append(" ");
        out.append(list);
        out
    }

    /// Decodes the text of one instruction into an instruction.
    ///
    /// Succeeds exactly on the texts that `encode` produces, see
    /// `lemma_load_iff_encoded`.
    pub fn load(instruction: String) -> (r: Result<Self, GlobalError>)
        ensures
            match loaded(instruction@) {
                Ok(view) => r is Ok && r->Ok_0@ == view,
                Err(e) => r == Err::<Self, GlobalError>(e),
            },
    {
        match Instruction::decode(instruction) {
            Ok(items) => {
                let mut items = items;
                let ghost all = items.deep_view();
                proof {
                    lemma_parse_accepts_only_wire(
                        encode_utf8(instruction@),
                        parse(encode_utf8(instruction@))->Ok_0,
                    );
                }
                let opcode = items.remove(0);
                let r = Instruction { opcode, args: items };
                proof {
                    assert(r@.args =~= all.drop_first());
                    assert(r@.elements() =~= all);
                }
                Ok(r)
            },
            Err(e) => Err(e),
        }
    }

    /// Decodes the text of one instruction into its elements: the opcode
    /// first, then the arguments.
    pub fn decode(instruction: String) -> (r: Result<Vec<String>, GlobalError>)
        ensures
            match decoded(instruction@) {
                Ok(texts) => r is Ok && r->Ok_0.deep_view() == texts,
                Err(e) => r == Err::<Vec<String>, GlobalError>(e),
            },
    {
        let text = instruction.as_str();
        let bytes = text.as_bytes();
        match locate_elements(bytes) {
            Err(m) => Err(GlobalError::MalformedInstruction(m)),
            Ok(ranges) => {
                let ghost elements = parse(bytes@)->Ok_0;
                let mut items: Vec<String> = Vec::new();
                let mut i: usize = 0;
                while i < ranges.len()
                    invariant
                        i <= ranges.len(),
                        bytes@ == encode_utf8(text@),
                        located(bytes@, ranges@, elements),
                        items.len() == i,
                        forall|j: int| 0 <= j < i ==> encode_utf8(#[trigger] items@[j]@) == elements[j],
                    decreases ranges.len() - i,
                {
                    let (start, end) = ranges[i];
                    proof {
                        assert(placed(bytes@, ranges@, elements, i as int));
                        encode_utf8_valid_utf8(text@);
                        lemma_boundary_after_ascii(bytes@, start - 1);
                        is_char_boundary_iff_not_is_continuation_byte(bytes@, end as int);
                    }
                    let item = slice_text(text, start, end);
                    items.push(item);
                    i += 1;
                }
                proof {
                    assert(utf8_each(items.deep_view()) =~= elements);
                    assert forall|j: int| 0 <= j < elements.len() implies items.deep_view()[j]
                        == text_each(elements)[j] by {
                        encode_utf8_decode_utf8(items@[j]@);
                    }
                    assert(items.deep_view() =~= text_each(elements));
                }
                Ok(items)
            },
        }
    }
}

/// The bytes of elements that are UTF-8 are UTF-8.
proof fn lemma_wire_is_utf8(elements: Seq<Seq<u8>>)
    requires
        elements.len() > 0,
        forall|i: int| 0 <= i < elements.len() ==> valid_utf8(#[trigger] elements[i]),
    ensures
        valid_utf8(wire(elements)),
    decreases elements.len(),
{
    let content = elements.first();
    let length = decimal(content.len());
    lemma_decimal(content.len());
    assert forall|i: int| 0 <= i < length.len() implies #[trigger] length[i] <= 0x7f by {
        assert(is_digit(length[i]));
    }
    lemma_ascii_is_utf8(length);
    lemma_ascii_is_utf8(seq![ELEM_SEP]);
    lemma_ascii_is_utf8(seq![ARG_SEP]);
    lemma_ascii_is_utf8(seq![INST_TERM]);
    valid_utf8_concat(length, seq![ELEM_SEP]);
    valid_utf8_concat(length + seq![ELEM_SEP], content);
    if elements.len() == 1 {
        valid_utf8_concat(element(content), seq![INST_TERM]);
    } else {
        let tail = elements.drop_first();
        assert forall|i: int| 0 <= i < tail.len() implies valid_utf8(#[trigger] tail[i]) by {
            assert(tail[i] == elements[i + 1]);
        }
        lemma_wire_is_utf8(tail);
        valid_utf8_concat(element(content), seq![ARG_SEP]);
        valid_utf8_concat(element(content) + seq![ARG_SEP], wire(tail));
    }
}

/// Every instruction has a text: its bytes on the wire are UTF-8.
pub proof fn lemma_instruction_has_text(instruction: InstructionView)
    ensures
        valid_utf8(instruction.wire()),
        encode_utf8(decode_utf8(instruction.wire())) == instruction.wire(),
{
    let elements = utf8_each(instruction.elements());
    assert forall|i: int| 0 <= i < elements.len() implies valid_utf8(#[trigger] elements[i]) by {
        encode_utf8_valid_utf8(instruction.elements()[i]);
    }
    lemma_wire_is_utf8(elements);
    decode_utf8_encode_utf8(instruction.wire());
}

/// The elements read from bytes that are UTF-8 are UTF-8.
proof fn lemma_parsed_elements_are_utf8(bytes: Seq<u8>)
    requires
        valid_utf8(bytes),
        parse_elements(bytes) is Ok,
    ensures
        forall|i: int|
            0 <= i < parse_elements(bytes)->Ok_0.len() ==> valid_utf8(
                #[trigger] parse_elements(bytes)->Ok_0[i],
            ),
    decreases bytes.len(),
{
    let (start, end) = first_element(bytes)->Ok_0;
    let content = bytes.subrange(start, end);
    lemma_first_element_bounds(bytes);
    lemma_boundary_after_ascii(bytes, start - 1);
    is_char_boundary_iff_not_is_continuation_byte(bytes, end);
    lemma_utf8_slice(bytes, start, end);
    if bytes[end] == ARG_SEP {
        let rest = bytes.skip(end + 1);
        lemma_boundary_after_ascii(bytes, end);
        valid_utf8_split(bytes, end + 1);
        assert(rest =~= bytes.subrange(end + 1, bytes.len() as int));
        lemma_parsed_elements_are_utf8(rest);
        let tail = parse_elements(rest)->Ok_0;
        let elements = parse_elements(bytes)->Ok_0;
        assert(elements == seq![content] + tail);
        assert forall|i: int| 0 <= i < elements.len() implies valid_utf8(
            #[trigger] elements[i],
        ) by {
            if i > 0 {
                assert(elements[i] == tail[i - 1]);
            }
        }
    }
}

/// Loading inverts encoding, and accepts nothing else: a text loads as an
/// instruction if and only if it is the text that `encode` gives for that
/// instruction. This holds whatever the opcode and the arguments hold,
/// separators and terminators too.
pub proof fn lemma_load_iff_encoded(text: Seq<char>, instruction: InstructionView)
    ensures
        loaded(text) == Ok::<InstructionView, GlobalError>(instruction) <==> encode_utf8(text)
            == instruction.wire(),
{
    let bytes = encode_utf8(text);
    if encode_utf8(text) == instruction.wire() {
        let texts = instruction.elements();
        let elements = utf8_each(texts);
        lemma_parse_inverts_wire(elements);
        assert forall|j: int| 0 <= j < texts.len() implies text_each(elements)[j]
            == texts[j] by {
            encode_utf8_decode_utf8(texts[j]);
        }
        assert(text_each(elements) =~= texts);
        assert(texts.drop_first() =~= instruction.args);
    }
    if loaded(text) == Ok::<InstructionView, GlobalError>(instruction) {
        let elements = parse(bytes)->Ok_0;
        encode_utf8_valid_utf8(text);
        lemma_parsed_elements_are_utf8(bytes);
        lemma_parse_accepts_only_wire(bytes, elements);
        let texts = text_each(elements);
        assert forall|j: int| 0 <= j < elements.len() implies utf8_each(texts)[j]
            == elements[j] by {
            decode_utf8_encode_utf8(elements[j]);
        }
        assert(utf8_each(texts) =~= elements);
        assert(instruction.elements() =~= texts);
    }
}

/// The elements that decoding gives are those whose bytes the text holds:
/// a text decodes to `texts` if and only if its bytes are the wire form of
/// the bytes of `texts`.
pub proof fn lemma_decode_iff_encoded(text: Seq<char>, texts: Seq<Seq<char>>)
    ensures
        decoded(text) == Ok::<Seq<Seq<char>>, GlobalError>(texts) <==> (texts.len() > 0
            && encode_utf8(text) == wire(utf8_each(texts))),
{
    if texts.len() > 0 {
        let instruction = InstructionView { opcode: texts.first(), args: texts.drop_first() };
        assert(instruction.elements() =~= texts);
        lemma_load_iff_encoded(text, instruction);
        if decoded(text) is Ok {
            lemma_parse_accepts_only_wire(encode_utf8(text), parse(encode_utf8(text))->Ok_0);
            let found = decoded(text)->Ok_0;
            assert(found.len() > 0);
            assert(found =~= seq![found.first()] + found.drop_first());
        }
    } else if decoded(text) is Ok {
        lemma_parse_accepts_only_wire(encode_utf8(text), parse(encode_utf8(text))->Ok_0);
    }
}

} // verus!

//! What a client offers in the handshake, and the instructions that carry
//! the offer.

use crate::instruction::{Instruction, InstructionView};
use crate::protocol::Protocol;
use crate::text::text_eq;
use vstd::prelude::*;

verus! {

/// What the client asks for and offers in a handshake.
#[derive(Debug, Clone)]
pub struct HandshakeParams {
    /// The protocol to select.
    pub protocol: Protocol,
    /// The width of the display.
    pub width: String,
    /// The height of the display.
    pub height: String,
    /// The resolution of the display.
    pub dpi: String,
    /// The audio codecs on offer; none is an empty list.
    pub audio: Option<Vec<String>>,
    /// The video codecs on offer; none is an empty list.
    pub video: Option<Vec<String>>,
    /// The image formats on offer; none is an empty list.
    pub image: Option<Vec<String>>,
    /// The IANA name of the client's time zone.
    pub timezone: String,
    /// Values for the parameters that the server may ask for, each with
    /// the name of its parameter.
    pub parameters: Vec<(String, String)>,
}

/// The codecs of a list that may be absent.
pub open spec fn codecs(list: Option<Vec<String>>) -> Seq<Seq<char>> {
    match list {
        Some(names) => names.deep_view(),
        None => Seq::empty(),
    }
}

/// The value that `parameters` give for `name`: that of the first pair
/// with this name, or the empty text where there is none.
pub open spec fn value_of(parameters: Seq<(String, String)>, name: Seq<char>) -> Seq<char>
    decreases parameters.len(),
{
    if parameters.len() == 0 {
        Seq::empty()
    } else if parameters[0].0@ == name {
        parameters[0].1@
    } else {
        value_of(parameters.drop_first(), name)
    }
}

/// One value for each name, in the order of the names.
pub open spec fn values_for(parameters: Seq<(String, String)>, names: Seq<Seq<char>>) -> Seq<
    Seq<char>,
> {
    Seq::new(names.len(), |i: int| value_of(parameters, names[i]))
}

impl HandshakeParams {
    /// The instruction that opens the handshake.
    pub open spec fn select(self) -> InstructionView {
        InstructionView { opcode: "select"@, args: seq![self.protocol.name_spec()] }
    }

    /// The instructions that answer the server's `args`, in the order in
    /// which they are sent: `size`, `audio`, `video`, `image`, `timezone`,
    /// and `connect` with one value for each name that `args` listed.
    pub open spec fn negotiation(self, names: Seq<Seq<char>>) -> Seq<InstructionView> {
        seq![
            InstructionView { opcode: "size"@, args: seq![self.width@, self.height@, self.dpi@] },
            InstructionView { opcode: "audio"@, args: codecs(self.audio) },
            InstructionView { opcode: "video"@, args: codecs(self.video) },
            InstructionView { opcode: "image"@, args: codecs(self.image) },
            InstructionView { opcode: "timezone"@, args: seq![self.timezone@] },
            InstructionView { opcode: "connect"@, args: values_for(self.parameters@, names) },
        ]
    }

    /// An offer without values for the server's parameters.
    pub fn new(
        protocol: Protocol,
        width: String,
        height: String,
        dpi: String,
        audio: Option<Vec<String>>,
        video: Option<Vec<String>>,
        image: Option<Vec<String>>,
        timezone: String,
    ) -> (r: Self)
        ensures
            r.protocol == protocol,
            r.width == width,
            r.height == height,
            r.dpi == dpi,
            r.audio == audio,
            r.video == video,
            r.image == image,
            r.timezone == timezone,
            r.parameters@.len() == 0,
    {
        HandshakeParams {
            protocol,
            width,
            height,
            dpi,
            audio,
            video,
            image,
            timezone,
            parameters: Vec::new(),
        }
    }

    /// The instruction that opens the handshake.
    pub fn select_instruction(&self) -> (r: Instruction)
        ensures
            r@ == self.select(),
    {
        let r = Instruction::new("select".to_owned(), vec![self.protocol.name().to_owned()]);
        assert(r@.args =~= seq![self.protocol.name_spec()]);
        r
    }

    /// The instructions that answer the server's `args`, whose arguments
    /// are `names`.
    pub fn negotiation_instructions(self, names: &Vec<String>) -> (r: Vec<Instruction>)
        ensures
            r.deep_view() == self.negotiation(names.deep_view()),
    {
        let ghost offer = self;
        let mut values: Vec<String> = Vec::new();
        let mut i: usize = 0;
        while i < names.len()
            invariant
                i <= names.len(),
                values.len() == i,
                forall|j: int|
                    0 <= j < i ==> (#[trigger] values@[j])@ == value_of(
                        self.parameters@,
                        names@[j]@,
                    ),
            decreases names.len() - i,
        {
            values.push(lookup(&self.parameters, names[i].as_str()));
            i += 1;
        }
        let size = Instruction::new("size".to_owned(), vec![self.width, self.height, self.dpi]);
        let audio = Instruction::new("audio".to_owned(), list_or_empty(self.audio));
        let video = Instruction::new("video".to_owned(), list_or_empty(self.video));
        let image = Instruction::new("image".to_owned(), list_or_empty(self.image));
        let zone = Instruction::new("timezone".to_owned(), vec![self.timezone]);
        let connect = Instruction::new("connect".to_owned(), values);
        proof {
            assert(size@.args =~= seq![offer.width@, offer.height@, offer.dpi@]);
            assert(zone@.args =~= seq![offer.timezone@]);
            assert(connect@.args =~= values_for(offer.parameters@, names.deep_view()));
        }
        let r = vec![size, audio, video, image, zone, connect];
        assert(r.deep_view() =~= offer.negotiation(names.deep_view()));
        r
    }
}

/// The list, or an empty one where there is none.
fn list_or_empty(list: Option<Vec<String>>) -> (r: Vec<String>)
    ensures
        r.deep_view() == codecs(list),
{
    match list {
        Some(names) => names,
        None => {
            let names: Vec<String> = Vec::new();
            assert(names.deep_view() =~= Seq::<Seq<char>>::empty());
            names
        },
    }
}

/// The value that `parameters` give for `name`.
fn lookup(parameters: &Vec<(String, String)>, name: &str) -> (r: String)
    ensures
        r@ == value_of(parameters@, name@),
{
    let mut i: usize = 0;
    assert(parameters@.skip(0) =~= parameters@);
    while i < parameters.len()
        invariant
            i <= parameters.len(),
            value_of(parameters@, name@) == value_of(parameters@.skip(i as int), name@),
        decreases parameters.len() - i,
    {
        let ghost rest = parameters@.skip(i as int);
        assert(rest[0] == parameters@[i as int]);
        assert(rest.drop_first() =~= parameters@.skip(i + 1));
        if text_eq(parameters[i].0.as_str(), name) {
            return parameters[i].1.clone();
        }
        i += 1;
    }
    String::new()
}

} // verus!

//! The errors of the codec and of the session.

use vstd::prelude::*;

verus! {

/// The ways in which bytes can fail to be an instruction.
#[derive(Debug, Clone, Copy, PartialEq, Eq, Structural)]
pub enum Malformation {
    /// The last byte is not the terminator, or there are no bytes at all.
    MissingTerminator,
    /// An element does not start with a length and the element separator.
    /// A length is the shortest decimal numeral of a number: digits only,
    /// no sign, and no zero in front of another digit.
    InvalidLength,
    /// The length of an element does not lead to an argument separator or
    /// to the final terminator: it is too short, too long, or runs past the
    /// end of the bytes.
    LengthMismatch,
    /// The bytes are not UTF-8, so they cannot be handed on as text.
    InvalidText,
}

/// The reply that a handshake was waiting for when it failed.
#[derive(Debug, Clone, Copy, PartialEq, Eq, Structural)]
pub enum HandshakeStep {
    /// The reply to `select`, which must be `args`.
    Args,
    /// The reply to `connect`, which must be `ready`.
    Ready,
}

/// Everything that can go wrong in this library.
#[derive(Debug, Clone, PartialEq, Eq)]
pub enum GlobalError {
    /// The transport failed: it could not be opened, or a read or a write
    /// did not complete. Holds the transport's own reason.
    ConnectionError(String),
    /// Text that was to be decoded is not an instruction.
    MalformedInstruction(Malformation),
    /// What the peer sent is not an instruction.
    InvalidInstruction(Malformation),
    /// The handshake did not get the reply it was waiting for. `received`
    /// is the opcode that came instead, or nothing where no instruction
    /// could be received at all.
    HandshakeFailed { step: HandshakeStep, received: Option<String> },
    /// The transport has no more data, or the session is closed.
    ConnectionClosed,
    /// The name is not that of a protocol which this library can select.
    UnsupportedProtocol(String),
    /// The handshake is not at the step that the call belongs to.
    OutOfSequence,
}

impl Malformation {
    /// What `message` says.
    pub open spec fn message_spec(self) -> Seq<char> {
        match self {
            Malformation::MissingTerminator => "Instruction termination not found."@,
            Malformation::InvalidLength => "Invalid arg length. Possibly due to missing element separator"@,
            Malformation::LengthMismatch => "Instruction arg has invalid length."@,
            Malformation::InvalidText => "Instruction is not valid UTF-8."@,
        }
    }

    /// A sentence for a person to read.
    pub fn message(&self) -> (r: String)
        ensures
            r@ == self.message_spec(),
    {
        match self {
            Malformation::MissingTerminator => "Instruction termination not found.".to_owned(),
            Malformation::InvalidLength => "Invalid arg length. Possibly due to missing element separator".to_owned(),
            Malformation::LengthMismatch => "Instruction arg has invalid length.".to_owned(),
            Malformation::InvalidText => "Instruction is not valid UTF-8.".to_owned(),
        }
    }
}

impl HandshakeStep {
    /// The opcode that the handshake waits for at this step.
    pub open spec fn opcode_spec(self) -> Seq<char> {
        match self {
            HandshakeStep::Args => "args"@,
            HandshakeStep::Ready => "ready"@,
        }
    }

    /// The opcode that the handshake waits for at this step.
    pub fn opcode(&self) -> (r: &'static str)
        ensures
            r@ == self.opcode_spec(),
    {
        match self {
            HandshakeStep::Args => "args",
            HandshakeStep::Ready => "ready",
        }
    }
}

impl GlobalError {
    /// What `message` says.
    pub open spec fn message_spec(self) -> Seq<char> {
        match self {
            GlobalError::ConnectionError(reason) => "Connection error. "@ + reason@,
            GlobalError::MalformedInstruction(m) => m.message_spec(),
            GlobalError::InvalidInstruction(m) => m.message_spec(),
            GlobalError::HandshakeFailed { step, received } => {
                let expected = "Guacamole Protocol Error. expected "@ + step.opcode_spec();
                match received {
                    Some(opcode) => expected + ", received "@ + opcode@,
                    None => expected,
                }
            },
            GlobalError::ConnectionClosed => "Connection closed."@,
            GlobalError::UnsupportedProtocol(name) => "Unsupported protocol: "@ + name@,
            GlobalError::OutOfSequence => "Handshake step out of sequence."@,
        }
    }

    /// A sentence for a person to read.
    pub fn message(&self) -> (r: String)
        ensures
            r@ == self.message_spec(),
    {
        match self {
            GlobalError::ConnectionError(reason) => {
                "Connection error. ".to_owned().concat(reason.as_str())
            },
            GlobalError::MalformedInstruction(m) => m.message(),
            GlobalError::InvalidInstruction(m) => m.message(),
            GlobalError::HandshakeFailed { step, received } => {
                let expected = "Guacamole Protocol Error. expected ".to_owned().concat(
                    step.opcode(),
                );
                match received {
                    Some(opcode) => expected.concat(", received ").concat(opcode.as_str()),
                    None => expected,
                }
            },
            GlobalError::ConnectionClosed => "Connection closed.".to_owned(),
            GlobalError::UnsupportedProtocol(name) => {
                "Unsupported protocol: ".to_owned().concat(name.as_str())
            },
            GlobalError::OutOfSequence => "Handshake step out of sequence.".to_owned(),
        }
    }

    /// A copy of this error.
    pub fn duplicate(&self) -> (r: GlobalError)
        ensures
            r == *self,
    {
        match self {
            GlobalError::ConnectionError(reason) => GlobalError::ConnectionError(reason.clone()),
            GlobalError::MalformedInstruction(m) => GlobalError::MalformedInstruction(*m),
            GlobalError::InvalidInstruction(m) => GlobalError::InvalidInstruction(*m),
            GlobalError::HandshakeFailed { step, received } => {
                let received = match received {
                    Some(opcode) => Some(opcode.clone()),
                    None => None,
                };
                GlobalError::HandshakeFailed { step: *step, received }
            },
            GlobalError::ConnectionClosed => GlobalError::ConnectionClosed,
            GlobalError::UnsupportedProtocol(name) => GlobalError::UnsupportedProtocol(
                name.clone(),
            ),
            GlobalError::OutOfSequence => GlobalError::OutOfSequence,
        }
    }
}

} // verus!

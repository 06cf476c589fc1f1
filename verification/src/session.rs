//! The session: the state machine of a client, from the opened transport
//! through the handshake to the end.
//!
//! The session does no I/O. It says what is to be written, takes what was
//! read, and keeps the state; whoever owns the transport writes and reads.

use crate::buffer::{after_frame, first_frame, has_frame, lemma_frame_of_wire, ReceiveBuffer};
use crate::error::{GlobalError, HandshakeStep, Malformation};
use crate::handshake::HandshakeParams;
use crate::instruction::{
    lemma_instruction_has_text, lemma_load_iff_encoded, loaded, utf8_each, Instruction,
    InstructionView,
};
use crate::text::{text_eq, text_from_utf8};
use vstd::prelude::*;
use vstd::utf8::{
    decode_utf8, encode_utf8, encode_utf8_decode_utf8, encode_utf8_valid_utf8, valid_utf8,
};

verus! {

/// Where a session stands.
#[derive(Debug, Clone, Copy, PartialEq, Eq, Structural)]
pub enum SessionState {
    /// The transport is open and nothing was negotiated yet.
    Connected,
    /// `select` was sent; the server's `args` is awaited.
    AwaitingArgs,
    /// The offer and `connect` were sent; the server's `ready` is awaited.
    AwaitingReady,
    /// The handshake is complete.
    Established,
    /// The session has ended, by `close` or by a failure.
    Closed,
}

/// The state of a session together with what belongs to that state only.
enum Phase {
    Connected,
    AwaitingArgs(HandshakeParams),
    AwaitingReady,
    Established(Option<String>),
    Closed(Option<String>, Option<GlobalError>),
}

/// A session with one server.
pub struct Session {
    host: String,
    port: u16,
    timeout_millis: u64,
    phase: Phase,
    buffer: ReceiveBuffer,
    exhausted: bool,
}

/// What a session is.
pub struct SessionView {
    /// The host that the transport was opened to.
    pub host: Seq<char>,
    /// The port that the transport was opened to.
    pub port: u16,
    /// The time allowed for opening the transport, in milliseconds.
    pub timeout_millis: u64,
    /// Where the session stands.
    pub state: SessionState,
    /// The offer of the handshake under way, until the server's `args`
    /// has come.
    pub offer: Option<HandshakeParams>,
    /// The identifier that the server gave to the session.
    pub id: Option<Seq<char>>,
    /// The failure that closed the session.
    pub last_error: Option<GlobalError>,
    /// The bytes that were received and not yet handed on as instructions.
    pub pending: Seq<u8>,
    /// Whether the transport has said that no more bytes will come.
    pub exhausted: bool,
}

impl SessionView {
    /// Whether the handshake is complete and the session still open.
    pub open spec fn connected(self) -> bool {
        self.state == SessionState::Established
    }

    /// What holds of every session: an offer is kept exactly while the
    /// server's `args` is awaited, an identifier is there only once the
    /// handshake was completed, and a failure only once the session is
    /// closed.
    pub open spec fn consistent(self) -> bool {
        &&& self.offer is Some <==> self.state == SessionState::AwaitingArgs
        &&& self.id is Some ==> self.state == SessionState::Established || self.state
            == SessionState::Closed
        &&& self.last_error is Some ==> self.state == SessionState::Closed
    }

    /// This session, closed, with `error` as the failure where one is
    /// given.
    pub open spec fn closed(self, error: Option<GlobalError>) -> SessionView {
        SessionView { state: SessionState::Closed, offer: None, last_error: error, ..self }
    }
}

/// The text of an identifier that may be absent.
pub open spec fn text_of(id: Option<String>) -> Option<Seq<char>> {
    match id {
        Some(text) => Some(text@),
        None => None,
    }
}

impl View for Session {
    type V = SessionView;

    closed spec fn view(&self) -> SessionView {
        SessionView {
            host: self.host@,
            port: self.port,
            timeout_millis: self.timeout_millis,
            state: match self.phase {
                Phase::Connected => SessionState::Connected,
                Phase::AwaitingArgs(_) => SessionState::AwaitingArgs,
                Phase::AwaitingReady => SessionState::AwaitingReady,
                Phase::Established(_) => SessionState::Established,
                Phase::Closed(_, _) => SessionState::Closed,
            },
            offer: match self.phase {
                Phase::AwaitingArgs(offer) => Some(offer),
                _ => None,
            },
            id: match self.phase {
                Phase::Established(id) => text_of(id),
                Phase::Closed(id, _) => text_of(id),
                _ => None,
            },
            last_error: match self.phase {
                Phase::Closed(_, error) => error,
                _ => None,
            },
            pending: self.buffer.pending(),
            exhausted: self.exhausted,
        }
    }
}

/// What `Session::decode_frame` answers for the bytes of a frame: what
/// `Instruction::load` answers for the text that they spell, with a fault
/// told as that of a received instruction.
pub open spec fn received(frame: Seq<u8>) -> Result<InstructionView, GlobalError> {
    if !valid_utf8(frame) {
        Err(GlobalError::InvalidInstruction(Malformation::InvalidText))
    } else {
        match loaded(decode_utf8(frame)) {
            Ok(instruction) => Ok(instruction),
            Err(GlobalError::MalformedInstruction(m)) => Err(GlobalError::InvalidInstruction(m)),
            Err(e) => Err(e),
        }
    }
}

/// Whether `reply` is an instruction with this opcode.
pub open spec fn is_reply(reply: Result<Instruction, GlobalError>, opcode: Seq<char>) -> bool {
    reply matches Ok(instruction) && instruction.opcode@ == opcode
}

/// The failure of a handshake that got `reply` at `step`.
pub open spec fn handshake_failure(
    step: HandshakeStep,
    reply: Result<Instruction, GlobalError>,
) -> GlobalError {
    GlobalError::HandshakeFailed {
        step,
        received: match reply {
            Ok(instruction) => Some(instruction.opcode),
            Err(_) => None,
        },
    }
}

/// The identifier that a `ready` with these arguments gives: the first
/// argument, where there is one.
pub open spec fn session_id(args: Seq<Seq<char>>) -> Option<Seq<char>> {
    if args.len() > 0 {
        Some(args[0])
    } else {
        None
    }
}

impl Session {
    /// A session on a transport that was just opened, or the error of a
    /// transport that could not be opened, with its reason.
    pub fn connect(host: String, port: u16, timeout_millis: u64, opened: Result<(), String>) -> (r:
        Result<Session, GlobalError>)
        ensures
            match opened {
                Ok(_) => r matches Ok(session) && session@ == (SessionView {
                    host: host@,
                    port,
                    timeout_millis,
                    state: SessionState::Connected,
                    offer: None,
                    id: None,
                    last_error: None,
                    pending: Seq::empty(),
                    exhausted: false,
                }),
                Err(reason) => r == Err::<Session, GlobalError>(
                    GlobalError::ConnectionError(reason),
                ),
            },
    {
        match opened {
            Ok(_) => Ok(
                Session {
                    host,
                    port,
                    timeout_millis,
                    phase: Phase::Connected,
                    buffer: ReceiveBuffer::new(),
                    exhausted: false,
                },
            ),
            Err(reason) => Err(GlobalError::ConnectionError(reason)),
        }
    }

    /// The host that the transport was opened to.
    pub fn host(&self) -> (r: &String)
        ensures
            r@ == self@.host,
    {
        &self.host
    }

    /// The port that the transport was opened to.
    pub fn port(&self) -> (r: u16)
        ensures
            r == self@.port,
    {
        self.port
    }

    /// The time allowed for opening the transport, in milliseconds.
    pub fn timeout_millis(&self) -> (r: u64)
        ensures
            r == self@.timeout_millis,
    {
        self.timeout_millis
    }

    /// Where the session stands.
    pub fn state(&self) -> (r: SessionState)
        ensures
            r == self@.state,
    {
        match &self.phase {
            Phase::Connected => SessionState::Connected,
            Phase::AwaitingArgs(_) => SessionState::AwaitingArgs,
            Phase::AwaitingReady => SessionState::AwaitingReady,
            Phase::Established(_) => SessionState::Established,
            Phase::Closed(_, _) => SessionState::Closed,
        }
    }

    /// Whether the handshake is complete and the session still open.
    pub fn is_connected(&self) -> (r: bool)
        ensures
            r == self@.connected(),
    {
        match &self.phase {
            Phase::Established(_) => true,
            _ => false,
        }
    }

    /// The identifier that the server gave to the session.
    pub fn id(&self) -> (r: Option<String>)
        ensures
            text_of(r) == self@.id,
    {
        match &self.phase {
            Phase::Established(Some(id)) => Some(id.clone()),
            Phase::Closed(Some(id), _) => Some(id.clone()),
            _ => None,
        }
    }

    /// The failure that closed the session.
    pub fn last_error(&self) -> (r: Option<GlobalError>)
        ensures
            r == self@.last_error,
    {
        match &self.phase {
            Phase::Closed(_, Some(error)) => Some(error.duplicate()),
            _ => None,
        }
    }

    /// The text of `instruction` on the wire, for the transport to write
    /// out in full, or `ConnectionClosed` where the session is closed.
    pub fn send_instruction(&self, instruction: &Instruction) -> (r: Result<String, GlobalError>)
        ensures
            match r {
                Ok(text) => self@.state != SessionState::Closed && encode_utf8(text@)
                    == instruction@.wire(),
                Err(e) => self@.state == SessionState::Closed && e
                    == GlobalError::ConnectionClosed,
            },
    {
        match &self.phase {
            Phase::Closed(_, _) => Err(GlobalError::ConnectionClosed),
            _ => Ok(instruction.encode()),
        }
    }

    /// Takes note that the transport could not write: the session is
    /// closed with this failure, unless it was closed before. Gives the
    /// error to report.
    pub fn write_failed(&mut self, reason: String) -> (r: GlobalError)
        ensures
            r == GlobalError::ConnectionError(reason),
            final(self)@ == if old(self)@.state == SessionState::Closed {
                old(self)@
            } else {
                old(self)@.closed(Some(r))
            },
    {
        let error = GlobalError::ConnectionError(reason);
        self.fail(error.duplicate());
        error
    }

    /// Closes the session with `error`, unless it was closed before.
    fn fail(&mut self, error: GlobalError)
        ensures
            final(self)@ == if old(self)@.state == SessionState::Closed {
                old(self)@
            } else {
                old(self)@.closed(Some(error))
            },
    {
        let mut phase = Phase::Connected;
        core::mem::swap(&mut self.phase, &mut phase);
        self.phase = match phase {
            Phase::Closed(id, first) => Phase::Closed(id, first),
            Phase::Established(id) => Phase::Closed(id, Some(error)),
            _ => Phase::Closed(None, Some(error)),
        };
    }

    /// Ends the session. Says whether the transport is to be shut down
    /// now, in both directions: it is, unless the session was closed
    /// before.
    pub fn close(&mut self) -> (r: bool)
        ensures
            r == (old(self)@.state != SessionState::Closed),
            final(self)@ == old(self)@.closed(old(self)@.last_error),
    {
        let mut phase = Phase::Connected;
        core::mem::swap(&mut self.phase, &mut phase);
        let (next, open) = match phase {
            Phase::Closed(id, error) => (Phase::Closed(id, error), false),
            Phase::Established(id) => (Phase::Closed(id, None), true),
            _ => (Phase::Closed(None, None), true),
        };
        self.phase = next;
        open
    }

    /// Takes in what the transport has read. An empty read says that no
    /// more bytes will come. A closed session takes nothing in.
    pub fn feed(&mut self, data: &[u8])
        ensures
            final(self)@ == if old(self)@.state == SessionState::Closed {
                old(self)@
            } else {
                SessionView {
                    pending: old(self)@.pending + data@,
                    exhausted: old(self)@.exhausted || data@.len() == 0,
                    ..old(self)@
                }
            },
    {
        match &self.phase {
            Phase::Closed(_, _) => {},
            _ => {
                if data.len() == 0 {
                    self.exhausted = true;
                }
                self.buffer.feed(data);
                assert(self.buffer.pending() =~= old(self)@.pending + data@);
            },
        }
    }

    /// The instruction that the bytes of one frame hold.
    pub fn decode_frame(frame: Vec<u8>) -> (r: Result<Instruction, GlobalError>)
        ensures
            match received(frame@) {
                Ok(view) => r matches Ok(instruction) && instruction@ == view,
                Err(e) => r == Err::<Instruction, GlobalError>(e),
            },
    {
        match text_from_utf8(frame) {
            None => Err(GlobalError::InvalidInstruction(Malformation::InvalidText)),
            Some(text) => {
                proof {
                    encode_utf8_valid_utf8(text@);
                    encode_utf8_decode_utf8(text@);
                }
                match Instruction::load(text) {
                    Ok(instruction) => Ok(instruction),
                    Err(GlobalError::MalformedInstruction(m)) => Err(
                        GlobalError::InvalidInstruction(m),
                    ),
                    Err(e) => Err(e),
                }
            },
        }
    }

    /// The next instruction from the server, where the bytes taken in so
    /// far hold one.
    ///
    /// One frame is taken out of the buffer and decoded, whether or not
    /// it is an instruction; what follows it stays for the next call.
    /// Without a whole frame the answer is nothing, and the transport is
    /// to be read again, unless no more bytes will come: then, and in a
    /// closed session, the answer is `ConnectionClosed`.
    pub fn receive_instruction(&mut self) -> (r: Option<Result<Instruction, GlobalError>>)
        ensures
            ({
                let before = old(self)@;
                if before.state == SessionState::Closed {
                    &&& final(self)@ == before
                    &&& r == Some(Err::<Instruction, GlobalError>(GlobalError::ConnectionClosed))
                } else if has_frame(before.pending) {
                    &&& final(self)@ == SessionView {
                        pending: after_frame(before.pending),
                        ..before
                    }
                    &&& match received(first_frame(before.pending)) {
                        Ok(view) => r matches Some(Ok(instruction)) && instruction@ == view,
                        Err(e) => r == Some(Err::<Instruction, GlobalError>(e)),
                    }
                } else if before.exhausted {
                    &&& final(self)@ == before
                    &&& r == Some(Err::<Instruction, GlobalError>(GlobalError::ConnectionClosed))
                } else {
                    &&& final(self)@ == before
                    &&& r is None
                }
            }),
    {
        match &self.phase {
            Phase::Closed(_, _) => {
                return Some(Err(GlobalError::ConnectionClosed));
            },
            _ => {},
        }
        match self.buffer.take_frame() {
            Some(frame) => Some(Session::decode_frame(frame)),
            None => {
                if self.exhausted {
                    Some(Err(GlobalError::ConnectionClosed))
                } else {
                    None
                }
            },
        }
    }

    /// Starts the handshake with this offer: gives the `select` to send,
    /// and from then on the server's `args` is awaited. `handshake_reply`
    /// takes the handshake on from there.
    ///
    /// A closed session answers `ConnectionClosed`, one whose handshake
    /// was started before `OutOfSequence`; neither changes.
    pub fn handshake(&mut self, offer: HandshakeParams) -> (r: Result<
        Instruction,
        GlobalError,
    >)
        ensures
            ({
                let before = old(self)@;
                match before.state {
                    SessionState::Connected => {
                        &&& final(self)@ == SessionView {
                            state: SessionState::AwaitingArgs,
                            offer: Some(offer),
                            ..before
                        }
                        &&& r matches Ok(select) && select@ == offer.select()
                    },
                    SessionState::Closed => {
                        &&& final(self)@ == before
                        &&& r == Err::<Instruction, GlobalError>(GlobalError::ConnectionClosed)
                    },
                    _ => {
                        &&& final(self)@ == before
                        &&& r == Err::<Instruction, GlobalError>(GlobalError::OutOfSequence)
                    },
                }
            }),
    {
        match &self.phase {
            Phase::Connected => {
                let select = offer.select_instruction();
                self.phase = Phase::AwaitingArgs(offer);
                Ok(select)
            },
            Phase::Closed(_, _) => Err(GlobalError::ConnectionClosed),
            _ => Err(GlobalError::OutOfSequence),
        }
    }

    /// Takes the handshake one step on with what was received: an
    /// instruction, or the error of a receive that failed.
    ///
    /// While `args` is awaited, an `args` is answered with the
    /// instructions to send, which end with `connect`; then `ready` is
    /// awaited. While `ready` is awaited, a `ready` completes the
    /// handshake, and its first argument, where it has one, is the
    /// session's identifier. Anything else at these two steps closes the
    /// session with `HandshakeFailed`, and the transport is to be shut
    /// down. At any other time the session stays as it is and the answer
    /// is `ConnectionClosed` where it is closed, else `OutOfSequence`.
    pub fn handshake_reply(&mut self, reply: Result<Instruction, GlobalError>) -> (r: Result<
        Vec<Instruction>,
        GlobalError,
    >)
        ensures
            ({
                let before = old(self)@;
                match before.state {
                    SessionState::AwaitingArgs => if is_reply(reply, "args"@) {
                        &&& final(self)@ == SessionView {
                            state: SessionState::AwaitingReady,
                            offer: None,
                            ..before
                        }
                        &&& r matches Ok(batch) && batch.deep_view() == before.offer->0.negotiation(
                            reply->Ok_0@.args,
                        )
                    } else {
                        let e = handshake_failure(HandshakeStep::Args, reply);
                        &&& final(self)@ == before.closed(Some(e))
                        &&& r == Err::<Vec<Instruction>, GlobalError>(e)
                    },
                    SessionState::AwaitingReady => if is_reply(reply, "ready"@) {
                        &&& final(self)@ == SessionView {
                            state: SessionState::Established,
                            id: session_id(reply->Ok_0@.args),
                            ..before
                        }
                        &&& r matches Ok(batch) && batch@.len() == 0
                    } else {
                        let e = handshake_failure(HandshakeStep::Ready, reply);
                        &&& final(self)@ == before.closed(Some(e))
                        &&& r == Err::<Vec<Instruction>, GlobalError>(e)
                    },
                    SessionState::Closed => {
                        &&& final(self)@ == before
                        &&& r == Err::<Vec<Instruction>, GlobalError>(GlobalError::ConnectionClosed)
                    },
                    _ => {
                        &&& final(self)@ == before
                        &&& r == Err::<Vec<Instruction>, GlobalError>(GlobalError::OutOfSequence)
                    },
                }
            }),
    {
        let mut phase = Phase::Connected;
        core::mem::swap(&mut self.phase, &mut phase);
        match phase {
            Phase::AwaitingArgs(offer) => {
                match reply {
                    Ok(instruction) => {
                        if text_eq(instruction.opcode.as_str(), "args") {
                            self.phase = Phase::AwaitingReady;
                            Ok(offer.negotiation_instructions(&instruction.args))
                        } else {
                            let error = GlobalError::HandshakeFailed {
                                step: HandshakeStep::Args,
                                received: Some(instruction.opcode),
                            };
                            self.phase = Phase::Closed(None, Some(error.duplicate()));
                            Err(error)
                        }
                    },
                    Err(_) => {
                        let error = GlobalError::HandshakeFailed {
                            step: HandshakeStep::Args,
                            received: None,
                        };
                        self.phase = Phase::Closed(None, Some(error.duplicate()));
                        Err(error)
                    },
                }
            },
            Phase::AwaitingReady => {
                match reply {
                    Ok(instruction) => {
                        if text_eq(instruction.opcode.as_str(), "ready") {
                            let mut args = instruction.args;
                            let ghost all = args.deep_view();
                            let id = if args.len() > 0 {
                                Some(args.swap_remove(0))
                            } else {
                                None
                            };
                            self.phase = Phase::Established(id);
                            Ok(Vec::new())
                        } else {
                            let error = GlobalError::HandshakeFailed {
                                step: HandshakeStep::Ready,
                                received: Some(instruction.opcode),
                            };
                            self.phase = Phase::Closed(None, Some(error.duplicate()));
                            Err(error)
                        }
                    },
                    Err(_) => {
                        let error = GlobalError::HandshakeFailed {
                            step: HandshakeStep::Ready,
                            received: None,
                        };
                        self.phase = Phase::Closed(None, Some(error.duplicate()));
                        Err(error)
                    },
                }
            },
            Phase::Closed(id, error) => {
                self.phase = Phase::Closed(id, error);
                Err(GlobalError::ConnectionClosed)
            },
            Phase::Connected => {
                Err(GlobalError::OutOfSequence)
            },
            Phase::Established(id) => {
                self.phase = Phase::Established(id);
                Err(GlobalError::OutOfSequence)
            },
        }
    }
}

/// Receiving inverts sending: the bytes of an instruction, followed by
/// whatever comes next on the stream, are received as that instruction,
/// and what came next stays behind. This holds of every instruction whose
/// elements hold no terminator: a frame ends at the first one.
pub proof fn lemma_receive_inverts_send(instruction: InstructionView, next: Seq<u8>)
    requires
        instruction.framable(),
    ensures
        has_frame(instruction.wire() + next),
        received(first_frame(instruction.wire() + next)) == Ok::<InstructionView, GlobalError>(
            instruction,
        ),
        after_frame(instruction.wire() + next) == next,
{
    lemma_frame_of_wire(utf8_each(instruction.elements()), next);
    lemma_instruction_has_text(instruction);
    lemma_load_iff_encoded(decode_utf8(instruction.wire()), instruction);
}

/// Every session is consistent, whatever was done with it.
pub proof fn lemma_session_consistent(session: Session)
    ensures
        session@.consistent(),
        session@.connected() ==> session@.state == SessionState::Established,
{
}

} // verus!

//! Client side of the Guacamole remote-desktop gateway protocol: the
//! instruction codec and the session state machine, without any I/O.
//!
//! An instruction is an opcode and its arguments. On the wire each of them
//! is an element, `<length>.<content>`, with the length counted in bytes;
//! elements are joined by `,` and the instruction ends with `;`:
//! `6.select,3.rdp;`.

pub mod buffer;
pub mod error;
pub mod handshake;
pub mod instruction;
pub mod protocol;
pub mod scan;
pub mod session;
pub mod text;
pub mod wire;

pub use buffer::ReceiveBuffer;
pub use error::{GlobalError, HandshakeStep, Malformation};
pub use handshake::HandshakeParams;
pub use instruction::Instruction;
pub use protocol::Protocol;
pub use session::{Session, SessionState};

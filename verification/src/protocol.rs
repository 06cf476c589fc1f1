//! The remote-desktop protocols that a session can select.

use crate::error::GlobalError;
use crate::text::text_eq;
use vstd::prelude::*;

verus! {

/// A remote-desktop protocol.
#[derive(Debug, Clone, Copy, PartialEq, Eq, Structural)]
pub enum Protocol {
    /// Remote Desktop Protocol.
    RDP,
    /// Secure Shell.
    SSH,
    /// Virtual Network Computing.
    VNC,
}

impl Protocol {
    /// The name of the protocol as `select` carries it.
    pub open spec fn name_spec(self) -> Seq<char> {
        match self {
            Protocol::RDP => "rdp"@,
            Protocol::SSH => "ssh"@,
            Protocol::VNC => "vnc"@,
        }
    }

    /// The protocol that `name` stands for: its name as `select` carries
    /// it, or the same in capitals.
    pub open spec fn named(name: Seq<char>) -> Option<Protocol> {
        if name == "rdp"@ || name == "RDP"@ {
            Some(Protocol::RDP)
        } else if name == "ssh"@ || name == "SSH"@ {
            Some(Protocol::SSH)
        } else if name == "vnc"@ || name == "VNC"@ {
            Some(Protocol::VNC)
        } else {
            None
        }
    }

    /// The name of the protocol as `select` carries it.
    pub fn name(&self) -> (r: &'static str)
        ensures
            r@ == self.name_spec(),
    {
        match self {
            Protocol::RDP => "rdp",
            Protocol::SSH => "ssh",
            Protocol::VNC => "vnc",
        }
    }

    /// The protocol of this name, or `UnsupportedProtocol` with the name
    /// where there is none.
    pub fn from_name(name: &str) -> (r: Result<Protocol, GlobalError>)
        ensures
            match Protocol::named(name@) {
                Some(protocol) => r == Ok::<Protocol, GlobalError>(protocol),
                None => r matches Err(GlobalError::UnsupportedProtocol(given)) && given@ == name@,
            },
    {
        if text_eq(name, "rdp") || text_eq(name, "RDP") {
            Ok(Protocol::RDP)
        } else if text_eq(name, "ssh") || text_eq(name, "SSH") {
            Ok(Protocol::SSH)
        } else if text_eq(name, "vnc") || text_eq(name, "VNC") {
            Ok(Protocol::VNC)
        } else {
            Err(GlobalError::UnsupportedProtocol(name.to_owned()))
        }
    }
}

/// Every protocol is found again by its own name.
pub proof fn lemma_protocol_name(protocol: Protocol)
    ensures
        Protocol::named(protocol.name_spec()) == Some(protocol),
{
    reveal_strlit("rdp");
    reveal_strlit("RDP");
    reveal_strlit("ssh");
    reveal_strlit("SSH");
    reveal_strlit("vnc");
    reveal_strlit("VNC");
    if protocol == Protocol::SSH {
        assert("ssh"@[0] != "rdp"@[0]);
        assert("ssh"@[0] != "RDP"@[0]);
    }
    if protocol == Protocol::VNC {
        assert("vnc"@[0] != "rdp"@[0]);
        assert("vnc"@[0] != "RDP"@[0]);
        assert("vnc"@[0] != "ssh"@[0]);
        assert("vnc"@[0] != "SSH"@[0]);
    }
}

} // verus!

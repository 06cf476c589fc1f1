use guacamole_client::scan::{locate_elements, read_element};
use guacamole_client::text::{decimal_text, slice_text, text_eq};
use guacamole_client::wire::{ARG_SEP, ELEM_SEP, INST_TERM};
use guacamole_client::{GlobalError, HandshakeStep, Malformation, Protocol};

#[test]
fn separators_are_the_three_characters() {
    assert_eq!(ELEM_SEP, b'.');
    assert_eq!(INST_TERM, b';');
    assert_eq!(ARG_SEP, b',');
}

#[test]
fn locate_elements_gives_the_ranges() {
    assert_eq!(locate_elements(b"4.size,4.1024;"), Ok(vec![(2, 6), (9, 13)]));
    assert_eq!(locate_elements(b"5.ready;"), Ok(vec![(2, 7)]));
    assert_eq!(locate_elements(b"0.;"), Ok(vec![(2, 2)]));
    assert_eq!(locate_elements(b"0.,0.;"), Ok(vec![(2, 2), (5, 5)]));
    assert_eq!(locate_elements(b"10.0123456789,1.;;"), Ok(vec![(3, 13), (16, 17)]));
}

#[test]
fn locate_elements_takes_any_bytes_as_content() {
    assert_eq!(locate_elements(b"2.\xff\xfe,1.\x80;"), Ok(vec![(2, 4), (7, 8)]));
}

#[test]
fn locate_elements_gives_each_fault() {
    assert_eq!(locate_elements(b""), Err(Malformation::MissingTerminator));
    assert_eq!(locate_elements(b"4.size"), Err(Malformation::MissingTerminator));
    assert_eq!(locate_elements(b"size;"), Err(Malformation::InvalidLength));
    assert_eq!(locate_elements(b"01.a;"), Err(Malformation::InvalidLength));
    assert_eq!(locate_elements(b"4.size,5.1024;"), Err(Malformation::LengthMismatch));
    assert_eq!(locate_elements(b"4.size,50.1024;"), Err(Malformation::LengthMismatch));
    assert_eq!(locate_elements(b"2.size;"), Err(Malformation::LengthMismatch));
}

#[test]
fn read_element_reads_from_the_cursor() {
    let bytes = b"4.size,4.1024;";
    assert_eq!(read_element(bytes, 0), Ok((2, 6)));
    assert_eq!(read_element(bytes, 7), Ok((9, 13)));
    assert_eq!(read_element(bytes, 14), Err(Malformation::InvalidLength));
    assert_eq!(read_element(bytes, 1), Err(Malformation::InvalidLength));
    assert_eq!(read_element(bytes, 9), Err(Malformation::InvalidLength));
    assert_eq!(read_element(b"4.size,9.1024;", 7), Err(Malformation::LengthMismatch));
    // a terminator behind the content counts only as the last byte
    assert_eq!(read_element(b"1.a;b", 0), Err(Malformation::LengthMismatch));
    assert_eq!(read_element(b"1.a;", 0), Ok((2, 3)));
}

#[test]
fn decimal_text_is_the_shortest_numeral() {
    assert_eq!(decimal_text(0), "0");
    assert_eq!(decimal_text(7), "7");
    assert_eq!(decimal_text(9), "9");
    assert_eq!(decimal_text(10), "10");
    assert_eq!(decimal_text(1024), "1024");
    assert_eq!(decimal_text(90807), "90807");
    assert_eq!(decimal_text(usize::MAX), usize::MAX.to_string());
}

#[test]
fn text_eq_compares_texts() {
    assert!(text_eq("args", "args"));
    assert!(text_eq("", ""));
    assert!(!text_eq("args", "arg"));
    assert!(!text_eq("args", "argz"));
    assert!(!text_eq("é", "e"));
}

#[test]
fn slice_text_cuts_between_characters() {
    assert_eq!(slice_text("4.size,4.1024;", 2, 6), "size");
    assert_eq!(slice_text("aé😀b", 1, 7), "é😀");
    assert_eq!(slice_text("abc", 3, 3), "");
    assert_eq!(slice_text("abc", 0, 3), "abc");
}

#[test]
fn protocol_names() {
    assert_eq!(Protocol::RDP.name(), "rdp");
    assert_eq!(Protocol::SSH.name(), "ssh");
    assert_eq!(Protocol::VNC.name(), "vnc");
    for p in [Protocol::RDP, Protocol::SSH, Protocol::VNC] {
        assert_eq!(Protocol::from_name(p.name()), Ok(p));
        assert_eq!(Protocol::from_name(&p.name().to_uppercase()), Ok(p));
    }
}

#[test]
fn protocol_rejects_other_names() {
    for name in ["", "Rdp", "telnet", "rdp ", "vnc2"] {
        assert_eq!(
            Protocol::from_name(name),
            Err(GlobalError::UnsupportedProtocol(String::from(name)))
        );
    }
}

#[test]
fn messages() {
    assert_eq!(
        GlobalError::MalformedInstruction(Malformation::MissingTerminator).message(),
        "Instruction termination not found."
    );
    assert_eq!(
        GlobalError::MalformedInstruction(Malformation::InvalidLength).message(),
        "Invalid arg length. Possibly due to missing element separator"
    );
    assert_eq!(
        GlobalError::InvalidInstruction(Malformation::LengthMismatch).message(),
        "Instruction arg has invalid length."
    );
    assert_eq!(
        GlobalError::InvalidInstruction(Malformation::InvalidText).message(),
        "Instruction is not valid UTF-8."
    );
    assert_eq!(
        GlobalError::ConnectionError(String::from("refused")).message(),
        "Connection error. refused"
    );
    assert_eq!(GlobalError::ConnectionClosed.message(), "Connection closed.");
    assert_eq!(GlobalError::OutOfSequence.message(), "Handshake step out of sequence.");
    assert_eq!(
        GlobalError::UnsupportedProtocol(String::from("telnet")).message(),
        "Unsupported protocol: telnet"
    );
    assert_eq!(
        GlobalError::HandshakeFailed { step: HandshakeStep::Args, received: None }.message(),
        "Guacamole Protocol Error. expected args"
    );
    assert_eq!(
        GlobalError::HandshakeFailed {
            step: HandshakeStep::Ready,
            received: Some(String::from("error"))
        }
        .message(),
        "Guacamole Protocol Error. expected ready, received error"
    );
    assert_eq!(HandshakeStep::Args.opcode(), "args");
    assert_eq!(HandshakeStep::Ready.opcode(), "ready");
}

#[test]
fn duplicate_copies_every_error() {
    let errors = vec![
        GlobalError::ConnectionError(String::from("refused")),
        GlobalError::MalformedInstruction(Malformation::InvalidLength),
        GlobalError::InvalidInstruction(Malformation::InvalidText),
        GlobalError::HandshakeFailed { step: HandshakeStep::Args, received: None },
        GlobalError::HandshakeFailed {
            step: HandshakeStep::Ready,
            received: Some(String::from("error")),
        },
        GlobalError::ConnectionClosed,
        GlobalError::UnsupportedProtocol(String::from("telnet")),
        GlobalError::OutOfSequence,
    ];
    for e in errors {
        assert_eq!(e.duplicate(), e);
    }
}

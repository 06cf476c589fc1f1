use guacamole_client::{GlobalError, Instruction, Malformation};

fn texts(items: &[&str]) -> Vec<String> {
    items.iter().map(|s| s.to_string()).collect()
}

#[test]
fn test_decode() {
    let instruction = String::from("4.size,4.1024;");
    match Instruction::decode(instruction) {
        Ok(result) => {
            assert_eq!(result, texts(&["size", "1024"]));
            for i in result {
                println!("result:{}", i)
            }
        }
        Err(e) => panic!("{:?}", e),
    }
}

#[test]
fn test_encode() {
    let instruction = Instruction::new(String::from("size"), vec![String::from("1024")]);
    let result = instruction.encode();
    assert_eq!(result.strip_suffix(';'), Some("4.size,4.1024"));
}

#[test]
fn test_encode_select() {
    let instruction = Instruction::new(String::from("select"), vec![String::from("rdp")]);
    let result = instruction.encode();
    println!("{}", result);
    assert_eq!(result, "6.select,3.rdp;");
}

#[test]
fn print_instruction() {
    let instruction = Instruction::new(String::from("size"), vec![String::from("1024")]);
    println!("{}", instruction.to_text());
    assert_eq!(instruction.to_text(), "size [\"1024\"]");
}

#[test]
fn it_works() {
    let result = 2 + 2;
    assert_eq!(result, 4);
}

#[test]
fn to_text_escapes_as_debug_does() {
    let instruction = Instruction::new(String::from("key"), texts(&["a\"b", "c\\d", "e\nf"]));
    assert_eq!(instruction.to_text(), format!("key {:?}", instruction.args));
    assert_eq!(instruction.to_text(), "key [\"a\\\"b\", \"c\\\\d\", \"e\\nf\"]");
    assert_eq!(Instruction::new(String::from("nop"), vec![]).to_text(), "nop []");
    assert_eq!(Instruction::label("size", "[]"), "size []");
}

#[test]
fn new_keeps_opcode_and_args() {
    let instruction = Instruction::new(String::from("size"), texts(&["1024", "768", "96"]));
    assert_eq!(instruction.opcode, "size");
    assert_eq!(instruction.args, texts(&["1024", "768", "96"]));
}

#[test]
fn encode_joins_elements_and_terminates() {
    let instruction = Instruction::new(String::from("size"), texts(&["1024", "768", "96"]));
    assert_eq!(instruction.encode(), "4.size,4.1024,3.768,2.96;");
}

#[test]
fn encode_without_args() {
    let instruction = Instruction::new(String::from("ready"), vec![]);
    assert_eq!(instruction.encode(), "5.ready;");
}

#[test]
fn encode_empty_elements() {
    let instruction = Instruction::new(String::new(), vec![String::new()]);
    assert_eq!(instruction.encode(), "0.,0.;");
    let back = Instruction::load(instruction.encode()).unwrap();
    assert_eq!(back, instruction);
}

#[test]
fn encode_arg_prefixes_the_byte_length() {
    let instruction = Instruction::new(String::from("nop"), vec![]);
    assert_eq!(instruction.encode_arg(String::from("rdp")), "3.rdp");
    assert_eq!(instruction.encode_arg(String::new()), "0.");
    assert_eq!(instruction.encode_arg(String::from("0123456789")), "10.0123456789");
    assert_eq!(instruction.encode_arg("x".repeat(99)), format!("99.{}", "x".repeat(99)));
    assert_eq!(instruction.encode_arg("x".repeat(100)), format!("100.{}", "x".repeat(100)));
    assert_eq!(instruction.encode_arg("y".repeat(12345)), format!("12345.{}", "y".repeat(12345)));
}

#[test]
fn encode_counts_bytes_not_characters() {
    let instruction = Instruction::new(String::from("nop"), vec![]);
    // two bytes, three bytes and four bytes for one character each
    assert_eq!(instruction.encode_arg(String::from("é")), "2.é");
    assert_eq!(instruction.encode_arg(String::from("€")), "3.€");
    assert_eq!(instruction.encode_arg(String::from("😀")), "4.😀");
    assert_eq!(instruction.encode_arg(String::from("añb")), "4.añb");
    let name = Instruction::new(String::from("name"), vec![String::from("Ünïcödé 😀")]);
    let wire = name.encode();
    assert_eq!(wire, "4.name,16.Ünïcödé 😀;");
    let back = Instruction::load(wire).unwrap();
    assert_eq!(back.opcode, "name");
    assert_eq!(back.args, vec![String::from("Ünïcödé 😀")]);
}

#[test]
fn decode_accepts_size() {
    let i = Instruction::load(String::from("4.size,4.1024;")).unwrap();
    assert_eq!(i.opcode, "size");
    assert_eq!(i.args, texts(&["1024"]));
}

#[test]
fn decode_accepts_select() {
    let i = Instruction::load(String::from("6.select,3.rdp;")).unwrap();
    assert_eq!(i.opcode, "select");
    assert_eq!(i.args, texts(&["rdp"]));
    assert_eq!(
        Instruction::decode(String::from("6.select,3.rdp;")),
        Ok(texts(&["select", "rdp"]))
    );
}

#[test]
fn decode_instruction_without_args() {
    let i = Instruction::load(String::from("5.ready;")).unwrap();
    assert_eq!(i.opcode, "ready");
    assert_eq!(i.args, Vec::<String>::new());
    assert_eq!(Instruction::decode(String::from("5.ready;")), Ok(texts(&["ready"])));
}

#[test]
fn decode_rejects_missing_terminator() {
    let expected = GlobalError::MalformedInstruction(Malformation::MissingTerminator);
    assert_eq!(Instruction::load(String::from("4.size,4.1024")), Err(expected.clone()));
    assert_eq!(Instruction::decode(String::from("4.size,4.1024")), Err(expected.clone()));
    assert_eq!(Instruction::load(String::new()), Err(expected.clone()));
    assert_eq!(Instruction::decode(String::new()), Err(expected.clone()));
    assert_eq!(Instruction::load(String::from("4.size,")), Err(expected.clone()));
    assert_eq!(Instruction::load(String::from("4.size;x")), Err(expected));
}

#[test]
fn decode_rejects_missing_length() {
    let expected = GlobalError::MalformedInstruction(Malformation::InvalidLength);
    assert_eq!(Instruction::load(String::from("size,1024;")), Err(expected.clone()));
    assert_eq!(Instruction::decode(String::from("size,1024;")), Err(expected.clone()));
    assert_eq!(Instruction::load(String::from(";")), Err(expected.clone()));
    assert_eq!(Instruction::load(String::from(".size;")), Err(expected.clone()));
    assert_eq!(Instruction::load(String::from("4size;")), Err(expected.clone()));
    assert_eq!(Instruction::load(String::from("4x.size;")), Err(expected.clone()));
    assert_eq!(Instruction::load(String::from("-4.size;")), Err(expected.clone()));
    assert_eq!(Instruction::load(String::from(" 4.size;")), Err(expected.clone()));
    assert_eq!(Instruction::load(String::from("4.size,;")), Err(expected.clone()));
    assert_eq!(Instruction::load(String::from("4.size,x.1024;")), Err(expected));
}

#[test]
fn decode_rejects_lengths_that_encode_never_writes() {
    let expected = GlobalError::MalformedInstruction(Malformation::InvalidLength);
    assert_eq!(Instruction::load(String::from("04.size;")), Err(expected.clone()));
    assert_eq!(Instruction::load(String::from("+4.size;")), Err(expected.clone()));
    assert_eq!(Instruction::load(String::from("00.;")), Err(expected.clone()));
    assert_eq!(Instruction::load(String::from("4.size,004.1024;")), Err(expected));
    assert_eq!(Instruction::decode(String::from("0.;")), Ok(texts(&[""])));
}

#[test]
fn decode_rejects_overstated_length() {
    let expected = GlobalError::MalformedInstruction(Malformation::LengthMismatch);
    // the length takes the terminator in: nothing is left behind the content
    assert_eq!(Instruction::load(String::from("4.size,5.1024;")), Err(expected.clone()));
    assert_eq!(Instruction::decode(String::from("4.size,5.1024;")), Err(expected.clone()));
    // the length runs past the end of the text
    assert_eq!(Instruction::load(String::from("4.size,6.1024;")), Err(expected.clone()));
    assert_eq!(Instruction::load(String::from("4.size,999.1024;")), Err(expected.clone()));
    assert_eq!(
        Instruction::load(String::from("4.size,18446744073709551615.1024;")),
        Err(expected.clone())
    );
    assert_eq!(
        Instruction::load(String::from("4.size,18446744073709551616.1024;")),
        Err(expected.clone())
    );
    assert_eq!(
        Instruction::load(String::from("99999999999999999999999999999999999999999.x;")),
        Err(expected.clone())
    );
    assert_eq!(Instruction::load(String::from("9.size;")), Err(expected));
}

#[test]
fn decode_rejects_understated_length() {
    let expected = GlobalError::MalformedInstruction(Malformation::LengthMismatch);
    assert_eq!(Instruction::load(String::from("4.size,3.1024;")), Err(expected.clone()));
    assert_eq!(Instruction::load(String::from("3.size,4.1024;")), Err(expected.clone()));
    assert_eq!(Instruction::load(String::from("0.size;")), Err(expected.clone()));
    // a terminator behind the content that is not the last byte
    assert_eq!(Instruction::load(String::from("1.a;1.b;")), Err(expected));
}

#[test]
fn decode_reports_the_first_fault() {
    assert_eq!(
        Instruction::load(String::from("x.size,5.1024;")),
        Err(GlobalError::MalformedInstruction(Malformation::InvalidLength))
    );
    assert_eq!(
        Instruction::load(String::from("5.size,x.1024;")),
        Err(GlobalError::MalformedInstruction(Malformation::LengthMismatch))
    );
    assert_eq!(
        Instruction::load(String::from("x.size,5.1024")),
        Err(GlobalError::MalformedInstruction(Malformation::MissingTerminator))
    );
}

#[test]
fn decode_rejects_a_length_that_cuts_a_character() {
    let expected = GlobalError::MalformedInstruction(Malformation::LengthMismatch);
    assert_eq!(Instruction::load(String::from("1.é;")), Err(expected.clone()));
    assert_eq!(Instruction::load(String::from("3.😀;")), Err(expected.clone()));
    assert_eq!(Instruction::load(String::from("1.é,1.a;")), Err(expected));
    assert_eq!(Instruction::decode(String::from("2.é;")), Ok(texts(&["é"])));
}

#[test]
fn content_may_hold_the_separators() {
    let instruction =
        Instruction::new(String::from("a.b"), texts(&["1,2", "x;y", "3.z,;", ";", ",", "."]));
    let wire = instruction.encode();
    assert_eq!(wire, "3.a.b,3.1,2,3.x;y,5.3.z,;,1.;,1.,,1..;");
    assert_eq!(Instruction::load(wire), Ok(instruction));
}

#[test]
fn load_inverts_encode() {
    let long = "0123456789".repeat(123);
    let cases: Vec<Instruction> = vec![
        Instruction::new(String::from("select"), texts(&["rdp"])),
        Instruction::new(String::from("size"), texts(&["1024", "768", "96"])),
        Instruction::new(String::from("audio"), vec![]),
        Instruction::new(String::from("args"), texts(&["hostname", "port", "", "password"])),
        Instruction::new(String::new(), vec![]),
        Instruction::new(String::new(), texts(&["", "", ""])),
        Instruction::new(String::from("4.size"), texts(&["4.1024;", "5.ready;"])),
        Instruction::new(String::from("日本語"), texts(&["é", "€€", "😀😀😀", "a\u{0}b"])),
        Instruction::new(String::from("blob"), vec![long.clone(), long.repeat(10)]),
    ];
    for instruction in cases {
        let wire = instruction.encode();
        assert!(wire.ends_with(';'));
        let elements = Instruction::decode(wire.clone()).unwrap();
        assert_eq!(elements[0], instruction.opcode);
        assert_eq!(&elements[1..], &instruction.args[..]);
        let back = Instruction::load(wire.clone()).unwrap();
        assert_eq!(back, instruction);
        assert_eq!(back.encode(), wire);
    }
}

#[test]
fn encode_inverts_load() {
    for wire in ["4.size,4.1024;", "6.select,3.rdp;", "5.ready;", "0.;", "10.0123456789,0.;"] {
        let instruction = Instruction::load(String::from(wire)).unwrap();
        assert_eq!(instruction.encode(), wire);
    }
}

#[test]
fn framable_instructions_hold_no_terminator() {
    assert!(Instruction::new(String::from("size"), texts(&["1024", "768"])).is_framable());
    assert!(Instruction::new(String::new(), vec![]).is_framable());
    assert!(Instruction::new(String::from("a.b"), texts(&["1,2", "é"])).is_framable());
    assert!(!Instruction::new(String::from("a;b"), vec![]).is_framable());
    assert!(!Instruction::new(String::from("key"), texts(&["a", "b;"])).is_framable());
    assert!(!Instruction::new(String::from("key"), texts(&[";", "b"])).is_framable());
}

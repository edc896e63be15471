use hack_toolchain::hack::{Comp, Dest, Instr, Jump, Program, Value};
use hack_toolchain::symbols::{assemble, AsmError, SymbolTable};

#[test]
fn parse_a_instr() {
    let code = "@6";
    assert_eq!(Instr::A(Value::Literal(6)), Instr::from_string(code));
    assert_eq!(Instr::A(Value::Literal(6)).to_binary(), "0000000000000110");
    assert_eq!(Instr::A(Value::Literal(56)).to_binary(), "0000000000111000");
    assert_eq!(Instr::A(Value::Literal(1001)).to_binary(), "0000001111101001");
}

#[test]
fn parse_c_instr() {
    let code = "D-1";
    let instr = Instr::C(Dest::new(), Comp("D-1".to_string()), Jump::new());
    assert_eq!(instr, Instr::from_string(code));
    assert_eq!(instr.to_binary(), "1110001110000000");
    assert_eq!(Instr::from_string("D|M").to_binary(), "1111010101000000");
    assert_eq!(Instr::from_string("D|A").to_binary(), "1110010101000000");
    assert_eq!(Instr::from_string("MD=M+1").to_binary(), "1111110111011000");
    assert_eq!(Instr::from_string("MD=M+1;JGE").to_binary(), "1111110111011011");
    assert_eq!(Instr::from_string("M=A").to_binary(), "1110110000001000");
}

#[test]
fn parse_symbol_operand() {
    assert_eq!(Instr::from_string("@LOOP"), Instr::A(Value::Variable("LOOP".to_string())));
    assert_eq!(Value::from_string("R13"), Value::Variable("R13".to_string()));
    assert_eq!(Value::from_string("32767"), Value::Literal(32767));
    assert_eq!(Value::from_string("+5"), Value::Literal(5));
    assert_eq!(Value::from_string("+"), Value::Variable("+".to_string()));
    assert_eq!(Value::from_string("++5"), Value::Variable("++5".to_string()));
    assert_eq!(Instr::from_string("@+12"), Instr::A(Value::Literal(12)));
}

#[test]
fn parse_dest_and_jump() {
    assert_eq!(Dest::from_string("AM"), Dest { a: true, d: false, m: true });
    assert_eq!(Dest::from_string("AM").to_binary(), "101");
    assert_eq!(Jump::from_string("JNE"), Jump { lt: true, eq: false, gt: true });
    assert_eq!(Jump::from_string("JMP").to_binary(), "111");
    assert_eq!(Jump::parse("JXX"), None);
    assert_eq!(Instr::parse("0;JXX"), None);
    assert_eq!(
        Instr::from_string("0;JMP"),
        Instr::C(Dest::new(), Comp("0".to_string()), Jump { lt: true, eq: true, gt: true })
    );
}

#[test]
fn parse_program_lines() {
    assert_eq!(Program::from_string("(LOOP)"), Program::Label("LOOP".to_string()));
    assert_eq!(Program::from_string("@2"), Program::Instr(Instr::A(Value::Literal(2))));
    assert_eq!(Program::parse("("), None);
}

#[test]
fn literal_encoding_largest() {
    assert_eq!(Instr::A(Value::Literal(65535)).to_binary(), "1111111111111111");
    assert!(!Instr::A(Value::Literal(65536)).is_encodable());
    assert!(!Instr::from_string("D*A").is_encodable());
}

#[test]
fn symbol_table_predefined_and_insert() {
    let mut t = SymbolTable::new();
    assert_eq!(t.get("SP"), Some(0));
    assert_eq!(t.get("R15"), Some(15));
    assert_eq!(t.get("SCREEN"), Some(16384));
    assert_eq!(t.get("KBD"), Some(24576));
    assert_eq!(t.get("THAT"), Some(4));
    assert_eq!(t.get("LOOP"), None);
    assert_eq!(t.insert("LOOP".to_string(), 7), None);
    assert_eq!(t.get("LOOP"), Some(7));
    assert_eq!(t.insert("LOOP".to_string(), 9), Some(7));
    assert_eq!(t.get("LOOP"), Some(9));
}

fn lines(src: &[&str]) -> Vec<String> {
    src.iter().map(|s| s.to_string()).collect()
}

#[test]
fn assemble_labels_and_variables() {
    let src = lines(&[
        "// adds 1 to i until it is 0",
        "@i   // a variable",
        "M=1",
        "(LOOP)",
        "@i",
        "D=M",
        "@END",
        "D;JEQ",
        "@LOOP",
        "0;JMP",
        "(END)",
        "@j",
        "M=0",
        "",
    ]);
    let words = assemble(&src).unwrap();
    assert_eq!(words.len(), 10);
    assert_eq!(words[0], "0000000000010000"); // i at 16
    assert_eq!(words[1], "1110111111001000");
    assert_eq!(words[4], "0000000000001000"); // END is instruction 8
    assert_eq!(words[6], "0000000000000010"); // LOOP is instruction 2
    assert_eq!(words[7], "1110101010000111");
    assert_eq!(words[8], "0000000000010001"); // j at 17
}

#[test]
fn assemble_errors() {
    assert_eq!(assemble(&lines(&["@1", "D;JXX"])), Err(AsmError::MalformedLine(2)));
    assert_eq!(assemble(&lines(&["@1", "", "D=D*A"])), Err(AsmError::Unencodable(1)));
    assert_eq!(assemble(&lines(&["@70000"])), Err(AsmError::Unencodable(0)));
}

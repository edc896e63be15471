use hack_toolchain::code::static_variable;
use hack_toolchain::command::{BinOp, ErrorKind, Segment, StackOp, UnOp, VMCommand};
use hack_toolchain::driver::{clean_line, translate_file, translate_program, SourceUnit};
use hack_toolchain::symbols::assemble;

/// A Hack computer: runs binary words from ROM over a 64K-word RAM.
struct Machine {
    rom: Vec<u16>,
    ram: Vec<i16>,
    a: i16,
    d: i16,
    pc: usize,
}

impl Machine {
    fn new(source: &str) -> Machine {
        let lines: Vec<String> = source.lines().map(|l| l.to_string()).collect();
        let words = assemble(&lines).expect("assembles");
        let rom = words.iter().map(|w| u16::from_str_radix(w, 2).unwrap()).collect();
        Machine { rom, ram: vec![0; 65536], a: 0, d: 0, pc: 0 }
    }

    fn step(&mut self) {
        let w = self.rom[self.pc];
        if w & 0x8000 == 0 {
            self.a = w as i16;
            self.pc += 1;
            return;
        }
        let y = if w & 0x1000 != 0 { self.ram[self.a as u16 as usize] } else { self.a };
        let mut x = self.d;
        let mut y = y;
        if w & 0x0800 != 0 { x = 0; }
        if w & 0x0400 != 0 { x = !x; }
        if w & 0x0200 != 0 { y = 0; }
        if w & 0x0100 != 0 { y = !y; }
        let mut out = if w & 0x0080 != 0 { x.wrapping_add(y) } else { x & y };
        if w & 0x0040 != 0 { out = !out; }
        let addr = self.a as u16 as usize;
        if w & 0x0008 != 0 { self.ram[addr] = out; }
        if w & 0x0010 != 0 { self.d = out; }
        if w & 0x0020 != 0 { self.a = out; }
        let jump = (w & 0x4 != 0 && out < 0) || (w & 0x2 != 0 && out == 0) || (w & 0x1 != 0 && out > 0);
        if jump { self.pc = self.a as u16 as usize; } else { self.pc += 1; }
    }

    /// Runs until the program counter leaves the program, or for `limit` steps.
    fn run(&mut self, limit: usize) {
        let mut n = 0;
        while self.pc < self.rom.len() && n < limit {
            self.step();
            n += 1;
        }
    }
}

fn unit(name: &str, src: &[&str]) -> SourceUnit {
    SourceUnit { name: name.to_string(), lines: src.iter().map(|s| s.to_string()).collect() }
}

fn translate_one(src: &[&str]) -> String {
    let mut counter = 0u64;
    let u = unit("Main", src);
    translate_file("Main", &u.lines, &mut counter).expect("translates")
}

#[test]
fn parse_commands() {
    assert!(matches!(VMCommand::from_string("push local 2"), Ok(VMCommand::Stack(StackOp::Push(Segment::Local, 2)))));
    assert!(matches!(VMCommand::from_string("pop temp 7"), Ok(VMCommand::Stack(StackOp::Pop(Segment::Temp, 7)))));
    assert!(matches!(VMCommand::from_string("add"), Ok(VMCommand::BinaryArithmeticLogical(BinOp::Add))));
    assert!(matches!(VMCommand::from_string("lt"), Ok(VMCommand::BinaryArithmeticLogical(BinOp::Lt))));
    assert!(matches!(VMCommand::from_string("not"), Ok(VMCommand::UnaryArithmeticLogical(UnOp::Not))));
    assert!(matches!(VMCommand::from_string("return"), Ok(VMCommand::Return)));
    match VMCommand::from_string("if-goto LOOP_START") {
        Ok(VMCommand::IfGoTo(l)) => assert_eq!(l, "LOOP_START"),
        _ => panic!("if-goto"),
    }
    match VMCommand::from_string("call Math.multiply 2") {
        Ok(VMCommand::Call(f, n)) => {
            assert_eq!(f, "Math.multiply");
            assert_eq!(n, 2);
        },
        _ => panic!("call"),
    }
    match VMCommand::from_string("function Main.main 3") {
        Ok(VMCommand::Function(f, n)) => {
            assert_eq!(f, "Main.main");
            assert_eq!(n, 3);
        },
        _ => panic!("function"),
    }
    assert_eq!(StackOp::from_string("push constant 17"), Ok(StackOp::Push(Segment::Constant, 17)));
}

#[test]
fn parse_errors() {
    assert!(matches!(VMCommand::from_string("jump"), Err(ErrorKind::MalformedCommand)));
    assert!(matches!(VMCommand::from_string("push"), Err(ErrorKind::MalformedCommand)));
    assert!(matches!(VMCommand::from_string("push local"), Err(ErrorKind::MalformedCommand)));
    assert!(matches!(VMCommand::from_string("frob x 1"), Err(ErrorKind::MalformedCommand)));
    assert!(matches!(VMCommand::from_string("push heap 1"), Err(ErrorKind::InvalidSegment)));
    assert!(matches!(VMCommand::from_string("push local x"), Err(ErrorKind::InvalidOperand)));
    assert!(matches!(VMCommand::from_string("push local -1"), Err(ErrorKind::InvalidOperand)));
    assert!(matches!(VMCommand::from_string("push local 4294967296"), Err(ErrorKind::InvalidOperand)));
    assert!(matches!(VMCommand::from_string("call f n"), Err(ErrorKind::InvalidOperand)));
    assert!(matches!(VMCommand::from_string("call f"), Err(ErrorKind::MalformedCommand)));
    assert!(matches!(VMCommand::from_string("label"), Err(ErrorKind::MalformedCommand)));
}

#[test]
fn pop_constant_is_unsupported() {
    for i in [0u32, 1, 7, 32767] {
        assert_eq!(StackOp::Pop(Segment::Constant, i).translate("Main"), Err(ErrorKind::UnsupportedOperation));
    }
    let mut counter = 0u64;
    let u = unit("Main", &["push constant 1", "pop constant 1"]);
    let e = translate_file("Main", &u.lines, &mut counter).unwrap_err();
    assert_eq!(e.kind, ErrorKind::UnsupportedOperation);
    assert_eq!(e.line, 2);
    assert_eq!(e.unit, "Main");
    assert_eq!(e.text, "pop constant 1");
}

#[test]
fn error_carries_unit_and_line() {
    let units = vec![unit("A", &["push constant 1"]), unit("B", &["", "// c", "push nowhere 3"])];
    let e = translate_program(&units, false).unwrap_err();
    assert_eq!(e.kind, ErrorKind::InvalidSegment);
    assert_eq!(e.unit, "B");
    assert_eq!(e.line, 3);
}

#[test]
fn clean_line_strips_comments_and_blanks() {
    assert_eq!(clean_line("  push constant 7 // seven\t"), "push constant 7");
    assert_eq!(clean_line("// only a comment"), "");
    assert_eq!(clean_line("\t add \r"), "add");
}

#[test]
fn push_constant_text() {
    assert_eq!(StackOp::push_constant(7), "@7\nD=A\n@SP\nA=M\nM=D\n@SP\nM=M+1\n");
    assert_eq!(
        StackOp::Push(Segment::Temp, 2).translate("Main").unwrap(),
        "@7\nD=M\n@SP\nA=M\nM=D\n@SP\nM=M+1\n"
    );
    assert_eq!(
        StackOp::Pop(Segment::Pointer, 1).translate("Main").unwrap(),
        "@THAT\nD=A\n@R13\nM=D\n@SP\nM=M-1\nA=M\nD=M\n@R13\nA=M\nM=D\n"
    );
}

#[test]
fn static_names_per_unit() {
    assert_eq!(static_variable("Foo", 0), "Foo.0");
    assert_ne!(static_variable("Foo", 0), static_variable("Bar", 0));
    assert_ne!(static_variable("Foo", 0), static_variable("Foo", 1));
    assert_ne!(static_variable("Foo.1", 2), static_variable("Foo", 12));
    let a = StackOp::Push(Segment::Static, 0).translate("Foo").unwrap();
    let b = StackOp::Push(Segment::Static, 0).translate("Bar").unwrap();
    assert!(a.starts_with("@Foo.0\n"));
    assert!(b.starts_with("@Bar.0\n"));
}

#[test]
fn generated_labels_are_numbered_by_command() {
    let out = translate_one(&["push constant 1", "push constant 1", "eq", "push constant 2", "push constant 2", "gt", "call f 0"]);
    assert!(out.contains("(EQUAL2)\n"));
    assert!(out.contains("(END2)\n"));
    assert!(out.contains("(EQUAL5)\n"));
    assert!(out.contains("(END5)\n"));
    assert!(out.contains("(freturn6)\n"));
    assert_eq!(out.matches("(EQUAL2)").count(), 1);
}

#[test]
fn comparison_declares_only_equal_and_end() {
    for op in [BinOp::Eq, BinOp::Gt, BinOp::Lt] {
        let out = VMCommand::comparison(op, 4);
        assert_eq!(out.matches("(EQUAL4)").count(), 1);
        assert_eq!(out.matches("(END4)").count(), 1);
        assert_eq!(out.matches('(').count(), 2);
        assert_eq!(out.matches("@EQUAL4\n").count(), 1);
        assert_eq!(out.matches("@END4\n").count(), 1);
    }
}

#[test]
fn label_block_is_the_declaration_alone() {
    let l = VMCommand::from_string("label LOOP").unwrap();
    assert_eq!(l.translate("Main", 3).unwrap(), "(LOOP)");
    let out = translate_one(&["label LOOP", "goto LOOP"]);
    assert_eq!(out, "// label LOOP\n(LOOP)\n// goto LOOP\n@LOOP\n0;JEQ\n");
}

#[test]
fn pointer_index_above_one_is_invalid() {
    assert_eq!(StackOp::Push(Segment::Pointer, 2).translate("Main"), Err(ErrorKind::InvalidOperand));
    assert_eq!(StackOp::Pop(Segment::Pointer, 5).translate("Main"), Err(ErrorKind::InvalidOperand));
    assert!(StackOp::Pop(Segment::Pointer, 1).translate("Main").is_ok());
}

#[test]
fn comparisons_do_not_overflow() {
    let m = run_plain(&["push constant 32767", "push constant 1", "neg", "gt"]);
    assert_eq!(m.ram[256], -1);
    let m = run_plain(&["push constant 32767", "neg", "push constant 1", "sub", "push constant 1", "lt"]);
    assert_eq!(m.ram[256], -1);
    assert_eq!(m.ram[0], 257);
}

#[test]
fn counter_carries_across_units() {
    let units = vec![unit("A", &["push constant 1", "push constant 2", "lt"]), unit("B", &["push constant 1", "push constant 2", "lt"])];
    let out = translate_program(&units, true).unwrap();
    assert!(out.starts_with("@256\nD=A\n@SP\nM=D\n@Sys.initreturn0\n"));
    assert!(out.contains("(EQUAL3)"));
    assert!(out.contains("(EQUAL6)"));
    assert!(!out.contains("(EQUAL0)"));
    let mut counter = 10u64;
    let u = unit("C", &["push constant 1", "", "pop temp 0"]);
    translate_file("C", &u.lines, &mut counter).unwrap();
    assert_eq!(counter, 12);
}

#[test]
fn function_and_return_text() {
    assert_eq!(VMCommand::function("f", 2), "(f)\n@0\nD=A\n@SP\nA=M\nM=D\n@SP\nM=M+1\n@0\nD=A\n@SP\nA=M\nM=D\n@SP\nM=M+1\n");
    let r = VMCommand::function_return();
    assert!(r.starts_with("@LCL\nD=M\n@R14\nM=D\n@5\nA=D-A\nD=M\n@R15\nM=D\n"));
    assert!(r.ends_with("@R14\nAM=M-1\nD=M\n@LCL\nM=D\n@R15\nA=M\n0;JEQ\n"));
}

fn run_plain(src: &[&str]) -> Machine {
    let mut m = Machine::new(&translate_one(src));
    m.ram[0] = 256;
    m.ram[1] = 300;
    m.ram[2] = 400;
    m.ram[3] = 3000;
    m.ram[4] = 3010;
    m.run(100_000);
    m
}

#[test]
fn add_seven_and_eight() {
    let m = run_plain(&["push constant 7", "push constant 8", "add"]);
    assert_eq!(m.ram[256], 15);
    assert_eq!(m.ram[0], 257);
}

#[test]
fn arithmetic_and_comparisons_wrap_and_compare_signed() {
    let pairs: [(i16, i16); 12] = [
        (0, 0),
        (5, 3),
        (3, 5),
        (-4, 9),
        (32767, 1),
        (-32768, 1),
        (32767, -1),
        (-1, 32767),
        (-32768, 32767),
        (32767, -32768),
        (-32768, -32768),
        (-7, -3),
    ];
    for (a, b) in pairs {
        let prep = |v: i16, out: &mut Vec<String>| {
            if v >= 0 {
                out.push(format!("push constant {}", v));
            } else if v == i16::MIN {
                out.push("push constant 32767".to_string());
                out.push("neg".to_string());
                out.push("push constant 1".to_string());
                out.push("sub".to_string());
            } else {
                out.push(format!("push constant {}", -v));
                out.push("neg".to_string());
            }
        };
        for (op, expect) in [
            ("add", a.wrapping_add(b)),
            ("sub", a.wrapping_sub(b)),
            ("eq", if a == b { -1 } else { 0 }),
            ("gt", if a > b { -1 } else { 0 }),
            ("lt", if a < b { -1 } else { 0 }),
            ("and", a & b),
            ("or", a | b),
        ] {
            let mut src = Vec::new();
            prep(a, &mut src);
            prep(b, &mut src);
            src.push(op.to_string());
            let refs: Vec<&str> = src.iter().map(|s| s.as_str()).collect();
            let m = run_plain(&refs);
            assert_eq!(m.ram[256], expect, "{} {} {}", a, op, b);
            assert_eq!(m.ram[0], 257);
        }
    }
}

#[test]
fn push_then_pop_leaves_cell_and_pointer() {
    for (seg, cell) in [("local", 302usize), ("argument", 402), ("this", 3002), ("that", 3012), ("temp", 7), ("pointer", 3), ("static", 16)] {
        let index = if seg == "pointer" { 0 } else { 2 };
        let src = [format!("push {} {}", seg, index), format!("pop {} {}", seg, index)];
        let refs: Vec<&str> = src.iter().map(|s| s.as_str()).collect();
        let mut m = Machine::new(&translate_one(&refs));
        m.ram[0] = 256;
        m.ram[1] = 300;
        m.ram[2] = 400;
        m.ram[3] = 3000;
        m.ram[4] = 3010;
        if cell != 3 {
            m.ram[cell] = 1234;
        }
        let before = m.ram[cell];
        m.run(10_000);
        assert_eq!(m.ram[cell], before, "{}", seg);
        assert_eq!(m.ram[0], 256, "{}", seg);
    }
}

#[test]
fn if_goto_takes_minus_one_as_true() {
    let m = run_plain(&[
        "push constant 0",
        "not",
        "if-goto YES",
        "push constant 1",
        "goto DONE",
        "label YES",
        "push constant 2",
        "label DONE",
    ]);
    assert_eq!(m.ram[256], 2);
    assert_eq!(m.ram[0], 257);
}

#[test]
fn call_multiply_restores_frame() {
    let sys = unit("Sys", &[
        "function Sys.init 0",
        "push constant 3000",
        "pop pointer 0",
        "push constant 4000",
        "pop pointer 1",
        "push constant 3",
        "push constant 4",
        "call mult 2",
        "label HALT",
        "goto HALT",
    ]);
    let mult = unit("Mult", &[
        "function mult 2",
        "push constant 0",
        "pop local 0",
        "push argument 1",
        "pop local 1",
        "label LOOP",
        "push local 1",
        "push constant 0",
        "eq",
        "if-goto END",
        "push local 0",
        "push argument 0",
        "add",
        "pop local 0",
        "push local 1",
        "push constant 1",
        "sub",
        "pop local 1",
        "goto LOOP",
        "label END",
        "push local 0",
        "return",
    ]);
    let source = translate_program(&vec![sys, mult], true).unwrap();
    let mut m = Machine::new(&source);
    m.run(5_000);
    // Sys.init's frame: called from the bootstrap with SP 256, so LCL is 261.
    assert_eq!(m.ram[261], 12);
    assert_eq!(m.ram[0], 262);
    assert_eq!(m.ram[1], 261);
    assert_eq!(m.ram[2], 256);
    assert_eq!(m.ram[3], 3000);
    assert_eq!(m.ram[4], 4000);
}

//! The commands of the VM language and the parser of one source line.
use vstd::prelude::*;

use crate::text::{contains_char, is_numeral, numeral_value, split_once, split_once_exec, str_eq, parse_numeral};

verus! {

/// A named memory region of the VM, each with its own addressing mode.
#[derive(Debug, Clone, Copy, PartialEq, Eq, Structural)]
pub enum Segment {
    Local,
    Argument,
    This,
    That,
    Constant,
    Static,
    Pointer,
    Temp,
}

/// A stack command: push a segment cell onto the stack, or pop into one.
#[derive(Debug, Clone, Copy, PartialEq, Eq, Structural)]
pub enum StackOp {
    Push(Segment, u32),
    Pop(Segment, u32),
}

/// A command that combines the two top stack values.
#[derive(Debug, Clone, Copy, PartialEq, Eq, Structural)]
pub enum BinOp {
    Add,
    Sub,
    Eq,
    Gt,
    Lt,
    And,
    Or,
}

/// A command that transforms the top stack value.
#[derive(Debug, Clone, Copy, PartialEq, Eq, Structural)]
pub enum UnOp {
    Neg,
    Not,
}

/// Why a source line could not be translated.
#[derive(Debug, Clone, Copy, PartialEq, Eq, Structural)]
pub enum ErrorKind {
    /// An unknown keyword, or a wrong number of operands.
    MalformedCommand,
    /// A segment name outside the eight known ones.
    InvalidSegment,
    /// An index or count that is not a non-negative integer in range, or a
    /// `pointer` index other than 0 or 1.
    InvalidOperand,
    /// `pop constant`.
    UnsupportedOperation,
}

/// One parsed VM command.
#[derive(Debug)]
pub enum VMCommand {
    Stack(StackOp),
    BinaryArithmeticLogical(BinOp),
    UnaryArithmeticLogical(UnOp),
    Label(String),
    GoTo(String),
    IfGoTo(String),
    Call(String, u64),
    Function(String, u64),
    Return,
}

/// The mathematical value of a `VMCommand`: names as character sequences.
pub enum Command {
    Stack(StackOp),
    BinaryArithmeticLogical(BinOp),
    UnaryArithmeticLogical(UnOp),
    Label(Seq<char>),
    GoTo(Seq<char>),
    IfGoTo(Seq<char>),
    Call(Seq<char>, u64),
    Function(Seq<char>, u64),
    Return,
}

impl View for VMCommand {
    type V = Command;

    open spec fn view(&self) -> Command {
        match self {
            VMCommand::Stack(op) => Command::Stack(*op),
            VMCommand::BinaryArithmeticLogical(op) => Command::BinaryArithmeticLogical(*op),
            VMCommand::UnaryArithmeticLogical(op) => Command::UnaryArithmeticLogical(*op),
            VMCommand::Label(l) => Command::Label(l@),
            VMCommand::GoTo(l) => Command::GoTo(l@),
            VMCommand::IfGoTo(l) => Command::IfGoTo(l@),
            VMCommand::Call(f, n) => Command::Call(f@, *n),
            VMCommand::Function(f, n) => Command::Function(f@, *n),
            VMCommand::Return => Command::Return,
        }
    }
}

/// The segment that a segment token names.
pub open spec fn segment_named(s: Seq<char>) -> Option<Segment> {
    if s == "local"@ {
        Some(Segment::Local)
    } else if s == "argument"@ {
        Some(Segment::Argument)
    } else if s == "this"@ {
        Some(Segment::This)
    } else if s == "that"@ {
        Some(Segment::That)
    } else if s == "constant"@ {
        Some(Segment::Constant)
    } else if s == "static"@ {
        Some(Segment::Static)
    } else if s == "pointer"@ {
        Some(Segment::Pointer)
    } else if s == "temp"@ {
        Some(Segment::Temp)
    } else {
        None
    }
}

/// A count or index operand: a numeral of at most `max`.
pub open spec fn operand(s: Seq<char>, max: nat) -> Result<nat, ErrorKind> {
    if contains_char(s, ' ') {
        Err(ErrorKind::MalformedCommand)
    } else if is_numeral(s) && numeral_value(s) <= max {
        Ok(numeral_value(s))
    } else {
        Err(ErrorKind::InvalidOperand)
    }
}

/// A `push` or `pop` line: keyword, segment and index, separated by spaces.
pub open spec fn parse_stack(s: Seq<char>) -> Result<StackOp, ErrorKind> {
    match split_once(s, ' ') {
        None => Err(ErrorKind::MalformedCommand),
        Some((kw, args)) => if kw != "push"@ && kw != "pop"@ {
            Err(ErrorKind::MalformedCommand)
        } else {
            match split_once(args, ' ') {
                None => Err(ErrorKind::MalformedCommand),
                Some((seg, idx)) => match segment_named(seg) {
                    None => Err(ErrorKind::InvalidSegment),
                    Some(g) => match operand(idx, u32::MAX as nat) {
                        Err(e) => Err(e),
                        Ok(i) => if kw == "push"@ {
                            Ok(StackOp::Push(g, i as u32))
                        } else {
                            Ok(StackOp::Pop(g, i as u32))
                        },
                    },
                },
            }
        },
    }
}

/// The operand of `label`, `goto` and `if-goto`: one non-empty name.
pub open spec fn label_operand(args: Seq<char>) -> Result<Seq<char>, ErrorKind> {
    if args.len() == 0 || contains_char(args, ' ') {
        Err(ErrorKind::MalformedCommand)
    } else {
        Ok(args)
    }
}

/// The operands of `call` and `function`: a non-empty name and a count.
pub open spec fn named_count(args: Seq<char>) -> Result<(Seq<char>, u64), ErrorKind> {
    match split_once(args, ' ') {
        None => Err(ErrorKind::MalformedCommand),
        Some((name, n)) => if name.len() == 0 {
            Err(ErrorKind::MalformedCommand)
        } else {
            match operand(n, u64::MAX as nat) {
                Err(e) => Err(e),
                Ok(v) => Ok((name, v as u64)),
            }
        },
    }
}

/// The command that a trimmed, comment-free source line denotes.
pub open spec fn parse_command(s: Seq<char>) -> Result<Command, ErrorKind> {
    if s == "return"@ {
        Ok(Command::Return)
    } else if s == "add"@ {
        Ok(Command::BinaryArithmeticLogical(BinOp::Add))
    } else if s == "sub"@ {
        Ok(Command::BinaryArithmeticLogical(BinOp::Sub))
    } else if s == "eq"@ {
        Ok(Command::BinaryArithmeticLogical(BinOp::Eq))
    } else if s == "gt"@ {
        Ok(Command::BinaryArithmeticLogical(BinOp::Gt))
    } else if s == "lt"@ {
        Ok(Command::BinaryArithmeticLogical(BinOp::Lt))
    } else if s == "and"@ {
        Ok(Command::BinaryArithmeticLogical(BinOp::And))
    } else if s == "or"@ {
        Ok(Command::BinaryArithmeticLogical(BinOp::Or))
    } else if s == "neg"@ {
        Ok(Command::UnaryArithmeticLogical(UnOp::Neg))
    } else if s == "not"@ {
        Ok(Command::UnaryArithmeticLogical(UnOp::Not))
    } else {
        match split_once(s, ' ') {
            None => Err(ErrorKind::MalformedCommand),
            Some((kw, args)) => if kw == "push"@ || kw == "pop"@ {
                match parse_stack(s) {
                    Ok(op) => Ok(Command::Stack(op)),
                    Err(e) => Err(e),
                }
            } else if kw == "label"@ || kw == "goto"@ || kw == "if-goto"@ {
                match label_operand(args) {
                    Err(e) => Err(e),
                    Ok(l) => if kw == "label"@ {
                        Ok(Command::Label(l))
                    } else if kw == "goto"@ {
                        Ok(Command::GoTo(l))
                    } else {
                        Ok(Command::IfGoTo(l))
                    },
                }
            } else if kw == "call"@ || kw == "function"@ {
                match named_count(args) {
                    Err(e) => Err(e),
                    Ok((f, n)) => if kw == "call"@ {
                        Ok(Command::Call(f, n))
                    } else {
                        Ok(Command::Function(f, n))
                    },
                }
            } else {
                Err(ErrorKind::MalformedCommand)
            },
        }
    }
}

pub open spec fn parsed_as(r: Result<VMCommand, ErrorKind>, s: Seq<char>) -> bool {
    match r {
        Ok(c) => parse_command(s) == Ok::<Command, ErrorKind>(c@),
        Err(e) => parse_command(s) == Err::<Command, ErrorKind>(e),
    }
}

fn segment_from_str(s: &str) -> (r: Option<Segment>)
    ensures
        r == segment_named(s@),
{
    if str_eq(s, "local") {
        Some(Segment::Local)
    } else if str_eq(s, "argument") {
        Some(Segment::Argument)
    } else if str_eq(s, "this") {
        Some(Segment::This)
    } else if str_eq(s, "that") {
        Some(Segment::That)
    } else if str_eq(s, "constant") {
        Some(Segment::Constant)
    } else if str_eq(s, "static") {
        Some(Segment::Static)
    } else if str_eq(s, "pointer") {
        Some(Segment::Pointer)
    } else if str_eq(s, "temp") {
        Some(Segment::Temp)
    } else {
        None
    }
}

fn operand_from_str(s: &str, max: u64) -> (r: Result<u64, ErrorKind>)
    ensures
        match r {
            Ok(v) => operand(s@, max as nat) == Ok::<nat, ErrorKind>(v as nat),
            Err(e) => operand(s@, max as nat) == Err::<nat, ErrorKind>(e),
        },
{
    if crate::text::find_char(s, ' ').is_some() {
        return Err(ErrorKind::MalformedCommand);
    }
    match parse_numeral(s, max) {
        Some(v) => Ok(v),
        None => Err(ErrorKind::InvalidOperand),
    }
}

impl StackOp {
    /// Parses a `push` or `pop` line.
    pub fn from_string(input: &str) -> (r: Result<StackOp, ErrorKind>)
        ensures
            r == parse_stack(input@),
    {
        let (kw, args) = match split_once_exec(input, ' ') {
            Some(p) => p,
            None => return Err(ErrorKind::MalformedCommand),
        };
        let push = str_eq(kw, "push");
        if !push && !str_eq(kw, "pop") {
            return Err(ErrorKind::MalformedCommand);
        }
        let (seg, idx) = match split_once_exec(args, ' ') {
            Some(p) => p,
            None => return Err(ErrorKind::MalformedCommand),
        };
        let g = match segment_from_str(seg) {
            Some(g) => g,
            None => return Err(ErrorKind::InvalidSegment),
        };
        let i = match operand_from_str(idx, u32::MAX as u64) {
            Ok(i) => i as u32,
            Err(e) => return Err(e),
        };
        if push {
            Ok(StackOp::Push(g, i))
        } else {
            Ok(StackOp::Pop(g, i))
        }
    }
}

impl VMCommand {
    /// Parses one trimmed, comment-free source line.
    pub fn from_string(input: &str) -> (r: Result<VMCommand, ErrorKind>)
        ensures
            parsed_as(r, input@),
    {
        if str_eq(input, "return") {
            return Ok(VMCommand::Return);
        } else if str_eq(input, "add") {
            return Ok(VMCommand::BinaryArithmeticLogical(BinOp::Add));
        } else if str_eq(input, "sub") {
            return Ok(VMCommand::BinaryArithmeticLogical(BinOp::Sub));
        } else if str_eq(input, "eq") {
            return Ok(VMCommand::BinaryArithmeticLogical(BinOp::Eq));
        } else if str_eq(input, "gt") {
            return Ok(VMCommand::BinaryArithmeticLogical(BinOp::Gt));
        } else if str_eq(input, "lt") {
            return Ok(VMCommand::BinaryArithmeticLogical(BinOp::Lt));
        } else if str_eq(input, "and") {
            return Ok(VMCommand::BinaryArithmeticLogical(BinOp::And));
        } else if str_eq(input, "or") {
            return Ok(VMCommand::BinaryArithmeticLogical(BinOp::Or));
        } else if str_eq(input, "neg") {
            return Ok(VMCommand::UnaryArithmeticLogical(UnOp::Neg));
        } else if str_eq(input, "not") {
            return Ok(VMCommand::UnaryArithmeticLogical(UnOp::Not));
        }
        let (kw, args) = match split_once_exec(input, ' ') {
            Some(p) => p,
            None => return Err(ErrorKind::MalformedCommand),
        };
        if str_eq(kw, "push") || str_eq(kw, "pop") {
            match StackOp::from_string(input) {
                Ok(op) => Ok(VMCommand::Stack(op)),
                Err(e) => Err(e),
            }
        } else if str_eq(kw, "label") || str_eq(kw, "goto") || str_eq(kw, "if-goto") {
            if args.unicode_len() == 0 || crate::text::find_char(args, ' ').is_some() {
                return Err(ErrorKind::MalformedCommand);
            }
            let l = String::from_str(args);
            if str_eq(kw, "label") {
                Ok(VMCommand::Label(l))
            } else if str_eq(kw, "goto") {
                Ok(VMCommand::GoTo(l))
            } else {
                Ok(VMCommand::IfGoTo(l))
            }
        } else if str_eq(kw, "call") || str_eq(kw, "function") {
            let (name, n) = match split_once_exec(args, ' ') {
                Some(p) => p,
                None => return Err(ErrorKind::MalformedCommand),
            };
            if name.unicode_len() == 0 {
                return Err(ErrorKind::MalformedCommand);
            }
            let n = match operand_from_str(n, u64::MAX) {
                Ok(v) => v,
                Err(e) => return Err(e),
            };
            let f = String::from_str(name);
            if str_eq(kw, "call") {
                Ok(VMCommand::Call(f, n))
            } else {
                Ok(VMCommand::Function(f, n))
            }
        } else {
            Err(ErrorKind::MalformedCommand)
        }
    }
}

} // verus!

//! Symbolic Hack assembly: parsing of one line into an instruction, and the
//! 16-bit binary encoding of resolved instructions.
use vstd::prelude::*;

use crate::text::{contains_char, find_char, is_numeral, numeral_value, parse_numeral, split_once, split_once_exec, str_eq};

verus! {

/// Which of A, D and M a C-instruction stores its result in.
#[derive(Debug, Clone, Copy, PartialEq, Eq)]
pub struct Dest {
    pub a: bool,
    pub d: bool,
    pub m: bool,
}

/// On which signs of the result a C-instruction jumps.
#[derive(Debug, Clone, Copy, PartialEq, Eq)]
pub struct Jump {
    pub lt: bool,
    pub eq: bool,
    pub gt: bool,
}

/// The computation of a C-instruction, as written (`D+1`, `M`, `D|A`).
#[derive(Debug, PartialEq)]
pub struct Comp(pub String);

/// The operand of an A-instruction: a number, or a symbol to resolve.
#[derive(Debug, PartialEq)]
pub enum Value {
    Literal(usize),
    Variable(String),
}

/// One Hack instruction.
#[derive(Debug, PartialEq)]
pub enum Instr {
    A(Value),
    C(Dest, Comp, Jump),
}

/// One line of a Hack program: a label declaration or an instruction.
#[derive(Debug, PartialEq)]
pub enum Program {
    Label(String),
    Instr(Instr),
}

pub enum ValueV {
    Literal(usize),
    Variable(Seq<char>),
}

pub enum InstrV {
    A(ValueV),
    C(Dest, Seq<char>, Jump),
}

pub enum ProgramV {
    Label(Seq<char>),
    Instr(InstrV),
}

impl View for Value {
    type V = ValueV;

    open spec fn view(&self) -> ValueV {
        match self {
            Value::Literal(n) => ValueV::Literal(*n),
            Value::Variable(s) => ValueV::Variable(s@),
        }
    }
}

impl View for Instr {
    type V = InstrV;

    open spec fn view(&self) -> InstrV {
        match self {
            Instr::A(v) => InstrV::A(v@),
            Instr::C(d, c, j) => InstrV::C(*d, c.0@, *j),
        }
    }
}

impl View for Program {
    type V = ProgramV;

    open spec fn view(&self) -> ProgramV {
        match self {
            Program::Label(l) => ProgramV::Label(l@),
            Program::Instr(i) => ProgramV::Instr(i@),
        }
    }
}

pub open spec fn no_dest() -> Dest {
    Dest { a: false, d: false, m: false }
}

pub open spec fn no_jump() -> Jump {
    Jump { lt: false, eq: false, gt: false }
}

/// The destinations that a destination field names.
pub open spec fn parse_dest(s: Seq<char>) -> Dest {
    Dest { a: contains_char(s, 'A'), d: contains_char(s, 'D'), m: contains_char(s, 'M') }
}

/// The jump that a jump mnemonic names.
pub open spec fn parse_jump(s: Seq<char>) -> Option<Jump> {
    if s == "JGT"@ {
        Some(Jump { lt: false, eq: false, gt: true })
    } else if s == "JEQ"@ {
        Some(Jump { lt: false, eq: true, gt: false })
    } else if s == "JGE"@ {
        Some(Jump { lt: false, eq: true, gt: true })
    } else if s == "JLT"@ {
        Some(Jump { lt: true, eq: false, gt: false })
    } else if s == "JNE"@ {
        Some(Jump { lt: true, eq: false, gt: true })
    } else if s == "JLE"@ {
        Some(Jump { lt: true, eq: true, gt: false })
    } else if s == "JMP"@ {
        Some(Jump { lt: true, eq: true, gt: true })
    } else {
        None
    }
}

/// The digits of an unsigned number written with an optional leading `+`.
pub open spec fn unsigned_digits(s: Seq<char>) -> Seq<char> {
    if s.len() > 0 && s[0] == '+' {
        s.skip(1)
    } else {
        s
    }
}

/// An A-instruction operand: a numeral, with an optional leading `+`, that
/// fits a `usize`; else a symbol.
pub open spec fn parse_value(s: Seq<char>) -> ValueV {
    let d = unsigned_digits(s);
    if is_numeral(d) && numeral_value(d) <= usize::MAX {
        ValueV::Literal(numeral_value(d) as usize)
    } else {
        ValueV::Variable(s)
    }
}

/// The instruction that a non-empty line denotes: `@value`, or
/// `[dest=]comp[;jump]`; `None` where the jump mnemonic is unknown.
pub open spec fn parse_instr(s: Seq<char>) -> Option<InstrV> {
    if s.len() == 0 {
        None
    } else if s[0] == '@' {
        Some(InstrV::A(parse_value(s.skip(1))))
    } else {
        let (dest, rest) = match split_once(s, '=') {
            Some((d, r)) => (parse_dest(d), r),
            None => (no_dest(), s),
        };
        match split_once(rest, ';') {
            Some((c, j)) => match parse_jump(j) {
                Some(jump) => Some(InstrV::C(dest, c, jump)),
                None => None,
            },
            None => Some(InstrV::C(dest, rest, no_jump())),
        }
    }
}

/// The line of a program that `s` denotes: `(label)` or an instruction.
pub open spec fn parse_line(s: Seq<char>) -> Option<ProgramV> {
    if s.len() >= 2 && s[0] == '(' {
        Some(ProgramV::Label(s.subrange(1, s.len() - 1)))
    } else if s.len() > 0 && s[0] != '(' {
        match parse_instr(s) {
            Some(i) => Some(ProgramV::Instr(i)),
            None => None,
        }
    } else {
        None
    }
}

pub open spec fn bit(b: bool) -> char {
    if b { '1' } else { '0' }
}

/// The low `w` bits of `n`, most significant first.
pub open spec fn bits(n: nat, w: nat) -> Seq<char>
    decreases w,
{
    if w == 0 {
        Seq::empty()
    } else {
        bits(n / 2, (w - 1) as nat).push(bit(n % 2 == 1))
    }
}

/// The seven bits (`a` and `c1`..`c6`) of a computation, where it is one of
/// the machine's.
pub open spec fn comp_bits(c: Seq<char>) -> Option<Seq<char>> {
    if c == "0"@ { Some("0101010"@) }
    else if c == "1"@ { Some("0111111"@) }
    else if c == "-1"@ { Some("0111010"@) }
    else if c == "D"@ { Some("0001100"@) }
    else if c == "A"@ { Some("0110000"@) }
    else if c == "!D"@ { Some("0001101"@) }
    else if c == "!A"@ { Some("0110001"@) }
    else if c == "-D"@ { Some("0001111"@) }
    else if c == "-A"@ { Some("0110011"@) }
    else if c == "D+1"@ { Some("0011111"@) }
    else if c == "A+1"@ { Some("0110111"@) }
    else if c == "D-1"@ { Some("0001110"@) }
    else if c == "A-1"@ { Some("0110010"@) }
    else if c == "D+A"@ { Some("0000010"@) }
    else if c == "D-A"@ { Some("0010011"@) }
    else if c == "A-D"@ { Some("0000111"@) }
    else if c == "D&A"@ { Some("0000000"@) }
    else if c == "D|A"@ { Some("0010101"@) }
    else if c == "M"@ { Some("1110000"@) }
    else if c == "!M"@ { Some("1110001"@) }
    else if c == "-M"@ { Some("1110011"@) }
    else if c == "M+1"@ { Some("1110111"@) }
    else if c == "M-1"@ { Some("1110010"@) }
    else if c == "D+M"@ { Some("1000010"@) }
    else if c == "D-M"@ { Some("1010011"@) }
    else if c == "M-D"@ { Some("1000111"@) }
    else if c == "D&M"@ { Some("1000000"@) }
    else if c == "D|M"@ { Some("1010101"@) }
    else { None }
}

pub open spec fn dest_bits(d: Dest) -> Seq<char> {
    seq![bit(d.a), bit(d.d), bit(d.m)]
}

pub open spec fn jump_bits(j: Jump) -> Seq<char> {
    seq![bit(j.lt), bit(j.eq), bit(j.gt)]
}

/// An instruction that has a binary word: a literal below 2^16, or a known
/// computation.
pub open spec fn encodable(i: InstrV) -> bool {
    match i {
        InstrV::A(ValueV::Literal(n)) => n < 0x10000,
        InstrV::A(ValueV::Variable(_)) => false,
        InstrV::C(d, c, j) => comp_bits(c) is Some,
    }
}

/// The 16-bit word of an encodable instruction.
pub open spec fn word(i: InstrV) -> Seq<char> {
    match i {
        InstrV::A(ValueV::Literal(n)) => bits(n as nat, 16),
        InstrV::A(ValueV::Variable(_)) => Seq::empty(),
        InstrV::C(d, c, j) => "111"@ + comp_bits(c)->Some_0 + dest_bits(d) + jump_bits(j),
    }
}

fn append_bit(out: &mut String, b: bool)
    ensures
        final(out)@ == old(out)@.push(bit(b)),
{
    proof {
        reveal_strlit("0");
        reveal_strlit("1");
    }
    if b {
        out.append("1");
    } else {
        out.append("0");
    }
    assert(out@ =~= old(out)@.push(bit(b)));
}

fn append_bits(out: &mut String, n: usize, w: usize)
    ensures
        final(out)@ == old(out)@ + bits(n as nat, w as nat),
    decreases w,
{
    if w > 0 {
        append_bits(out, n / 2, w - 1);
        append_bit(out, n % 2 == 1);
    }
    assert(out@ =~= old(out)@ + bits(n as nat, w as nat));
}

impl Dest {
    /// No destination.
    pub fn new() -> (r: Dest)
        ensures
            r == no_dest(),
    {
        Dest { a: false, d: false, m: false }
    }

    /// The destinations that the field `input` names.
    pub fn from_string(input: &str) -> (r: Dest)
        ensures
            r == parse_dest(input@),
    {
        Dest {
            a: find_char(input, 'A').is_some(),
            d: find_char(input, 'D').is_some(),
            m: find_char(input, 'M').is_some(),
        }
    }

    /// The three destination bits.
    pub fn to_binary(&self) -> (r: String)
        ensures
            r@ == dest_bits(*self),
    {
        let mut s = String::new();
        append_bit(&mut s, self.a);
        append_bit(&mut s, self.d);
        append_bit(&mut s, self.m);
        assert(s@ =~= dest_bits(*self));
        s
    }
}

impl Jump {
    /// No jump.
    pub fn new() -> (r: Jump)
        ensures
            r == no_jump(),
    {
        Jump { lt: false, eq: false, gt: false }
    }

    /// The jump named by `input`, if it is one of the seven mnemonics.
    pub fn parse(input: &str) -> (r: Option<Jump>)
        ensures
            r == parse_jump(input@),
    {
        if str_eq(input, "JGT") {
            Some(Jump { lt: false, eq: false, gt: true })
        } else if str_eq(input, "JEQ") {
            Some(Jump { lt: false, eq: true, gt: false })
        } else if str_eq(input, "JGE") {
            Some(Jump { lt: false, eq: true, gt: true })
        } else if str_eq(input, "JLT") {
            Some(Jump { lt: true, eq: false, gt: false })
        } else if str_eq(input, "JNE") {
            Some(Jump { lt: true, eq: false, gt: true })
        } else if str_eq(input, "JLE") {
            Some(Jump { lt: true, eq: true, gt: false })
        } else if str_eq(input, "JMP") {
            Some(Jump { lt: true, eq: true, gt: true })
        } else {
            None
        }
    }

    /// The jump named by a known mnemonic.
    pub fn from_string(input: &str) -> (r: Jump)
        requires
            parse_jump(input@) is Some,
        ensures
            parse_jump(input@) == Some(r),
    {
        match Jump::parse(input) {
            Some(j) => j,
            None => Jump::new(),
        }
    }

    /// The three jump bits.
    pub fn to_binary(&self) -> (r: String)
        ensures
            r@ == jump_bits(*self),
    {
        let mut s = String::new();
        append_bit(&mut s, self.lt);
        append_bit(&mut s, self.eq);
        append_bit(&mut s, self.gt);
        assert(s@ =~= jump_bits(*self));
        s
    }
}

impl Value {
    /// A literal where `input` is a numeral, with an optional leading `+`,
    /// that fits; else a symbol.
    pub fn from_string(input: &str) -> (r: Value)
        ensures
            r@ == parse_value(input@),
    {
        let n = input.unicode_len();
        let digits = if n > 0 && input.get_char(0) == '+' {
            input.substring_char(1, n)
        } else {
            input
        };
        match parse_numeral(digits, usize::MAX as u64) {
            Some(n) => Value::Literal(n as usize),
            None => Value::Variable(String::from_str(input)),
        }
    }

    /// The 16-bit word of a literal below 2^16.
    pub fn to_binary(&self) -> (r: String)
        requires
            encodable(InstrV::A(self@)),
        ensures
            r@ == word(InstrV::A(self@)),
    {
        let mut s = String::new();
        match self {
            Value::Literal(n) => append_bits(&mut s, *n, 16),
            Value::Variable(_) => {},
        }
        assert(s@ =~= word(InstrV::A(self@)));
        s
    }
}

/// The seven computation bits of `c`, where it is one of the machine's.
fn comp_code(c: &str) -> (r: Option<&'static str>)
    ensures
        match r {
            Some(b) => comp_bits(c@) == Some(b@),
            None => comp_bits(c@) is None,
        },
{
    if str_eq(c, "0") {
        Some("0101010")
    } else if str_eq(c, "1") {
        Some("0111111")
    } else if str_eq(c, "-1") {
        Some("0111010")
    } else if str_eq(c, "D") {
        Some("0001100")
    } else if str_eq(c, "A") {
        Some("0110000")
    } else if str_eq(c, "!D") {
        Some("0001101")
    } else if str_eq(c, "!A") {
        Some("0110001")
    } else if str_eq(c, "-D") {
        Some("0001111")
    } else if str_eq(c, "-A") {
        Some("0110011")
    } else if str_eq(c, "D+1") {
        Some("0011111")
    } else if str_eq(c, "A+1") {
        Some("0110111")
    } else if str_eq(c, "D-1") {
        Some("0001110")
    } else if str_eq(c, "A-1") {
        Some("0110010")
    } else if str_eq(c, "D+A") {
        Some("0000010")
    } else if str_eq(c, "D-A") {
        Some("0010011")
    } else if str_eq(c, "A-D") {
        Some("0000111")
    } else if str_eq(c, "D&A") {
        Some("0000000")
    } else if str_eq(c, "D|A") {
        Some("0010101")
    } else if str_eq(c, "M") {
        Some("1110000")
    } else if str_eq(c, "!M") {
        Some("1110001")
    } else if str_eq(c, "-M") {
        Some("1110011")
    } else if str_eq(c, "M+1") {
        Some("1110111")
    } else if str_eq(c, "M-1") {
        Some("1110010")
    } else if str_eq(c, "D+M") {
        Some("1000010")
    } else if str_eq(c, "D-M") {
        Some("1010011")
    } else if str_eq(c, "M-D") {
        Some("1000111")
    } else if str_eq(c, "D&M") {
        Some("1000000")
    } else if str_eq(c, "D|M") {
        Some("1010101")
    } else {
        None
    }
}

impl Instr {
    /// The instruction that a non-empty line denotes, unless its jump
    /// mnemonic is unknown.
    pub fn parse(input: &str) -> (r: Option<Instr>)
        ensures
            match r {
                Some(i) => parse_instr(input@) == Some(i@),
                None => parse_instr(input@) is None,
            },
    {
        let n = input.unicode_len();
        if n == 0 {
            return None;
        }
        if input.get_char(0) == '@' {
            return Some(Instr::A(Value::from_string(input.substring_char(1, n))));
        }
        let (dest, rest) = match split_once_exec(input, '=') {
            Some((d, r)) => (Dest::from_string(d), r),
            None => (Dest::new(), input),
        };
        match split_once_exec(rest, ';') {
            Some((c, j)) => match Jump::parse(j) {
                Some(jump) => Some(Instr::C(dest, Comp(String::from_str(c)), jump)),
                None => None,
            },
            None => Some(Instr::C(dest, Comp(String::from_str(rest)), Jump::new())),
        }
    }

    /// The instruction that a well-formed line denotes.
    pub fn from_string(input: &str) -> (r: Instr)
        requires
            parse_instr(input@) is Some,
        ensures
            parse_instr(input@) == Some(r@),
    {
        match Instr::parse(input) {
            Some(i) => i,
            None => Instr::C(Dest::new(), Comp(String::new()), Jump::new()),
        }
    }

    /// The 16-bit word of an encodable instruction, as `0`s and `1`s.
    pub fn to_binary(&self) -> (r: String)
        requires
            encodable(self@),
        ensures
            r@ == word(self@),
    {
        match self {
            Instr::A(v) => v.to_binary(),
            Instr::C(dest, comp, jump) => {
                let mut s = String::new();
                s.append("111");
                match comp_code(comp.0.as_str()) {
                    Some(b) => s.append(b),
                    None => {},
                }
                s.append(dest.to_binary().as_str());
                s.append(jump.to_binary().as_str());
                assert(s@ =~= word(self@));
                s
            },
        }
    }

    /// Whether the instruction has a binary word.
    pub fn is_encodable(&self) -> (r: bool)
        ensures
            r == encodable(self@),
    {
        match self {
            Instr::A(Value::Literal(n)) => *n < 0x10000,
            Instr::A(Value::Variable(_)) => false,
            Instr::C(_, comp, _) => comp_code(comp.0.as_str()).is_some(),
        }
    }
}

impl Program {
    /// The line of a program that `input` denotes, unless it is malformed.
    pub fn parse(input: &str) -> (r: Option<Program>)
        ensures
            match r {
                Some(p) => parse_line(input@) == Some(p@),
                None => parse_line(input@) is None,
            },
    {
        let n = input.unicode_len();
        if n >= 2 && input.get_char(0) == '(' {
            Some(Program::Label(String::from_str(input.substring_char(1, n - 1))))
        } else if n > 0 && input.get_char(0) != '(' {
            match Instr::parse(input) {
                Some(i) => Some(Program::Instr(i)),
                None => None,
            }
        } else {
            None
        }
    }

    /// The line of a program that a well-formed `input` denotes.
    pub fn from_string(input: &str) -> (r: Program)
        requires
            parse_line(input@) is Some,
        ensures
            parse_line(input@) == Some(r@),
    {
        match Program::parse(input) {
            Some(p) => p,
            None => Program::Label(String::new()),
        }
    }
}

} // verus!

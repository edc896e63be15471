//! Emission of symbolic Hack assembly for each VM command. Every emitter
//! returns text whose value is stated exactly by a spec function of this
//! module; each instruction stands on its own line, ending in a newline.
use vstd::prelude::*;

use crate::command::{BinOp, Command, ErrorKind, Segment, StackOp, UnOp, VMCommand};
use crate::text::{append_decimal, decimal};

verus! {

pub open spec fn inc_sp_code() -> Seq<char> {
    "@SP\nM=M+1\n"@
}

pub open spec fn dec_sp_code() -> Seq<char> {
    "@SP\nM=M-1\n"@
}

/// Stores D at the top of the stack and grows the stack by one word.
pub open spec fn push_d_code() -> Seq<char> {
    "@SP\nA=M\nM=D\n"@ + inc_sp_code()
}

/// Pushes the constant `n`.
pub open spec fn push_constant_code(n: nat) -> Seq<char> {
    "@"@ + decimal(n) + "\nD=A\n"@ + push_d_code()
}

/// Pushes the value of the register or variable named `v`.
pub open spec fn var_push_code(v: Seq<char>) -> Seq<char> {
    "@"@ + v + "\nD=M\n"@ + push_d_code()
}

/// Pushes the cell `index` words past the address held by base register `seg`.
pub open spec fn segment_push_code(seg: Seq<char>, index: nat) -> Seq<char> {
    "@"@ + decimal(index) + "\nD=A\n@"@ + seg + "\nA=M\nA=D+A\nD=M\n"@ + push_d_code()
}

/// Pops the top of the stack into the address held in D. The address is
/// saved in R13 before the stack pointer is read.
pub open spec fn pop_to_d_code() -> Seq<char> {
    "@R13\nM=D\n"@ + dec_sp_code() + "A=M\nD=M\n@R13\nA=M\nM=D\n"@
}

/// Pops the top of the stack into the register or variable named `v`.
pub open spec fn var_pop_code(v: Seq<char>) -> Seq<char> {
    "@"@ + v + "\nD=A\n"@ + pop_to_d_code()
}

/// Pops into the cell `index` words past the address held by base register `seg`.
pub open spec fn segment_pop_code(seg: Seq<char>, index: nat) -> Seq<char> {
    "@"@ + decimal(index) + "\nD=A\n@"@ + seg + "\nA=M\nA=D+A\nD=A\n"@ + pop_to_d_code()
}

/// The name of the variable that holds `static index` of the unit `unit`.
pub open spec fn static_name(unit: Seq<char>, index: nat) -> Seq<char> {
    unit + "."@ + decimal(index)
}

/// The base register of a segment addressed through a pointer.
pub open spec fn base_register(seg: Segment) -> Seq<char> {
    match seg {
        Segment::Local => "LCL"@,
        Segment::Argument => "ARG"@,
        Segment::This => "THIS"@,
        _ => "THAT"@,
    }
}

/// The register that `pointer index` names, for index 0 or 1.
pub open spec fn pointer_register(index: nat) -> Seq<char> {
    if index == 0 { "THIS"@ } else { "THAT"@ }
}

pub open spec fn is_based(seg: Segment) -> bool {
    seg == Segment::Local || seg == Segment::Argument || seg == Segment::This
        || seg == Segment::That
}

/// The name of the register or variable that a direct segment cell lives in.
pub open spec fn direct_name(seg: Segment, unit: Seq<char>, index: nat) -> Seq<char> {
    match seg {
        Segment::Static => static_name(unit, index),
        Segment::Pointer => pointer_register(index),
        _ => decimal(5 + index),
    }
}

/// The code of a stack command in the unit `unit`.
pub open spec fn stack_code(op: StackOp, unit: Seq<char>) -> Result<Seq<char>, ErrorKind> {
    match op {
        StackOp::Push(seg, i) => if is_based(seg) {
            Ok(segment_push_code(base_register(seg), i as nat))
        } else if seg == Segment::Constant {
            Ok(push_constant_code(i as nat))
        } else if seg == Segment::Pointer && i > 1 {
            Err(ErrorKind::InvalidOperand)
        } else {
            Ok(var_push_code(direct_name(seg, unit, i as nat)))
        },
        StackOp::Pop(seg, i) => if is_based(seg) {
            Ok(segment_pop_code(base_register(seg), i as nat))
        } else if seg == Segment::Constant {
            Err(ErrorKind::UnsupportedOperation)
        } else if seg == Segment::Pointer && i > 1 {
            Err(ErrorKind::InvalidOperand)
        } else {
            Ok(var_pop_code(direct_name(seg, unit, i as nat)))
        },
    }
}


/// A binary operation: pops the right operand into D, then applies `op`, a
/// C-instruction on M and D, to the left operand in place.
pub open spec fn arithmetic_code(op: Seq<char>) -> Seq<char> {
    dec_sp_code() + "@SP\nA=M\nD=M\n"@ + dec_sp_code() + "@SP\nA=M\n"@ + op + "\n"@
        + inc_sp_code()
}

pub open spec fn equal_label(i: nat) -> Seq<char> {
    "EQUAL"@ + decimal(i)
}

pub open spec fn end_label(i: nat) -> Seq<char> {
    "END"@ + decimal(i)
}

pub open spec fn is_comparison(op: BinOp) -> bool {
    op == BinOp::Eq || op == BinOp::Gt || op == BinOp::Lt
}

/// Where a comparison keeps its right operand: R14, but R13 for `gt`, which
/// asks whether the right operand is less than the left one.
pub open spec fn right_register(op: BinOp) -> Seq<char> {
    if op == BinOp::Gt { "R13"@ } else { "R14"@ }
}

/// Where a comparison keeps its left operand.
pub open spec fn left_register(op: BinOp) -> Seq<char> {
    if op == BinOp::Gt { "R14"@ } else { "R13"@ }
}

/// With p in R13 and q in R14, sets D to
/// `(p & !q) | (!(p ^ q) & (p - q))`, whose sign bit is set exactly when
/// p < q as signed words: where the signs of p and q differ the first term
/// gives the sign of p, and where they agree `p - q` cannot overflow. Exclusive
/// or is built from `&`, `|` and `!`; R15 holds `p - q` and the stack cell at
/// SP holds partial results.
pub open spec fn less_than_code() -> Seq<char> {
    "@R13\nD=M\n@R14\nD=D-M\n@R15\nM=D\n@R13\nD=M\n@R14\nD=D&M\nD=!D\n@SP\nA=M\nM=D\n@R13\nD=M\n@R14\nD=D|M\n@SP\nA=M\nD=D&M\nD=!D\n@R15\nD=D&M\n@SP\nA=M\nM=D\n@R14\nD=!M\n@R13\nD=D&M\n@SP\nA=M\nD=D|M\n"@
}

/// Sets D to a value that the comparison's jump tests: `p - q` for `eq`, the
/// less-than value for `gt` and `lt`.
pub open spec fn order_code(op: BinOp) -> Seq<char> {
    if op == BinOp::Eq { "@R13\nD=M\n@R14\nD=D-M\n"@ } else { less_than_code() }
}

pub open spec fn comparison_jump(op: BinOp) -> Seq<char> {
    if op == BinOp::Eq { "JEQ"@ } else { "JLT"@ }
}

/// The comparison numbered `i`: pops both operands into R13 and R14, and
/// pushes -1 where `op` holds of them as signed words, else 0. Its only
/// labels are `EQUAL{i}` and `END{i}`.
pub open spec fn comparison_code(op: BinOp, i: nat) -> Seq<char> {
    dec_sp_code() + "@SP\nA=M\nD=M\n@"@ + right_register(op) + "\nM=D\n"@ + dec_sp_code()
        + "@SP\nA=M\nD=M\n@"@ + left_register(op) + "\nM=D\n"@ + order_code(op) + "@"@ + equal_label(i)
        + "\nD;"@ + comparison_jump(op) + "\n@SP\nA=M\nM=0\n@"@ + end_label(i) + "\n0;JEQ\n("@
        + equal_label(i) + ")\n@SP\nA=M\nM=-1\n("@ + end_label(i) + ")\n"@ + inc_sp_code()
}

pub open spec fn binary_code(op: BinOp, i: nat) -> Seq<char> {
    match op {
        BinOp::Add => arithmetic_code("M=D+M"@),
        BinOp::Sub => arithmetic_code("M=M-D"@),
        BinOp::And => arithmetic_code("M=D&M"@),
        BinOp::Or => arithmetic_code("M=D|M"@),
        _ => comparison_code(op, i),
    }
}

pub open spec fn unary_code(op: UnOp) -> Seq<char> {
    dec_sp_code() + "@SP\nA=M\n"@ + match op {
        UnOp::Neg => "D=0\nM=D-M\n"@,
        UnOp::Not => "M=!M\n"@,
    } + inc_sp_code()
}

/// The declaration of label `l`, a block of one line without its line end.
pub open spec fn label_code(l: Seq<char>) -> Seq<char> {
    "("@ + l + ")"@
}

/// An unconditional jump, written as a jump on a condition that always holds.
pub open spec fn goto_code(l: Seq<char>) -> Seq<char> {
    "@"@ + l + "\n0;JEQ\n"@
}

/// Pops the top of the stack and jumps to `l` where it is not zero.
pub open spec fn if_goto_code(l: Seq<char>) -> Seq<char> {
    dec_sp_code() + "@SP\nA=M\nD=M\n@"@ + l + "\nD;JNE\n"@
}

/// The label that the call site numbered `i` into `f` returns to.
pub open spec fn return_label(f: Seq<char>, i: nat) -> Seq<char> {
    f + "return"@ + decimal(i)
}

/// Saves the caller's frame, points ARG at the `n` arguments, sets LCL to the
/// stack pointer, jumps to `f` and declares the return label.
pub open spec fn call_code(f: Seq<char>, n: nat, i: nat) -> Seq<char> {
    "@"@ + return_label(f, i) + "\nD=A\n"@ + push_d_code() + var_push_code("LCL"@)
        + var_push_code("ARG"@) + var_push_code("THIS"@) + var_push_code("THAT"@)
        + "@SP\nD=M\n@5\nD=D-A\n@"@ + decimal(n) + "\nD=D-A\n@ARG\nM=D\n@SP\nD=M\n@LCL\nM=D\n@"@
        + f + "\n0;JEQ\n("@ + return_label(f, i) + ")\n"@
}

/// `n` copies of `s`, one after another.
pub open spec fn repeat(s: Seq<char>, n: nat) -> Seq<char>
    decreases n,
{
    if n == 0 {
        Seq::empty()
    } else {
        repeat(s, (n - 1) as nat) + s
    }
}

/// Declares the entry label of `f` and pushes `n` zeros for its locals.
pub open spec fn function_code(f: Seq<char>, n: nat) -> Seq<char> {
    "("@ + f + ")\n"@ + repeat(push_constant_code(0), n)
}

/// Steps the saved frame end in R14 down one word and restores `r` from there.
pub open spec fn restore_code(r: Seq<char>) -> Seq<char> {
    "@R14\nAM=M-1\nD=M\n@"@ + r + "\nM=D\n"@
}

/// Keeps the frame end in R14 and the return address in R15, hands the
/// return value to the caller, and restores THAT, THIS, ARG and LCL in turn.
pub open spec fn return_code() -> Seq<char> {
    "@LCL\nD=M\n@R14\nM=D\n@5\nA=D-A\nD=M\n@R15\nM=D\n"@ + dec_sp_code()
        + "A=M\nD=M\n@ARG\nA=M\nM=D\n@ARG\nD=M\n@SP\nM=D+1\n"@ + restore_code("THAT"@)
        + restore_code("THIS"@) + restore_code("ARG"@) + restore_code("LCL"@)
        + "@R15\nA=M\n0;JEQ\n"@
}

/// Sets the stack pointer to 256 and calls `Sys.init` from call site 0.
pub open spec fn bootstrap_code() -> Seq<char> {
    "@256\nD=A\n@SP\nM=D\n"@ + call_code("Sys.init"@, 0, 0)
}

/// The code of command `c` of unit `unit`, numbered `i` among the program's
/// commands.
pub open spec fn command_code(c: Command, unit: Seq<char>, i: nat) -> Result<Seq<char>, ErrorKind> {
    match c {
        Command::Stack(op) => stack_code(op, unit),
        Command::BinaryArithmeticLogical(op) => Ok(binary_code(op, i)),
        Command::UnaryArithmeticLogical(op) => Ok(unary_code(op)),
        Command::Label(l) => Ok(label_code(l)),
        Command::GoTo(l) => Ok(goto_code(l)),
        Command::IfGoTo(l) => Ok(if_goto_code(l)),
        Command::Call(f, n) => Ok(call_code(f, n as nat, i)),
        Command::Function(f, n) => Ok(function_code(f, n as nat)),
        Command::Return => Ok(return_code()),
    }
}

pub open spec fn translated_as(r: Result<String, ErrorKind>, expected: Result<Seq<char>, ErrorKind>) -> bool {
    match r {
        Ok(t) => expected == Ok::<Seq<char>, ErrorKind>(t@),
        Err(e) => expected == Err::<Seq<char>, ErrorKind>(e),
    }
}

impl StackOp {
    /// Pushes the constant `n`.
    pub fn push_constant(n: u64) -> (r: String)
        ensures
            r@ == push_constant_code(n as nat),
    {
        let mut s = String::new();
        s.append("@");
        append_decimal(&mut s, n);
        s.append("\nD=A\n");
        s.append(StackOp::push_d().as_str());
        assert(s@ =~= push_constant_code(n as nat));
        s
    }

    /// Pushes the value held in D.
    pub fn push_d() -> (r: String)
        ensures
            r@ == push_d_code(),
    {
        let mut s = String::new();
        s.append("@SP\nA=M\nM=D\n");
        s.append("@SP\nM=M+1\n");
        assert(s@ =~= push_d_code());
        s
    }

    /// Pushes the value of the register or variable `variable`.
    pub fn var_push(variable: &str) -> (r: String)
        ensures
            r@ == var_push_code(variable@),
    {
        let mut s = String::new();
        s.append("@");
        s.append(variable);
        s.append("\nD=M\n");
        s.append(StackOp::push_d().as_str());
        assert(s@ =~= var_push_code(variable@));
        s
    }

    /// Pushes the cell `index` of the segment whose base register is `segment`.
    pub fn segment_push(segment: &str, index: u32) -> (r: String)
        ensures
            r@ == segment_push_code(segment@, index as nat),
    {
        let mut s = String::new();
        s.append("@");
        append_decimal(&mut s, index as u64);
        s.append("\nD=A\n@");
        s.append(segment);
        s.append("\nA=M\nA=D+A\nD=M\n");
        s.append(StackOp::push_d().as_str());
        assert(s@ =~= segment_push_code(segment@, index as nat));
        s
    }

    /// Pops the top of the stack into the address held in D.
    pub fn pop_to_d() -> (r: String)
        ensures
            r@ == pop_to_d_code(),
    {
        let mut s = String::new();
        s.append("@R13\nM=D\n");
        s.append("@SP\nM=M-1\n");
        s.append("A=M\nD=M\n@R13\nA=M\nM=D\n");
        assert(s@ =~= pop_to_d_code());
        s
    }

    /// Pops the top of the stack into the register or variable `variable`.
    pub fn var_pop(variable: &str) -> (r: String)
        ensures
            r@ == var_pop_code(variable@),
    {
        let mut s = String::new();
        s.append("@");
        s.append(variable);
        s.append("\nD=A\n");
        s.append(StackOp::pop_to_d().as_str());
        assert(s@ =~= var_pop_code(variable@));
        s
    }

    /// Pops into the cell `index` of the segment whose base register is `segment`.
    pub fn segment_pop(segment: &str, index: u32) -> (r: String)
        ensures
            r@ == segment_pop_code(segment@, index as nat),
    {
        let mut s = String::new();
        s.append("@");
        append_decimal(&mut s, index as u64);
        s.append("\nD=A\n@");
        s.append(segment);
        s.append("\nA=M\nA=D+A\nD=A\n");
        s.append(StackOp::pop_to_d().as_str());
        assert(s@ =~= segment_pop_code(segment@, index as nat));
        s
    }
    /// The code of this command; `filename` names the unit it belongs to.
    pub fn translate(&self, filename: &str) -> (r: Result<String, ErrorKind>)
        ensures
            match r {
                Ok(t) => stack_code(*self, filename@) == Ok::<Seq<char>, ErrorKind>(t@),
                Err(e) => stack_code(*self, filename@) == Err::<Seq<char>, ErrorKind>(e),
            },
    {
        match *self {
            StackOp::Push(seg, i) => match seg {
                Segment::Local => Ok(StackOp::segment_push("LCL", i)),
                Segment::Argument => Ok(StackOp::segment_push("ARG", i)),
                Segment::This => Ok(StackOp::segment_push("THIS", i)),
                Segment::That => Ok(StackOp::segment_push("THAT", i)),
                Segment::Constant => Ok(StackOp::push_constant(i as u64)),
                Segment::Static => Ok(StackOp::var_push(static_variable(filename, i).as_str())),
                Segment::Pointer => if i > 1 {
                    Err(ErrorKind::InvalidOperand)
                } else {
                    Ok(StackOp::var_push(if i == 0 { "THIS" } else { "THAT" }))
                },
                Segment::Temp => Ok(StackOp::var_push(temp_address(i).as_str())),
            },
            StackOp::Pop(seg, i) => match seg {
                Segment::Local => Ok(StackOp::segment_pop("LCL", i)),
                Segment::Argument => Ok(StackOp::segment_pop("ARG", i)),
                Segment::This => Ok(StackOp::segment_pop("THIS", i)),
                Segment::That => Ok(StackOp::segment_pop("THAT", i)),
                Segment::Constant => Err(ErrorKind::UnsupportedOperation),
                Segment::Static => Ok(StackOp::var_pop(static_variable(filename, i).as_str())),
                Segment::Pointer => if i > 1 {
                    Err(ErrorKind::InvalidOperand)
                } else {
                    Ok(StackOp::var_pop(if i == 0 { "THIS" } else { "THAT" }))
                },
                Segment::Temp => Ok(StackOp::var_pop(temp_address(i).as_str())),
            },
        }
    }
}

/// The variable that holds `static index` of the unit `unit`.
pub fn static_variable(unit: &str, index: u32) -> (r: String)
    ensures
        r@ == static_name(unit@, index as nat),
{
    let mut s = String::from_str(unit);
    s.append(".");
    append_decimal(&mut s, index as u64);
    s
}

fn temp_address(index: u32) -> (r: String)
    ensures
        r@ == decimal(5 + index as nat),
{
    let mut s = String::new();
    append_decimal(&mut s, 5 + index as u64);
    assert(s@ =~= decimal(5 + index as nat));
    s
}

/// The code of a binary operation; `i` numbers the labels of a comparison.
pub fn binary(op: BinOp, i: u64) -> (r: String)
    ensures
        r@ == binary_code(op, i as nat),
{
    match op {
        BinOp::Add => VMCommand::arithmetic("M=D+M"),
        BinOp::Sub => VMCommand::arithmetic("M=M-D"),
        BinOp::And => VMCommand::arithmetic("M=D&M"),
        BinOp::Or => VMCommand::arithmetic("M=D|M"),
        _ => VMCommand::comparison(op, i),
    }
}

/// The code of a unary operation.
pub fn unary(op: UnOp) -> (r: String)
    ensures
        r@ == unary_code(op),
{
    let mut s = String::new();
    s.append("@SP\nM=M-1\n");
    s.append("@SP\nA=M\n");
    match op {
        UnOp::Neg => s.append("D=0\nM=D-M\n"),
        UnOp::Not => s.append("M=!M\n"),
    }
    s.append("@SP\nM=M+1\n");
    assert(s@ =~= unary_code(op));
    s
}

/// Appends the label `prefix` numbered `i`.
fn append_label(out: &mut String, prefix: &str, i: u64)
    ensures
        final(out)@ == old(out)@ + (prefix@ + decimal(i as nat)),
{
    out.append(prefix);
    append_decimal(out, i);
    assert(out@ =~= old(out)@ + (prefix@ + decimal(i as nat)));
}

fn restore(r: &str) -> (s: String)
    ensures
        s@ == restore_code(r@),
{
    let mut s = String::new();
    s.append("@R14\nAM=M-1\nD=M\n@");
    s.append(r);
    s.append("\nM=D\n");
    assert(s@ =~= restore_code(r@));
    s
}

impl VMCommand {
    /// The code of a binary operation.
    pub fn arithmetic(op: &str) -> (r: String)
        ensures
            r@ == arithmetic_code(op@),
    {
        let mut s = String::new();
        s.append("@SP\nM=M-1\n");
        s.append("@SP\nA=M\nD=M\n");
        s.append("@SP\nM=M-1\n");
        s.append("@SP\nA=M\n");
        s.append(op);
        s.append("\n");
        s.append("@SP\nM=M+1\n");
        assert(s@ =~= arithmetic_code(op@));
        s
    }

    /// The code of comparison `op`, numbered `i`.
    pub fn comparison(op: BinOp, i: u64) -> (r: String)
        requires
            is_comparison(op),
        ensures
            r@ == comparison_code(op, i as nat),
    {
        let gt = match op {
            BinOp::Gt => true,
            _ => false,
        };
        let eq = match op {
            BinOp::Eq => true,
            _ => false,
        };
        let mut s = String::new();
        s.append("@SP\nM=M-1\n");
        s.append("@SP\nA=M\nD=M\n@");
        s.append(if gt { "R13" } else { "R14" });
        s.append("\nM=D\n");
        s.append("@SP\nM=M-1\n");
        s.append("@SP\nA=M\nD=M\n@");
        s.append(if gt { "R14" } else { "R13" });
        s.append("\nM=D\n");
        if eq {
            s.append("@R13\nD=M\n@R14\nD=D-M\n");
        } else {
            s.append("@R13\nD=M\n@R14\nD=D-M\n@R15\nM=D\n@R13\nD=M\n@R14\nD=D&M\nD=!D\n@SP\nA=M\nM=D\n@R13\nD=M\n@R14\nD=D|M\n@SP\nA=M\nD=D&M\nD=!D\n@R15\nD=D&M\n@SP\nA=M\nM=D\n@R14\nD=!M\n@R13\nD=D&M\n@SP\nA=M\nD=D|M\n");
        }
        s.append("@");
        append_label(&mut s, "EQUAL", i);
        s.append("\nD;");
        s.append(if eq { "JEQ" } else { "JLT" });
        s.append("\n@SP\nA=M\nM=0\n@");
        append_label(&mut s, "END", i);
        s.append("\n0;JEQ\n(");
        append_label(&mut s, "EQUAL", i);
        s.append(")\n@SP\nA=M\nM=-1\n(");
        append_label(&mut s, "END", i);
        s.append(")\n");
        s.append("@SP\nM=M+1\n");
        assert(s@ =~= comparison_code(op, i as nat));
        s
    }

    /// The code of a call of `name` with `nargs` arguments from call site `i`.
    pub fn call(name: &str, nargs: u64, i: u64) -> (r: String)
        ensures
            r@ == call_code(name@, nargs as nat, i as nat),
    {
        let mut ret = String::from_str(name);
        ret.append("return");
        append_decimal(&mut ret, i);
        let mut s = String::new();
        s.append("@");
        s.append(ret.as_str());
        s.append("\nD=A\n");
        s.append(StackOp::push_d().as_str());
        s.append(StackOp::var_push("LCL").as_str());
        s.append(StackOp::var_push("ARG").as_str());
        s.append(StackOp::var_push("THIS").as_str());
        s.append(StackOp::var_push("THAT").as_str());
        s.append("@SP\nD=M\n@5\nD=D-A\n@");
        append_decimal(&mut s, nargs);
        s.append("\nD=D-A\n@ARG\nM=D\n@SP\nD=M\n@LCL\nM=D\n@");
        s.append(name);
        s.append("\n0;JEQ\n(");
        s.append(ret.as_str());
        s.append(")\n");
        assert(s@ =~= call_code(name@, nargs as nat, i as nat));
        s
    }

    /// The code of the declaration of `name` with `nvars` local variables.
    pub fn function(name: &str, nvars: u64) -> (r: String)
        ensures
            r@ == function_code(name@, nvars as nat),
    {
        let mut s = String::new();
        s.append("(");
        s.append(name);
        s.append(")\n");
        let zero = StackOp::push_constant(0);
        let mut k: u64 = 0;
        assert(s@ =~= "("@ + name@ + ")\n"@ + repeat(push_constant_code(0), 0));
        while k < nvars
            invariant
                k <= nvars,
                zero@ == push_constant_code(0),
                s@ == "("@ + name@ + ")\n"@ + repeat(push_constant_code(0), k as nat),
            decreases nvars - k,
        {
            s.append(zero.as_str());
            k = k + 1;
            assert(s@ =~= "("@ + name@ + ")\n"@ + repeat(push_constant_code(0), k as nat));
        }
        s
    }

    /// The code of `return`.
    pub fn function_return() -> (r: String)
        ensures
            r@ == return_code(),
    {
        let mut s = String::new();
        s.append("@LCL\nD=M\n@R14\nM=D\n@5\nA=D-A\nD=M\n@R15\nM=D\n");
        s.append("@SP\nM=M-1\n");
        s.append("A=M\nD=M\n@ARG\nA=M\nM=D\n@ARG\nD=M\n@SP\nM=D+1\n");
        s.append(restore("THAT").as_str());
        s.append(restore("THIS").as_str());
        s.append(restore("ARG").as_str());
        s.append(restore("LCL").as_str());
        s.append("@R15\nA=M\n0;JEQ\n");
        assert(s@ =~= return_code());
        s
    }

    /// The bootstrap code: stack pointer at 256, then a call of `Sys.init`.
    pub fn init() -> (r: String)
        ensures
            r@ == bootstrap_code(),
    {
        let mut s = String::new();
        s.append("@256\nD=A\n@SP\nM=D\n");
        s.append(VMCommand::call("Sys.init", 0, 0).as_str());
        s
    }

    /// The code of this command, in the unit `filename`; `idx` numbers it among
    /// the program's commands and keeps its generated labels apart.
    pub fn translate(&self, filename: &str, idx: u64) -> (r: Result<String, ErrorKind>)
        ensures
            translated_as(r, command_code(self@, filename@, idx as nat)),
    {
        match self {
            VMCommand::Stack(op) => op.translate(filename),
            VMCommand::BinaryArithmeticLogical(op) => Ok(binary(*op, idx)),
            VMCommand::UnaryArithmeticLogical(op) => Ok(unary(*op)),
            VMCommand::Label(l) => {
                let mut s = String::new();
                s.append("(");
                s.append(l.as_str());
                s.append(")");
                Ok(s)
            },
            VMCommand::GoTo(l) => {
                let mut s = String::new();
                s.append("@");
                s.append(l.as_str());
                s.append("\n0;JEQ\n");
                Ok(s)
            },
            VMCommand::IfGoTo(l) => {
                let mut s = String::new();
                s.append("@SP\nM=M-1\n");
                s.append("@SP\nA=M\nD=M\n@");
                s.append(l.as_str());
                s.append("\nD;JNE\n");
                Ok(s)
            },
            VMCommand::Call(f, n) => Ok(VMCommand::call(f.as_str(), *n, idx)),
            VMCommand::Function(f, n) => Ok(VMCommand::function(f.as_str(), *n)),
            VMCommand::Return => Ok(VMCommand::function_return()),
        }
    }
}

} // verus!

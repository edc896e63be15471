//! Program-wide properties of the translation, proved over the spec functions
//! that the emitters' contracts use.
use vstd::prelude::*;

use crate::code::{bootstrap_code, command_code, direct_name, end_label, equal_label, return_label, stack_code};
use crate::command::{parse_command, BinOp, Command, ErrorKind, Segment, StackOp};
use crate::driver::{clean, lemma_fault_extends, line_block, lines_view, program_code, unit_code, units_code, Fault, SourceUnit};
use crate::text::{decimal, digit_char, is_digit};

verus! {

/// The prefix of the comparison label of kind `a`: 0 for `EQUAL`, 1 for `END`.
pub open spec fn comparison_prefix(a: int) -> Seq<char> {
    if a == 0 { "EQUAL"@ } else { "END"@ }
}

/// The two labels that comparison `i` declares.
pub open spec fn comparison_labels(i: nat) -> Set<Seq<char>> {
    set![equal_label(i), end_label(i)]
}

/// The labels that the code of command `c`, numbered `i`, generates itself:
/// two for a comparison, the return label for a call, none otherwise.
pub open spec fn generated_labels(c: Command, i: nat) -> Set<Seq<char>> {
    match c {
        Command::BinaryArithmeticLogical(op) => if op == BinOp::Eq || op == BinOp::Gt || op == BinOp::Lt {
            comparison_labels(i)
        } else {
            Set::empty()
        },
        Command::Call(f, n) => set![return_label(f, i)],
        _ => Set::empty(),
    }
}

/// Popping into the constant segment always fails as unsupported.
pub proof fn pop_constant_unsupported(i: u32, unit: Seq<char>)
    ensures
        stack_code(StackOp::Pop(Segment::Constant, i), unit) == Err::<Seq<char>, ErrorKind>(ErrorKind::UnsupportedOperation),
{
}

/// A unit whose line number `p + 1` is `pop constant i`, with no fault on
/// the lines before it, fails with `UnsupportedOperation` at that line.
pub proof fn unit_pop_constant_fails(unit: Seq<char>, lines: Seq<Seq<char>>, start: nat, p: int, i: u32)
    requires
        0 <= p < lines.len(),
        parse_command(clean(lines[p])) == Ok::<Command, ErrorKind>(Command::Stack(StackOp::Pop(Segment::Constant, i))),
        unit_code(unit, lines.take(p), start) is Ok,
    ensures
        unit_code(unit, lines, start) == Err::<(Seq<char>, nat), Fault>(Fault {
            kind: ErrorKind::UnsupportedOperation,
            unit,
            line: (p + 1) as nat,
            text: clean(lines[p]),
        }),
{
    let l = clean(lines[p]);
    assert(lines.take(p + 1).drop_last() =~= lines.take(p));
    assert(lines.take(p + 1).last() == lines[p]);
    lemma_fault_extends(unit, lines, p + 1, start);
}

/// Static cells of different units, or of different indexes, never share a
/// variable: the index's numeral is what follows the last `.` of the name.
pub proof fn static_names_distinct(u1: Seq<char>, i: nat, u2: Seq<char>, j: nat)
    requires
        u1 != u2 || i != j,
    ensures
        direct_name(Segment::Static, u1, i) != direct_name(Segment::Static, u2, j),
{
    reveal_strlit(".");
    lemma_decimal_digits(i);
    lemma_decimal_digits(j);
    let a = direct_name(Segment::Static, u1, i);
    let b = direct_name(Segment::Static, u2, j);
    if a == b {
        let di = decimal(i);
        let dj = decimal(j);
        let n = a.len();
        if di.len() < dj.len() {
            let k = n - di.len() - 1;
            assert(a[k] == '.');
            assert(b[k] == dj[k - (u2.len() + 1)]);
        } else if dj.len() < di.len() {
            let k = n - dj.len() - 1;
            assert(b[k] == '.');
            assert(a[k] == di[k - (u1.len() + 1)]);
        } else {
            assert(di =~= a.skip(n - di.len()));
            assert(dj =~= b.skip(n - dj.len()));
            lemma_decimal_injective(i, j);
            assert(u1 =~= a.take(u1.len() as int));
            assert(u2 =~= b.take(u2.len() as int));
        }
    }
}

proof fn lemma_digit_char(d: nat)
    ensures
        is_digit(digit_char(d)),
        d < 10 ==> digit_char(d) as u32 == '0' as u32 + d,
{
}

/// A decimal numeral is non-empty, all digits, and longer than one digit
/// from 10 on.
proof fn lemma_decimal_digits(n: nat)
    ensures
        decimal(n).len() >= 1,
        n >= 10 ==> decimal(n).len() >= 2,
        forall|k: int| 0 <= k < decimal(n).len() ==> is_digit(#[trigger] decimal(n)[k]),
    decreases n,
{
    lemma_digit_char(n % 10);
    lemma_digit_char(n);
    if n >= 10 {
        lemma_decimal_digits(n / 10);
        let p = decimal(n / 10);
        assert forall|k: int| 0 <= k < decimal(n).len() implies is_digit(#[trigger] decimal(n)[k]) by {
            if k < p.len() {
                assert(decimal(n)[k] == p[k]);
            }
        }
    }
}

/// Different numbers have different numerals.
proof fn lemma_decimal_injective(a: nat, b: nat)
    requires
        decimal(a) == decimal(b),
    ensures
        a == b,
    decreases a,
{
    lemma_decimal_digits(a);
    lemma_decimal_digits(b);
    lemma_digit_char(a % 10);
    lemma_digit_char(b % 10);
    if a >= 10 && b >= 10 {
        assert(decimal(a / 10) =~= decimal(a).drop_last());
        assert(decimal(b / 10) =~= decimal(b).drop_last());
        lemma_decimal_injective(a / 10, b / 10);
        assert(decimal(a).last() == digit_char(a % 10));
    } else if a < 10 && b < 10 {
        assert(decimal(a)[0] == digit_char(a));
        lemma_digit_char(a);
        lemma_digit_char(b);
    }
}

/// `s` is `prefix` followed by a numeral: each character is either that of
/// the prefix or a digit.
proof fn lemma_prefixed_numeral(prefix: Seq<char>, n: nat, k: int)
    requires
        0 <= k < (prefix + decimal(n)).len(),
    ensures
        k < prefix.len() ==> (prefix + decimal(n))[k] == prefix[k],
        k >= prefix.len() ==> is_digit((prefix + decimal(n))[k]),
{
    lemma_decimal_digits(n);
    if k >= prefix.len() {
        assert((prefix + decimal(n))[k] == decimal(n)[k - prefix.len()]);
    }
}

/// Each label of comparison `i` is a prefix of capital letters followed by
/// the numeral of `i`.
proof fn lemma_comparison_label_set(i: nat)
    ensures
        forall|l: Seq<char>| #[trigger] comparison_labels(i).contains(l)
            ==> exists|a: int| 0 <= a < 2 && l == comparison_prefix(a) + decimal(i),
{
    assert forall|l: Seq<char>| #[trigger] comparison_labels(i).contains(l)
        implies exists|a: int| 0 <= a < 2 && l == comparison_prefix(a) + decimal(i) by {
        if l == equal_label(i) {
            assert(l == comparison_prefix(0) + decimal(i));
        } else {
            assert(l == comparison_prefix(1) + decimal(i));
        }
    }
}

/// Comparison labels of different kinds or different numbers differ: the
/// prefixes differ in their second letter, and numerals are injective.
proof fn lemma_comparison_pair(a: int, i: nat, b: int, j: nat)
    requires
        0 <= a < 2,
        0 <= b < 2,
        a != b || i != j,
    ensures
        comparison_prefix(a) + decimal(i) != comparison_prefix(b) + decimal(j),
{
    reveal_strlit("EQUAL");
    reveal_strlit("END");
    let p = comparison_prefix(a);
    let q = comparison_prefix(b);
    let x = p + decimal(i);
    let y = q + decimal(j);
    assert(p.len() >= 3 && q.len() >= 3);
    assert(x[1] == p[1]);
    assert(y[1] == q[1]);
    if a == b && x == y {
        assert(decimal(i) =~= x.skip(p.len() as int));
        assert(decimal(j) =~= y.skip(q.len() as int));
        lemma_decimal_injective(i, j);
    }
}

/// Labels of comparisons numbered differently differ, and the two labels of
/// one comparison are distinct.
proof fn lemma_comparison_labels(i: nat, j: nat)
    ensures
        forall|a: int, b: int| 0 <= a < 2 && 0 <= b < 2 && (a != b || i != j)
            ==> #[trigger] (comparison_prefix(a) + decimal(i)) != #[trigger] (comparison_prefix(b) + decimal(j)),
{
    assert forall|a: int, b: int| 0 <= a < 2 && 0 <= b < 2 && (a != b || i != j)
        implies #[trigger] (comparison_prefix(a) + decimal(i)) != #[trigger] (comparison_prefix(b) + decimal(j)) by {
        lemma_comparison_pair(a, i, b, j);
    }
}

/// A return label is never a comparison label: it holds a lower-case `r`
/// where those hold a capital letter of their prefix or a digit.
proof fn lemma_return_not_comparison(f: Seq<char>, i: nat, j: nat)
    ensures
        forall|a: int| 0 <= a < 2 ==> return_label(f, i) != #[trigger] (comparison_prefix(a) + decimal(j)),
{
    reveal_strlit("return");
    reveal_strlit("EQUAL");
    reveal_strlit("END");
    lemma_decimal_digits(i);
    let r = return_label(f, i);
    let k = f.len() as int;
    assert(r[k] == 'r');
    assert forall|a: int| 0 <= a < 2 implies r != #[trigger] (comparison_prefix(a) + decimal(j)) by {
        if r == comparison_prefix(a) + decimal(j) {
            lemma_prefixed_numeral(comparison_prefix(a), j, k);
        }
    }
}

/// Return labels of call sites numbered differently differ, whatever the
/// functions called: the numeral is the longest run of digits that ends the
/// label, since `return` ends in a letter.
proof fn lemma_return_labels(f: Seq<char>, i: nat, g: Seq<char>, j: nat)
    requires
        i != j,
    ensures
        return_label(f, i) != return_label(g, j),
{
    reveal_strlit("return");
    lemma_decimal_digits(i);
    lemma_decimal_digits(j);
    let a = return_label(f, i);
    let b = return_label(g, j);
    if a == b {
        let di = decimal(i);
        let dj = decimal(j);
        let n = a.len();
        if di.len() < dj.len() {
            let k = n - di.len() - 1;
            assert(a[k] == 'n');
            assert(b[k] == dj[k - (g.len() + 6)]);
        } else if dj.len() < di.len() {
            let k = n - dj.len() - 1;
            assert(b[k] == 'n');
            assert(a[k] == di[k - (f.len() + 6)]);
        } else {
            assert(di =~= a.skip(n - di.len()));
            assert(dj =~= b.skip(n - dj.len()));
            lemma_decimal_injective(i, j);
        }
    }
}

/// Commands numbered differently generate no label in common, whatever the
/// commands and the names they carry.
pub proof fn generated_labels_disjoint(c1: Command, i1: nat, c2: Command, i2: nat)
    requires
        i1 != i2,
    ensures
        generated_labels(c1, i1).disjoint(generated_labels(c2, i2)),
{
    lemma_comparison_label_set(i1);
    lemma_comparison_label_set(i2);
    lemma_comparison_labels(i1, i2);
    if let Command::Call(f, n) = c1 {
        lemma_return_not_comparison(f, i1, i2);
        if let Command::Call(g, m) = c2 {
            lemma_return_labels(f, i1, g, i2);
        }
    }
    if let Command::Call(g, m) = c2 {
        lemma_return_not_comparison(g, i2, i1);
    }
}

/// A comparison generates two different labels.
pub proof fn comparison_labels_differ(i: nat)
    ensures
        equal_label(i) != end_label(i),
        comparison_labels(i).len() == 2,
{
    lemma_comparison_labels(i, i);
    assert(equal_label(i) == comparison_prefix(0) + decimal(i));
    assert(end_label(i) == comparison_prefix(1) + decimal(i));
    assert(!Set::<Seq<char>>::empty().insert(equal_label(i)).contains(end_label(i)));
}

/// The bootstrap call's return label, numbered 0, is generated by no command
/// of the program, since those are numbered from 1.
pub proof fn bootstrap_label_unique(c: Command, i: nat)
    requires
        i >= 1,
    ensures
        !generated_labels(c, i).contains(return_label("Sys.init"@, 0)),
{
    lemma_comparison_label_set(i);
    lemma_return_not_comparison("Sys.init"@, 0, i);
    if let Command::Call(g, m) = c {
        lemma_return_labels("Sys.init"@, 0, g, i);
    }
}

/// A command of a program, with the unit it belongs to and its cleaned line.
pub struct Located {
    pub unit: Seq<char>,
    pub line: Seq<char>,
    pub cmd: Command,
}

/// The commands of a unit's lines, in order; blank lines and lines that do
/// not parse are left out.
pub open spec fn unit_commands(unit: Seq<char>, lines: Seq<Seq<char>>) -> Seq<Located>
    decreases lines.len(),
{
    if lines.len() == 0 {
        Seq::empty()
    } else {
        let cs = unit_commands(unit, lines.drop_last());
        let l = clean(lines.last());
        match parse_command(l) {
            Ok(c) => if l.len() == 0 { cs } else { cs.push(Located { unit, line: l, cmd: c }) },
            Err(_) => cs,
        }
    }
}

/// The commands of all the units, in order.
pub open spec fn program_commands(units: Seq<SourceUnit>) -> Seq<Located>
    decreases units.len(),
{
    if units.len() == 0 {
        Seq::empty()
    } else {
        program_commands(units.drop_last()) + unit_commands(units.last().name@, lines_view(units.last().lines@))
    }
}

/// The code of commands `cs`, the first numbered `start` and each next one
/// numbered one more.
pub open spec fn blocks(cs: Seq<Located>, start: nat) -> Seq<char>
    decreases cs.len(),
{
    if cs.len() == 0 {
        Seq::empty()
    } else {
        let c = cs.last();
        blocks(cs.drop_last(), start) + line_block(
            c.line,
            command_code(c.cmd, c.unit, (start + cs.len() - 1) as nat)->Ok_0,
        )
    }
}

proof fn lemma_blocks_append(a: Seq<Located>, b: Seq<Located>, start: nat)
    ensures
        blocks(a + b, start) == blocks(a, start) + blocks(b, start + a.len()),
    decreases b.len(),
{
    if b.len() == 0 {
        assert(a + b =~= a);
        assert(blocks(a, start) + blocks(b, start + a.len()) =~= blocks(a, start));
    } else {
        assert((a + b).drop_last() =~= a + b.drop_last());
        lemma_blocks_append(a, b.drop_last(), start);
        assert(blocks(a + b, start) =~= blocks(a, start) + blocks(b, start + a.len()));
    }
}

/// A unit that translates gives the code of its commands in order, the
/// first numbered `start` and each next one numbered one more, and the
/// counter ends at `start` plus the number of commands.
pub proof fn lemma_unit_shape(unit: Seq<char>, lines: Seq<Seq<char>>, start: nat)
    requires
        unit_code(unit, lines, start) is Ok,
    ensures
        unit_code(unit, lines, start) == Ok::<(Seq<char>, nat), crate::driver::Fault>((
            blocks(unit_commands(unit, lines), start),
            start + unit_commands(unit, lines).len(),
        )),
        forall|p: int| 0 <= p < unit_commands(unit, lines).len()
            ==> (command_code((#[trigger] unit_commands(unit, lines)[p]).cmd, unit, (start + p) as nat) is Ok),
    decreases lines.len(),
{
    if lines.len() > 0 {
        lemma_unit_shape(unit, lines.drop_last(), start);
        let cs = unit_commands(unit, lines.drop_last());
        let l = clean(lines.last());
        if l.len() > 0 {
            let c = parse_command(l)->Ok_0;
            assert(unit_commands(unit, lines) == cs.push(Located { unit, line: l, cmd: c }));
            assert(unit_commands(unit, lines).drop_last() =~= cs);
            assert forall|p: int| 0 <= p < unit_commands(unit, lines).len()
                implies (command_code((#[trigger] unit_commands(unit, lines)[p]).cmd, unit, (start + p) as nat) is Ok) by {
                if p < cs.len() {
                    assert(unit_commands(unit, lines)[p] == cs[p]);
                }
            }
        }
    }
}

/// Every command of a program that translates has code, at its number.
proof fn lemma_program_shape(units: Seq<SourceUnit>, start: nat)
    requires
        units_code(units, start) is Ok,
    ensures
        units_code(units, start) == Ok::<(Seq<char>, nat), crate::driver::Fault>((
            blocks(program_commands(units), start),
            start + program_commands(units).len(),
        )),
    decreases units.len(),
{
    if units.len() > 0 {
        lemma_program_shape(units.drop_last(), start);
        let u = units.last();
        let k = start + program_commands(units.drop_last()).len();
        lemma_unit_shape(u.name@, lines_view(u.lines@), k);
        lemma_blocks_append(program_commands(units.drop_last()), unit_commands(u.name@, lines_view(u.lines@)), start);
    }
}

/// In a program that translates, the code is the bootstrap code (where
/// asked for) followed by each command's code at its number, the commands
/// numbered one after another; so no two commands, and neither the bootstrap
/// call, generate a label in common.
pub proof fn program_labels_unique(units: Seq<SourceUnit>, bootstrap: bool, p: int, q: int)
    requires
        program_code(units, bootstrap) is Ok,
        0 <= p < q < program_commands(units).len(),
    ensures
        ({
            let start: nat = if bootstrap { 1 } else { 0 };
            let cs = program_commands(units);
            &&& program_code(units, bootstrap)->Ok_0 == (if bootstrap { bootstrap_code() } else { Seq::empty() }) + blocks(cs, start)
            &&& generated_labels(cs[p].cmd, (start + p) as nat).disjoint(generated_labels(cs[q].cmd, (start + q) as nat))
            &&& bootstrap ==> !generated_labels(cs[p].cmd, (start + p) as nat).contains(return_label("Sys.init"@, 0))
        }),
{
    let start: nat = if bootstrap { 1 } else { 0 };
    let cs = program_commands(units);
    lemma_program_shape(units, start);
    generated_labels_disjoint(cs[p].cmd, (start + p) as nat, cs[q].cmd, (start + q) as nat);
    if bootstrap {
        bootstrap_label_unique(cs[p].cmd, (start + p) as nat);
    }
}

} // verus!

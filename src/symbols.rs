//! The assembler's symbol table and its two passes: labels, then variables.
use vstd::prelude::*;

use crate::driver::{clean, clean_line, lines_view};
use crate::hack::{encodable, parse_line, word, Comp, Instr, InstrV, Program, ProgramV, Value, ValueV};

verus! {

/// Names bound to addresses; a later binding of a name replaces an earlier one.
pub struct SymbolTable {
    entries: Vec<(String, usize)>,
}

/// The address that the latest binding of `k` among `e` gives.
pub open spec fn lookup(e: Seq<(String, usize)>, k: Seq<char>) -> Option<usize>
    decreases e.len(),
{
    if e.len() == 0 {
        None
    } else if e.last().0@ == k {
        Some(e.last().1)
    } else {
        lookup(e.drop_last(), k)
    }
}

/// The registers and memory-mapped devices that every program may name.
pub open spec fn predefined() -> Map<Seq<char>, usize> {
    map![
        "R0"@ => 0usize, "R1"@ => 1usize, "R2"@ => 2usize, "R3"@ => 3usize, "R4"@ => 4usize,
        "R5"@ => 5usize, "R6"@ => 6usize, "R7"@ => 7usize, "R8"@ => 8usize, "R9"@ => 9usize,
        "R10"@ => 10usize, "R11"@ => 11usize, "R12"@ => 12usize, "R13"@ => 13usize,
        "R14"@ => 14usize, "R15"@ => 15usize, "SCREEN"@ => 16384usize, "KBD"@ => 24576usize,
        "SP"@ => 0usize, "LCL"@ => 1usize, "ARG"@ => 2usize, "THIS"@ => 3usize, "THAT"@ => 4usize
    ]
}

impl View for SymbolTable {
    type V = Map<Seq<char>, usize>;

    closed spec fn view(&self) -> Map<Seq<char>, usize> {
        Map::new(|k: Seq<char>| lookup(self.entries@, k) is Some, |k: Seq<char>| lookup(self.entries@, k)->Some_0)
    }
}

impl SymbolTable {
    /// The table of the predefined symbols.
    pub fn new() -> (r: SymbolTable)
        ensures
            r@ == predefined(),
    {
        let mut t = SymbolTable { entries: Vec::new() };
        assert(t@ =~= Map::<Seq<char>, usize>::empty());
        t.insert(String::from_str("R0"), 0);
        t.insert(String::from_str("R1"), 1);
        t.insert(String::from_str("R2"), 2);
        t.insert(String::from_str("R3"), 3);
        t.insert(String::from_str("R4"), 4);
        t.insert(String::from_str("R5"), 5);
        t.insert(String::from_str("R6"), 6);
        t.insert(String::from_str("R7"), 7);
        t.insert(String::from_str("R8"), 8);
        t.insert(String::from_str("R9"), 9);
        t.insert(String::from_str("R10"), 10);
        t.insert(String::from_str("R11"), 11);
        t.insert(String::from_str("R12"), 12);
        t.insert(String::from_str("R13"), 13);
        t.insert(String::from_str("R14"), 14);
        t.insert(String::from_str("R15"), 15);
        t.insert(String::from_str("SCREEN"), 16384);
        t.insert(String::from_str("KBD"), 24576);
        t.insert(String::from_str("SP"), 0);
        t.insert(String::from_str("LCL"), 1);
        t.insert(String::from_str("ARG"), 2);
        t.insert(String::from_str("THIS"), 3);
        t.insert(String::from_str("THAT"), 4);
        t
    }

    /// Binds `k` to `val`, returning the address it was bound to before.
    pub fn insert(&mut self, k: String, val: usize) -> (r: Option<usize>)
        ensures
            final(self)@ == old(self)@.insert(k@, val),
            r == (if old(self)@.contains_key(k@) { Some(old(self)@[k@]) } else { None::<usize> }),
    {
        let r = self.get(k.as_str());
        let ghost kv = k@;
        self.entries.push((k, val));
        assert(self.entries@.drop_last() =~= old(self).entries@);
        assert(self@ =~= old(self)@.insert(kv, val));
        r
    }

    /// The address that `k` is bound to, if any.
    pub fn get(&self, k: &str) -> (r: Option<usize>)
        ensures
            r == (if self@.contains_key(k@) { Some(self@[k@]) } else { None::<usize> }),
    {
        let mut i: usize = self.entries.len();
        assert(self.entries@.take(i as int) =~= self.entries@);
        while i > 0
            invariant
                i <= self.entries.len(),
                lookup(self.entries@, k@) == lookup(self.entries@.take(i as int), k@),
            decreases i,
        {
            assert(self.entries@.take(i as int).drop_last() =~= self.entries@.take(i - 1));
            if crate::text::str_eq(self.entries[i - 1].0.as_str(), k) {
                return Some(self.entries[i - 1].1);
            }
            i = i - 1;
        }
        None
    }
}

/// Why a program could not be assembled.
#[derive(Debug, Clone, Copy, PartialEq, Eq, Structural)]
pub enum AsmError {
    /// The line with this number, counting from 1, is no label or instruction.
    MalformedLine(usize),
    /// The instruction at this address, counting from 0, has no binary word.
    Unencodable(usize),
}

pub open spec fn programs_view(v: Seq<Program>) -> Seq<ProgramV> {
    v.map_values(|p: Program| p@)
}

pub open spec fn instrs_view(v: Seq<Instr>) -> Seq<InstrV> {
    v.map_values(|i: Instr| i@)
}

/// The labels and instructions of the lines, blank and comment-only lines
/// skipped; or the number of the first malformed line.
pub open spec fn parse_lines(lines: Seq<Seq<char>>) -> Result<Seq<ProgramV>, nat>
    decreases lines.len(),
{
    if lines.len() == 0 {
        Ok(Seq::empty())
    } else {
        match parse_lines(lines.drop_last()) {
            Err(n) => Err(n),
            Ok(ps) => {
                let l = clean(lines.last());
                if l.len() == 0 {
                    Ok(ps)
                } else {
                    match parse_line(l) {
                        None => Err(lines.len()),
                        Some(p) => Ok(ps.push(p)),
                    }
                }
            },
        }
    }
}

/// The first pass: the predefined symbols with each label bound to the
/// address of the instruction that follows it, and the instructions in order.
pub open spec fn label_pass(ps: Seq<ProgramV>) -> (Map<Seq<char>, usize>, Seq<InstrV>)
    decreases ps.len(),
{
    if ps.len() == 0 {
        (predefined(), Seq::empty())
    } else {
        let (t, is) = label_pass(ps.drop_last());
        match ps.last() {
            ProgramV::Label(l) => (t.insert(l, is.len() as usize), is),
            ProgramV::Instr(i) => (t, is.push(i)),
        }
    }
}

/// The second pass: each symbol operand replaced by its address, where a
/// symbol not yet bound is bound to the next free variable address, counting
/// up from `next`. Also gives the final table and next free address.
pub open spec fn resolve(is: Seq<InstrV>, table: Map<Seq<char>, usize>, next: nat) -> (Seq<InstrV>, Map<Seq<char>, usize>, nat)
    decreases is.len(),
{
    if is.len() == 0 {
        (Seq::empty(), table, next)
    } else {
        let (out, t, n) = resolve(is.drop_last(), table, next);
        match is.last() {
            InstrV::A(ValueV::Variable(v)) => if t.contains_key(v) {
                (out.push(InstrV::A(ValueV::Literal(t[v]))), t, n)
            } else {
                (out.push(InstrV::A(ValueV::Literal(n as usize))), t.insert(v, n as usize), n + 1)
            },
            i => (out.push(i), t, n),
        }
    }
}

/// The address of the first instruction without a binary word.
pub open spec fn first_unencodable(is: Seq<InstrV>) -> Option<nat>
    decreases is.len(),
{
    if is.len() == 0 {
        None
    } else {
        match first_unencodable(is.drop_last()) {
            Some(k) => Some(k),
            None => if encodable(is.last()) { None } else { Some((is.len() - 1) as nat) },
        }
    }
}

/// The binary words of a program, one per instruction; variables are
/// allocated from address 16.
pub open spec fn assembly(lines: Seq<Seq<char>>) -> Result<Seq<Seq<char>>, AsmError> {
    match parse_lines(lines) {
        Err(n) => Err(AsmError::MalformedLine(n as usize)),
        Ok(ps) => {
            let (t, is) = label_pass(ps);
            let (rs, t2, n) = resolve(is, t, 16);
            match first_unencodable(rs) {
                Some(k) => Err(AsmError::Unencodable(k as usize)),
                None => Ok(rs.map_values(|i: InstrV| word(i))),
            }
        },
    }
}

proof fn lemma_parse_fault_extends(lines: Seq<Seq<char>>, k: int)
    requires
        0 <= k <= lines.len(),
        parse_lines(lines.take(k)) is Err,
    ensures
        parse_lines(lines) == parse_lines(lines.take(k)),
    decreases lines.len(),
{
    if k == lines.len() {
        assert(lines.take(k) =~= lines);
    } else {
        assert(lines.drop_last().take(k) =~= lines.take(k));
        lemma_parse_fault_extends(lines.drop_last(), k);
    }
}

proof fn lemma_unencodable_extends(is: Seq<InstrV>, k: int)
    requires
        0 <= k <= is.len(),
        first_unencodable(is.take(k)) is Some,
    ensures
        first_unencodable(is) == first_unencodable(is.take(k)),
    decreases is.len(),
{
    if k == is.len() {
        assert(is.take(k) =~= is);
    } else {
        assert(is.drop_last().take(k) =~= is.take(k));
        lemma_unencodable_extends(is.drop_last(), k);
    }
}

proof fn lemma_parse_count(lines: Seq<Seq<char>>)
    ensures
        parse_lines(lines) matches Ok(ps) ==> ps.len() <= lines.len(),
    decreases lines.len(),
{
    if lines.len() > 0 {
        lemma_parse_count(lines.drop_last());
    }
}

proof fn lemma_resolve_count(is: Seq<InstrV>, t: Map<Seq<char>, usize>, n: nat)
    ensures
        resolve(is, t, n).0.len() == is.len(),
        n <= resolve(is, t, n).2 <= n + is.len(),
    decreases is.len(),
{
    if is.len() > 0 {
        lemma_resolve_count(is.drop_last(), t, n);
    }
}

impl Value {
    /// A value equal to this one.
    pub fn copy(&self) -> (r: Value)
        ensures
            r@ == self@,
    {
        match self {
            Value::Literal(n) => Value::Literal(*n),
            Value::Variable(s) => Value::Variable(s.clone()),
        }
    }
}

impl Instr {
    /// An instruction equal to this one.
    pub fn copy(&self) -> (r: Instr)
        ensures
            r@ == self@,
    {
        match self {
            Instr::A(v) => Instr::A(v.copy()),
            Instr::C(d, c, j) => Instr::C(*d, Comp(c.0.clone()), *j),
        }
    }
}

/// Assembles a program, given as its source lines, into its binary words.
pub fn assemble(lines: &Vec<String>) -> (r: Result<Vec<String>, AsmError>)
    requires
        lines.len() + 16 <= usize::MAX,
    ensures
        match r {
            Ok(w) => assembly(lines_view(lines@)) == Ok::<Seq<Seq<char>>, AsmError>(w@.map_values(|s: String| s@)),
            Err(e) => assembly(lines_view(lines@)) == Err::<Seq<Seq<char>>, AsmError>(e),
        },
{
    let ghost lv = lines_view(lines@);
    // Reading: each line cleaned and parsed.
    let mut ps: Vec<Program> = Vec::new();
    let mut i: usize = 0;
    assert(lv.take(0) =~= Seq::<Seq<char>>::empty());
    assert(programs_view(ps@) =~= Seq::<ProgramV>::empty());
    while i < lines.len()
        invariant
            i <= lines.len(),
            lv == lines_view(lines@),
            parse_lines(lv.take(i as int)) == Ok::<Seq<ProgramV>, nat>(programs_view(ps@)),
        decreases lines.len() - i,
    {
        assert(lv.take(i + 1).drop_last() =~= lv.take(i as int));
        assert(lv.take(i + 1).last() == lines@[i as int]@);
        let l = clean_line(lines[i].as_str());
        if l.unicode_len() > 0 {
            match Program::parse(l.as_str()) {
                Some(p) => {
                    let ghost before = ps@;
                    let ghost pv = p@;
                    ps.push(p);
                    assert(programs_view(ps@) =~= programs_view(before).push(pv));
                },
                None => {
                    proof {
                        lemma_parse_fault_extends(lv, i + 1);
                    }
                    return Err(AsmError::MalformedLine(i + 1));
                },
            }
        }
        i = i + 1;
    }
    assert(lv.take(i as int) =~= lv);
    let ghost psv = programs_view(ps@);
    proof {
        lemma_parse_count(lv);
    }
    // First pass: labels.
    let mut table = SymbolTable::new();
    let mut is: Vec<Instr> = Vec::new();
    let mut j: usize = 0;
    assert(psv.take(0) =~= Seq::<ProgramV>::empty());
    assert(instrs_view(is@) =~= Seq::<InstrV>::empty());
    while j < ps.len()
        invariant
            j <= ps.len(),
            ps.len() <= lines.len(),
            psv == programs_view(ps@),
            lv == lines_view(lines@),
            parse_lines(lv) == Ok::<Seq<ProgramV>, nat>(psv),
            label_pass(psv.take(j as int)) == (table@, instrs_view(is@)),
            is.len() <= j,
        decreases ps.len() - j,
    {
        assert(psv.take(j + 1).drop_last() =~= psv.take(j as int));
        assert(psv.take(j + 1).last() == ps@[j as int]@);
        match &ps[j] {
            Program::Label(l) => {
                table.insert(l.clone(), is.len());
            },
            Program::Instr(ins) => {
                let ghost before = is@;
                is.push(ins.copy());
                assert(instrs_view(is@) =~= instrs_view(before).push(ins@));
            },
        }
        j = j + 1;
    }
    assert(psv.take(j as int) =~= psv);
    let ghost isv = instrs_view(is@);
    let ghost t0 = table@;
    // Second pass: symbols to addresses.
    let mut rs: Vec<Instr> = Vec::new();
    let mut next: usize = 16;
    let mut k: usize = 0;
    assert(isv.take(0) =~= Seq::<InstrV>::empty());
    assert(instrs_view(rs@) =~= Seq::<InstrV>::empty());
    while k < is.len()
        invariant
            k <= is.len(),
            is.len() <= lines.len(),
            lines.len() + 16 <= usize::MAX,
            isv == instrs_view(is@),
            lv == lines_view(lines@),
            parse_lines(lv) == Ok::<Seq<ProgramV>, nat>(psv),
            label_pass(psv) == (t0, isv),
            resolve(isv.take(k as int), t0, 16) == (instrs_view(rs@), table@, next as nat),
        decreases is.len() - k,
    {
        assert(isv.take(k + 1).drop_last() =~= isv.take(k as int));
        assert(isv.take(k + 1).last() == is@[k as int]@);
        proof {
            lemma_resolve_count(isv.take(k as int), t0, 16);
        }
        let ghost before = rs@;
        let resolved = match &is[k] {
            Instr::A(Value::Variable(v)) => match table.get(v.as_str()) {
                Some(a) => Instr::A(Value::Literal(a)),
                None => {
                    table.insert(v.clone(), next);
                    let a = next;
                    next = next + 1;
                    Instr::A(Value::Literal(a))
                },
            },
            other => other.copy(),
        };
        rs.push(resolved);
        assert(instrs_view(rs@) =~= instrs_view(before).push(resolved@));
        k = k + 1;
    }
    assert(isv.take(k as int) =~= isv);
    let ghost rsv = instrs_view(rs@);
    // Encoding.
    let mut words: Vec<String> = Vec::new();
    let mut m: usize = 0;
    assert(rsv.take(0) =~= Seq::<InstrV>::empty());
    assert(words@.map_values(|s: String| s@) =~= rsv.take(0).map_values(|i: InstrV| word(i)));
    while m < rs.len()
        invariant
            m <= rs.len(),
            rsv == instrs_view(rs@),
            words.len() == m,
            lv == lines_view(lines@),
            parse_lines(lv) == Ok::<Seq<ProgramV>, nat>(psv),
            label_pass(psv) == (t0, isv),
            resolve(isv, t0, 16).0 == rsv,
            first_unencodable(rsv.take(m as int)) is None,
            words@.map_values(|s: String| s@) == rsv.take(m as int).map_values(|i: InstrV| word(i)),
        decreases rs.len() - m,
    {
        assert(rsv.take(m + 1).drop_last() =~= rsv.take(m as int));
        assert(rsv.take(m + 1).last() == rs@[m as int]@);
        if !rs[m].is_encodable() {
            proof {
                assert(first_unencodable(rsv.take(m + 1)) == Some(m as nat));
                lemma_unencodable_extends(rsv, m + 1);
            }
            return Err(AsmError::Unencodable(m));
        }
        let w = rs[m].to_binary();
        let ghost before = words@;
        words.push(w);
        assert(words@.map_values(|s: String| s@) =~= rsv.take(m + 1).map_values(|i: InstrV| word(i))) by {
            assert(words@.drop_last() =~= before);
            assert forall|q: int| 0 <= q < m implies words@[q]@ == word(rsv.take(m + 1)[q]) by {
                assert(words@[q] == before[q]);
                assert(before.map_values(|s: String| s@)[q] == rsv.take(m as int).map_values(|i: InstrV| word(i))[q]);
            }
        }
        m = m + 1;
    }
    assert(rsv.take(m as int) =~= rsv);
    Ok(words)
}

} // verus!

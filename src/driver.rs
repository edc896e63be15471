//! The translation driver: cleans source lines, parses and translates them in
//! order, and numbers the commands of a whole program with one counter.
use vstd::prelude::*;

use crate::code::{bootstrap_code, command_code, translated_as};
use crate::command::{parse_command, parsed_as, ErrorKind, VMCommand};

verus! {

pub open spec fn is_blank(c: char) -> bool {
    c == ' ' || c == '\t' || c == '\r' || c == '\n' || c == '\x0B' || c == '\x0C'
}

/// `s` without its leading blanks.
pub open spec fn trim_start(s: Seq<char>) -> Seq<char>
    decreases s.len(),
{
    if s.len() > 0 && is_blank(s[0]) {
        trim_start(s.drop_first())
    } else {
        s
    }
}

/// `s` without its trailing blanks.
pub open spec fn trim_end(s: Seq<char>) -> Seq<char>
    decreases s.len(),
{
    if s.len() > 0 && is_blank(s.last()) {
        trim_end(s.drop_last())
    } else {
        s
    }
}

/// `i` is where the first `//` of `s` starts.
pub open spec fn is_comment_start(s: Seq<char>, i: int) -> bool {
    &&& 0 <= i && i + 1 < s.len()
    &&& s[i] == '/' && s[i + 1] == '/'
    &&& forall|j: int| 0 <= j < i ==> !(#[trigger] s[j] == '/' && s[j + 1] == '/')
}

/// The part of a line before its comment.
pub open spec fn code_part(s: Seq<char>) -> Seq<char> {
    if exists|i: int| is_comment_start(s, i) {
        s.take(choose|i: int| is_comment_start(s, i))
    } else {
        s
    }
}

/// A source line without its comment and surrounding blanks.
pub open spec fn clean(s: Seq<char>) -> Seq<char> {
    trim_end(trim_start(code_part(s)))
}

/// Removes a line's comment and the blanks around what is left.
pub fn clean_line(line: &str) -> (r: String)
    ensures
        r@ == clean(line@),
{
    let n = line.unicode_len();
    let cut = match find_comment(line) {
        Some(i) => i,
        None => n,
    };
    proof {
        if cut < n {
            assert(is_comment_start(line@, cut as int));
            let k = choose|k: int| is_comment_start(line@, k);
            if k < cut {
                assert(!(line@[k] == '/' && line@[k + 1] == '/'));
            }
            if k > cut {
                assert(!(line@[cut as int] == '/' && line@[cut + 1] == '/'));
            }
            assert(k == cut);
        } else {
            assert forall|k: int| !is_comment_start(line@, k) by {
                if is_comment_start(line@, k) {
                    assert(line@[k] == '/' && line@[k + 1] == '/');
                }
            }
            assert(line@.take(n as int) =~= line@);
        }
    }
    let code = line.substring_char(0, cut);
    assert(code@ == code_part(line@));
    let mut start: usize = 0;
    assert(code@.skip(0) =~= code@);
    while start < cut && is_blank_exec(code.get_char(start))
        invariant
            start <= cut,
            cut == code@.len(),
            trim_start(code@) == trim_start(code@.skip(start as int)),
        decreases cut - start,
    {
        assert(code@.skip(start + 1) =~= code@.skip(start as int).drop_first());
        start = start + 1;
    }
    let mut end: usize = cut;
    let ghost t = code@.skip(start as int);
    assert(trim_start(code@) == t) by {
        if start < cut {
            assert(t[0] == code@[start as int]);
        } else {
            assert(t.len() == 0);
        }
    }
    while end > start && is_blank_exec(code.get_char(end - 1))
        invariant
            start <= end <= cut,
            cut == code@.len(),
            t == code@.skip(start as int),
            trim_end(t) == trim_end(code@.subrange(start as int, end as int)),
        decreases end - start,
    {
        assert(code@.subrange(start as int, end - 1) =~= code@.subrange(start as int, end as int).drop_last());
        end = end - 1;
    }
    let r = String::from_str(code.substring_char(start, end));
    assert(t =~= code@.subrange(start as int, cut as int));
    r
}

/// Where the first `//` of `s` starts, if it has one.
fn find_comment(s: &str) -> (r: Option<usize>)
    ensures
        match r {
            Some(i) => is_comment_start(s@, i as int),
            None => forall|j: int| 0 <= j && j + 1 < s@.len() ==> !(#[trigger] s@[j] == '/' && s@[j + 1] == '/'),
        },
{
    let n = s.unicode_len();
    let mut i: usize = 0;
    while i < n
        invariant
            n == s@.len(),
            forall|j: int| 0 <= j < i && j + 1 < n ==> !(#[trigger] s@[j] == '/' && s@[j + 1] == '/'),
        decreases n - i,
    {
        if i + 1 < n && s.get_char(i) == '/' && s.get_char(i + 1) == '/' {
            return Some(i);
        }
        i = i + 1;
    }
    None
}

fn is_blank_exec(c: char) -> (r: bool)
    ensures
        r == is_blank(c),
{
    c == ' ' || c == '\t' || c == '\r' || c == '\n' || c == '\x0B' || c == '\x0C'
}

/// A named source unit: its name qualifies its static variables.
pub struct SourceUnit {
    pub name: String,
    pub lines: Vec<String>,
}

/// A line that could not be translated, and where it stands.
#[derive(Debug)]
pub struct TranslateError {
    pub kind: ErrorKind,
    /// The name of the unit that holds the line.
    pub unit: String,
    /// The line's number in its unit, counting from 1.
    pub line: usize,
    /// The line without its comment and surrounding blanks.
    pub text: String,
}

/// The mathematical value of a `TranslateError`.
pub struct Fault {
    pub kind: ErrorKind,
    pub unit: Seq<char>,
    pub line: nat,
    pub text: Seq<char>,
}

impl View for TranslateError {
    type V = Fault;

    open spec fn view(&self) -> Fault {
        Fault { kind: self.kind, unit: self.unit@, line: self.line as nat, text: self.text@ }
    }
}

pub open spec fn lines_view(v: Seq<String>) -> Seq<Seq<char>> {
    v.map_values(|l: String| l@)
}

/// `code`, ending in a line end.
pub open spec fn with_line_end(code: Seq<char>) -> Seq<char> {
    if code.len() > 0 && code.last() == '\n' {
        code
    } else {
        code + "\n"@
    }
}

/// The code of a cleaned, non-empty line: a comment that repeats it, then the
/// code of its command, ended by a line end where it has none.
pub open spec fn line_block(l: Seq<char>, code: Seq<char>) -> Seq<char> {
    "// "@ + l + "\n"@ + with_line_end(code)
}

/// Whether `s` ends in a line end.
fn ends_line(s: &str) -> (r: bool)
    ensures
        r == (s@.len() > 0 && s@.last() == '\n'),
{
    let n = s.unicode_len();
    n > 0 && s.get_char(n - 1) == '\n'
}

/// The code of the lines of unit `unit` whose commands are numbered from
/// `start`, with the number that the next command gets; or the first fault.
/// Blank and comment-only lines are skipped and take no number.
pub open spec fn unit_code(unit: Seq<char>, lines: Seq<Seq<char>>, start: nat) -> Result<(Seq<char>, nat), Fault>
    decreases lines.len(),
{
    if lines.len() == 0 {
        Ok((Seq::empty(), start))
    } else {
        match unit_code(unit, lines.drop_last(), start) {
            Err(f) => Err(f),
            Ok((t, k)) => {
                let l = clean(lines.last());
                if l.len() == 0 {
                    Ok((t, k))
                } else {
                    match parse_command(l) {
                        Err(e) => Err(Fault { kind: e, unit, line: lines.len(), text: l }),
                        Ok(c) => match command_code(c, unit, k) {
                            Err(e) => Err(Fault { kind: e, unit, line: lines.len(), text: l }),
                            Ok(code) => Ok((t + line_block(l, code), k + 1)),
                        },
                    }
                }
            },
        }
    }
}

/// The commands of a unit take at most one number per line.
pub proof fn lemma_unit_count(unit: Seq<char>, lines: Seq<Seq<char>>, start: nat)
    ensures
        unit_code(unit, lines, start) matches Ok((t, k)) ==> start <= k <= start + lines.len(),
    decreases lines.len(),
{
    if lines.len() > 0 {
        lemma_unit_count(unit, lines.drop_last(), start);
    }
}

/// A fault in a prefix of a unit's lines is the fault of the whole unit.
pub proof fn lemma_fault_extends(unit: Seq<char>, lines: Seq<Seq<char>>, k: int, start: nat)
    requires
        0 <= k <= lines.len(),
        unit_code(unit, lines.take(k), start) is Err,
    ensures
        unit_code(unit, lines, start) == unit_code(unit, lines.take(k), start),
    decreases lines.len(),
{
    if k == lines.len() {
        assert(lines.take(k) =~= lines);
    } else {
        assert(lines.drop_last().take(k) =~= lines.take(k));
        lemma_fault_extends(unit, lines.drop_last(), k, start);
    }
}

/// Translates the lines of the unit `filename`, numbering its commands from
/// `*counter`; on success `*counter` is the number of the next command.
pub fn translate_file(filename: &str, lines: &Vec<String>, counter: &mut u64) -> (r: Result<String, TranslateError>)
    requires
        *old(counter) + lines.len() <= u64::MAX,
    ensures
        match r {
            Ok(t) => unit_code(filename@, lines_view(lines@), *old(counter) as nat)
                == Ok::<(Seq<char>, nat), Fault>((t@, *final(counter) as nat)),
            Err(e) => unit_code(filename@, lines_view(lines@), *old(counter) as nat) == Err::<(Seq<char>, nat), Fault>(e@),
        },
{
    let ghost start = *counter as nat;
    let ghost lv = lines_view(lines@);
    let mut out = String::new();
    let mut i: usize = 0;
    assert(lv.take(0) =~= Seq::<Seq<char>>::empty());
    while i < lines.len()
        invariant
            i <= lines.len(),
            lv == lines_view(lines@),
            start == *old(counter) as nat,
            start + lines.len() <= u64::MAX,
            unit_code(filename@, lv.take(i as int), start) == Ok::<(Seq<char>, nat), Fault>((out@, *counter as nat)),
            *counter <= start + i,
        decreases lines.len() - i,
    {
        let ghost pre = lv.take(i as int);
        assert(lv.take(i + 1).drop_last() =~= pre);
        assert(lv.take(i + 1).last() == lines@[i as int]@);
        let l = clean_line(lines[i].as_str());
        if l.unicode_len() == 0 {
            i = i + 1;
            continue;
        }
        let c = match VMCommand::from_string(l.as_str()) {
            Ok(c) => c,
            Err(kind) => {
                let e = TranslateError { kind, unit: String::from_str(filename), line: i + 1, text: l };
                proof {
                    assert(lv.take(i + 1).len() == i + 1);
                    assert(unit_code(filename@, lv.take(i + 1), start) == Err::<(Seq<char>, nat), Fault>(e@));
                    lemma_fault_extends(filename@, lv, i + 1, start);
                }
                return Err(e);
            },
        };
        let code = match c.translate(filename, *counter) {
            Ok(code) => code,
            Err(kind) => {
                let e = TranslateError { kind, unit: String::from_str(filename), line: i + 1, text: l };
                proof {
                    assert(lv.take(i + 1).len() == i + 1);
                    assert(unit_code(filename@, lv.take(i + 1), start) == Err::<(Seq<char>, nat), Fault>(e@));
                    lemma_fault_extends(filename@, lv, i + 1, start);
                }
                return Err(e);
            },
        };
        out.append("// ");
        out.append(l.as_str());
        out.append("\n");
        out.append(code.as_str());
        if !ends_line(code.as_str()) {
            out.append("\n");
        }
        assert(out@ =~= unit_code(filename@, pre, start)->Ok_0.0 + line_block(l@, code@));
        *counter = *counter + 1;
        i = i + 1;
    }
    assert(lv.take(i as int) =~= lv);
    Ok(out)
}

/// The number of lines in all of `units`.
pub open spec fn total_lines(units: Seq<SourceUnit>) -> nat
    decreases units.len(),
{
    if units.len() == 0 {
        0
    } else {
        total_lines(units.drop_last()) + units.last().lines@.len()
    }
}

/// The code of `units` in order, their commands numbered from `start` on one
/// counter, with the number that follows; or the first fault.
pub open spec fn units_code(units: Seq<SourceUnit>, start: nat) -> Result<(Seq<char>, nat), Fault>
    decreases units.len(),
{
    if units.len() == 0 {
        Ok((Seq::empty(), start))
    } else {
        match units_code(units.drop_last(), start) {
            Err(f) => Err(f),
            Ok((t, k)) => match unit_code(units.last().name@, lines_view(units.last().lines@), k) {
                Err(f) => Err(f),
                Ok((t2, k2)) => Ok((t + t2, k2)),
            },
        }
    }
}

/// The code of a whole program. With `bootstrap`, it starts with the
/// bootstrap code, whose call of `Sys.init` takes number 0, and the commands
/// are numbered from 1; without, from 0.
pub open spec fn program_code(units: Seq<SourceUnit>, bootstrap: bool) -> Result<Seq<char>, Fault> {
    match units_code(units, if bootstrap { 1 } else { 0 }) {
        Err(f) => Err(f),
        Ok((t, k)) => Ok(if bootstrap { bootstrap_code() + t } else { t }),
    }
}

proof fn lemma_units_fault_extends(units: Seq<SourceUnit>, k: int, start: nat)
    requires
        0 <= k <= units.len(),
        units_code(units.take(k), start) is Err,
    ensures
        units_code(units, start) == units_code(units.take(k), start),
    decreases units.len(),
{
    if k == units.len() {
        assert(units.take(k) =~= units);
    } else {
        assert(units.drop_last().take(k) =~= units.take(k));
        lemma_units_fault_extends(units.drop_last(), k, start);
    }
}

/// Translates a whole program: the units in the order given, one counter
/// numbering the commands of all of them, and the bootstrap code first where
/// `bootstrap` is set.
pub fn translate_program(units: &Vec<SourceUnit>, bootstrap: bool) -> (r: Result<String, TranslateError>)
    requires
        total_lines(units@) < u64::MAX,
    ensures
        match r {
            Ok(t) => program_code(units@, bootstrap) == Ok::<Seq<char>, Fault>(t@),
            Err(e) => program_code(units@, bootstrap) == Err::<Seq<char>, Fault>(e@),
        },
{
    let mut out = if bootstrap { VMCommand::init() } else { String::new() };
    let ghost head = out@;
    let mut counter: u64 = if bootstrap { 1 } else { 0 };
    let ghost start = counter as nat;
    let mut i: usize = 0;
    assert(units@.take(0) =~= Seq::<SourceUnit>::empty());
    while i < units.len()
        invariant
            i <= units.len(),
            start == (if bootstrap { 1nat } else { 0nat }),
            head == (if bootstrap { bootstrap_code() } else { Seq::<char>::empty() }),
            total_lines(units@) < u64::MAX,
            units_code(units@.take(i as int), start) matches Ok((t, k)) && out@ == head + t && k == counter,
            counter <= start + total_lines(units@.take(i as int)),
        decreases units.len() - i,
    {
        let ghost pre = units@.take(i as int);
        assert(units@.take(i + 1).drop_last() =~= pre);
        assert(units@.take(i + 1).last() == units@[i as int]);
        proof {
            lemma_total_prefix(units@, i + 1);
        }
        let unit = &units[i];
        match translate_file(unit.name.as_str(), &unit.lines, &mut counter) {
            Ok(t) => {
                out.append(t.as_str());
                proof {
                    lemma_unit_count(unit.name@, lines_view(unit.lines@), units_code(pre, start)->Ok_0.1);
                }
                assert(out@ =~= head + units_code(units@.take(i + 1), start)->Ok_0.0);
            },
            Err(e) => {
                proof {
                    lemma_units_fault_extends(units@, i + 1, start);
                }
                return Err(e);
            },
        }
        i = i + 1;
    }
    assert(units@.take(i as int) =~= units@);
    Ok(out)
}

/// The lines of a prefix of the units are no more than those of all of them.
proof fn lemma_total_prefix(units: Seq<SourceUnit>, k: int)
    requires
        0 <= k <= units.len(),
    ensures
        total_lines(units.take(k)) <= total_lines(units),
        k > 0 ==> total_lines(units.take(k)) == total_lines(units.take(k - 1)) + units[k - 1].lines@.len(),
    decreases units.len(),
{
    if k > 0 {
        assert(units.take(k).drop_last() =~= units.take(k - 1));
    }
    if k == units.len() {
        assert(units.take(k) =~= units);
    } else {
        assert(units.drop_last().take(k) =~= units.take(k));
        lemma_total_prefix(units.drop_last(), k);
    }
}

} // verus!

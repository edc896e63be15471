//! Character-level helpers shared by the parsers and the code emitters:
//! decimal numerals, digit tests and literal comparison.
use vstd::prelude::*;

verus! {

/// The character of a decimal digit.
pub open spec fn digit_char(d: nat) -> char {
    if d == 0 { '0' }
    else if d == 1 { '1' }
    else if d == 2 { '2' }
    else if d == 3 { '3' }
    else if d == 4 { '4' }
    else if d == 5 { '5' }
    else if d == 6 { '6' }
    else if d == 7 { '7' }
    else if d == 8 { '8' }
    else { '9' }
}

/// The shortest decimal numeral of `n`.
pub open spec fn decimal(n: nat) -> Seq<char>
    decreases n,
{
    if n < 10 {
        seq![digit_char(n)]
    } else {
        decimal(n / 10).push(digit_char(n % 10))
    }
}

pub open spec fn is_digit(c: char) -> bool {
    '0' <= c && c <= '9'
}

pub open spec fn digit_value(c: char) -> nat {
    (c as u32 - '0' as u32) as nat
}

/// The number that a sequence of decimal digits denotes.
pub open spec fn numeral_value(s: Seq<char>) -> nat
    decreases s.len(),
{
    if s.len() == 0 {
        0
    } else {
        numeral_value(s.drop_last()) * 10 + digit_value(s.last())
    }
}

pub open spec fn all_digits(s: Seq<char>) -> bool {
    forall|i: int| 0 <= i < s.len() ==> is_digit(#[trigger] s[i])
}

/// `s` is a non-empty run of decimal digits.
pub open spec fn is_numeral(s: Seq<char>) -> bool {
    s.len() > 0 && all_digits(s)
}

/// Appends the decimal numeral of `n` to `out`.
pub fn append_decimal(out: &mut String, n: u64)
    ensures
        final(out)@ == old(out)@ + decimal(n as nat),
    decreases n,
{
    if n >= 10 {
        append_decimal(out, n / 10);
    }
    let d = n % 10;
    proof {
        reveal_strlit("0");
        reveal_strlit("1");
        reveal_strlit("2");
        reveal_strlit("3");
        reveal_strlit("4");
        reveal_strlit("5");
        reveal_strlit("6");
        reveal_strlit("7");
        reveal_strlit("8");
        reveal_strlit("9");
    }
    let lit = if d == 0 { "0" }
        else if d == 1 { "1" }
        else if d == 2 { "2" }
        else if d == 3 { "3" }
        else if d == 4 { "4" }
        else if d == 5 { "5" }
        else if d == 6 { "6" }
        else if d == 7 { "7" }
        else if d == 8 { "8" }
        else { "9" };
    assert(lit@ == seq![digit_char(d as nat)]);
    out.append(lit);
    assert(out@ =~= old(out)@ + decimal(n as nat));
}


/// `i` is the position of the first `c` in `s`.
pub open spec fn is_first(s: Seq<char>, c: char, i: int) -> bool {
    &&& 0 <= i < s.len()
    &&& s[i] == c
    &&& forall|j: int| 0 <= j < i ==> s[j] != c
}

/// The parts of `s` before and after its first `c`, if it holds one.
pub open spec fn split_once(s: Seq<char>, c: char) -> Option<(Seq<char>, Seq<char>)> {
    if exists|i: int| is_first(s, c, i) {
        let i = choose|i: int| is_first(s, c, i);
        Some((s.take(i), s.skip(i + 1)))
    } else {
        None
    }
}

pub open spec fn contains_char(s: Seq<char>, c: char) -> bool {
    exists|i: int| 0 <= i < s.len() && s[i] == c
}

/// Whether two strings hold the same characters.
pub fn str_eq(a: &str, b: &str) -> (r: bool)
    ensures
        r == (a@ == b@),
{
    let n = a.unicode_len();
    if n != b.unicode_len() {
        return false;
    }
    let mut i: usize = 0;
    while i < n
        invariant
            n == a@.len(),
            n == b@.len(),
            i <= n,
            forall|j: int| 0 <= j < i ==> a@[j] == b@[j],
        decreases n - i,
    {
        if a.get_char(i) != b.get_char(i) {
            return false;
        }
        i = i + 1;
    }
    assert(a@ =~= b@);
    true
}

/// The position of the first `c` in `s`, if there is one.
pub fn find_char(s: &str, c: char) -> (r: Option<usize>)
    ensures
        match r {
            Some(i) => is_first(s@, c, i as int),
            None => !contains_char(s@, c),
        },
{
    let n = s.unicode_len();
    let mut i: usize = 0;
    while i < n
        invariant
            n == s@.len(),
            i <= n,
            forall|j: int| 0 <= j < i ==> s@[j] != c,
        decreases n - i,
    {
        if s.get_char(i) == c {
            return Some(i);
        }
        i = i + 1;
    }
    None
}

/// Splits `s` at its first `c`, as `split_once` describes.
pub fn split_once_exec(s: &str, c: char) -> (r: Option<(&str, &str)>)
    ensures
        match r {
            Some((a, b)) => split_once(s@, c) == Some((a@, b@)),
            None => split_once(s@, c) is None,
        },
{
    match find_char(s, c) {
        Some(i) => {
            let n = s.unicode_len();
            let a = s.substring_char(0, i);
            let b = s.substring_char(i + 1, n);
            proof {
                let k = choose|k: int| is_first(s@, c, k);
                assert(k == i as int) by {
                    if k < i {
                        assert(s@[k] != c);
                    } else if k > i {
                        assert(s@[i as int] != c);
                    }
                }
                assert(a@ =~= s@.take(i as int));
                assert(b@ =~= s@.skip(i + 1));
            }
            Some((a, b))
        },
        None => {
            assert forall|k: int| !is_first(s@, c, k) by {
                if is_first(s@, c, k) {
                    assert(contains_char(s@, c));
                }
            }
            None
        },
    }
}

/// The value of `s` as a decimal numeral, where it is one and the value is at
/// most `max`.
pub fn parse_numeral(s: &str, max: u64) -> (r: Option<u64>)
    ensures
        r == (if is_numeral(s@) && numeral_value(s@) <= max {
            Some(numeral_value(s@) as u64)
        } else {
            None::<u64>
        }),
{
    let n = s.unicode_len();
    if n == 0 {
        return None;
    }
    let mut v: u64 = 0;
    let mut i: usize = 0;
    while i < n
        invariant
            n == s@.len(),
            i <= n,
            all_digits(s@.take(i as int)),
            v as nat == numeral_value(s@.take(i as int)),
            v <= max,
        decreases n - i,
    {
        let c = s.get_char(i);
        if !('0' <= c && c <= '9') {
            assert(!all_digits(s@));
            return None;
        }
        let d = (c as u32 - '0' as u32) as u64;
        assert(s@.take(i + 1).drop_last() =~= s@.take(i as int));
        assert(s@.take(i + 1).last() == c);
        assert(all_digits(s@.take(i + 1))) by {
            assert forall|j: int| 0 <= j < i + 1 implies is_digit(#[trigger] s@.take(i + 1)[j]) by {
                if j < i {
                    assert(s@.take(i + 1)[j] == s@.take(i as int)[j]);
                }
            }
        }
        if d > max || v > (max - d) / 10 {
            assert(v * 10 + d > max) by (nonlinear_arith)
                requires
                    d > max || v > (max - d) / 10,
                    d <= max ==> max - d >= 0,
            ;
            proof {
                if all_digits(s@) {
                    lemma_numeral_monotone(s@, i + 1);
                }
            }
            return None;
        }
        assert(v * 10 + d <= max) by (nonlinear_arith)
            requires
                d <= max,
                v <= (max - d) / 10,
        ;
        v = v * 10 + d;
        i = i + 1;
    }
    assert(s@.take(n as int) =~= s@);
    Some(v)
}

/// A numeral's value is at least that of each of its prefixes.
proof fn lemma_numeral_monotone(s: Seq<char>, k: int)
    requires
        0 <= k <= s.len(),
        all_digits(s),
    ensures
        numeral_value(s.take(k)) <= numeral_value(s),
    decreases s.len(),
{
    if k < s.len() {
        assert(s.drop_last().take(k) =~= s.take(k));
        lemma_numeral_monotone(s.drop_last(), k);
    } else {
        assert(s.take(k) =~= s);
    }
}

} // verus!

//! A lenient Roman numeral decoder.
//!
//! A string is mapped character by character to symbolic values and the
//! resulting sequence is folded, rightmost symbol first, into a signed sum:
//! a symbol smaller than the largest magnitude seen so far counts negatively,
//! one equal or larger counts positively. The decoder accepts any string;
//! characters outside the Roman alphabet carry magnitude zero and leave the
//! sum untouched.

use vstd::prelude::*;

verus! {

/// One Roman numeral symbol. Characters that do not name a Roman numeral
/// are absorbed as `Other`, which carries magnitude zero.
#[derive(Debug, Copy, Clone, PartialEq, Eq, Structural)]
pub enum Numeral {
    I,
    V,
    X,
    L,
    C,
    D,
    M,
    Other,
}

/// The magnitude each symbol contributes before the subtractive rule applies.
pub open spec fn magnitude(n: Numeral) -> int {
    match n {
        Numeral::I => 1,
        Numeral::V => 5,
        Numeral::X => 10,
        Numeral::L => 50,
        Numeral::C => 100,
        Numeral::D => 500,
        Numeral::M => 1000,
        Numeral::Other => 0,
    }
}

/// The code point of `c` with an ASCII lowercase letter folded to its
/// uppercase counterpart; any other character is left as it is.
pub open spec fn fold_upper(c: char) -> int {
    if 'a' as int <= c as int && c as int <= 'z' as int {
        c as int - 32
    } else {
        c as int
    }
}

/// The symbol a single character stands for, case-insensitively.
pub open spec fn numeral_of_char(c: char) -> Numeral {
    if fold_upper(c) == 'I' as int {
        Numeral::I
    } else if fold_upper(c) == 'V' as int {
        Numeral::V
    } else if fold_upper(c) == 'X' as int {
        Numeral::X
    } else if fold_upper(c) == 'L' as int {
        Numeral::L
    } else if fold_upper(c) == 'C' as int {
        Numeral::C
    } else if fold_upper(c) == 'D' as int {
        Numeral::D
    } else if fold_upper(c) == 'M' as int {
        Numeral::M
    } else {
        Numeral::Other
    }
}

impl Numeral {
    /// Maps one character to its symbol; unrecognized characters become
    /// `Other`. Total: no input is rejected.
    pub fn from_char(c: char) -> (r: Numeral)
        ensures
            r == numeral_of_char(c),
    {
        match c {
            'I' | 'i' => Numeral::I,
            'V' | 'v' => Numeral::V,
            'X' | 'x' => Numeral::X,
            'L' | 'l' => Numeral::L,
            'C' | 'c' => Numeral::C,
            'D' | 'd' => Numeral::D,
            'M' | 'm' => Numeral::M,
            _ => Numeral::Other,
        }
    }

    /// The symbol's magnitude as a machine integer.
    pub fn value(&self) -> (r: i32)
        ensures
            r as int == magnitude(*self),
    {
        match self {
            Numeral::I => 1,
            Numeral::V => 5,
            Numeral::X => 10,
            Numeral::L => 50,
            Numeral::C => 100,
            Numeral::D => 500,
            Numeral::M => 1000,
            Numeral::Other => 0,
        }
    }
}

impl From<char> for Numeral {
    fn from(input: char) -> (r: Numeral) {
        Numeral::from_char(input)
    }
}

impl vstd::std_specs::convert::FromSpecImpl<char> for Numeral {
    open spec fn obeys_from_spec() -> bool {
        true
    }

    open spec fn from_spec(v: char) -> Numeral {
        numeral_of_char(v)
    }
}

/// The symbol sequence a string maps to, character by character and in the
/// string's own order.
pub open spec fn numerals_of(s: Seq<char>) -> Seq<Numeral> {
    Seq::new(s.len(), |i: int| numeral_of_char(s[i]))
}

/// The signed sum produced by walking `s` from its last symbol to its first
/// while `max_seen` holds the largest magnitude met so far (at the start:
/// the largest magnitude to the right of `s`). A magnitude below `max_seen`
/// counts negatively, one equal to it counts positively, and a larger one
/// counts positively and becomes the new maximum.
pub open spec fn scan_value(s: Seq<Numeral>, max_seen: int) -> int
    decreases s.len(),
{
    if s.len() == 0 {
        0
    } else {
        let m = magnitude(s.last());
        if m < max_seen {
            scan_value(s.drop_last(), max_seen) - m
        } else if m == max_seen {
            scan_value(s.drop_last(), max_seen) + m
        } else {
            scan_value(s.drop_last(), m) + m
        }
    }
}

/// The integer a symbol sequence decodes to.
pub open spec fn value_of(s: Seq<Numeral>) -> int {
    scan_value(s, 0)
}

/// The integer a string decodes to.
pub open spec fn roman_value(s: Seq<char>) -> int {
    value_of(numerals_of(s))
}

/// The error a failed construction would report. Under the present mapping
/// every character is accepted, so no constructor ever returns it; it is
/// kept so that the fallible interface reads like other parsing types.
#[derive(Debug)]
pub enum ParseNumeralError {
    FailedToParseStr,
}

/// An ordered sequence of symbols, as mapped from a string.
#[derive(Debug)]
pub struct Numerals {
    numerals: Vec<Numeral>,
}

impl View for Numerals {
    type V = Seq<Numeral>;

    closed spec fn view(&self) -> Seq<Numeral> {
        self.numerals@
    }
}

/// Maps every character of `input` to its symbol, keeping the order. Total:
/// unrecognized characters become `Other` rather than an error.
pub fn parse(input: &str) -> (r: Numerals)
    ensures
        r@ == numerals_of(input@),
{
    let n = input.unicode_len();
    let mut numerals: Vec<Numeral> = Vec::new();
    let mut i: usize = 0;
    while i < n
        invariant
            i <= n,
            n == input@.len(),
            numerals@.len() == i,
            forall|j: int| 0 <= j < i ==> numerals@[j] == numeral_of_char(input@[j]),
        decreases n - i,
    {
        let c = input.get_char(i);
        numerals.push(Numeral::from_char(c));
        i = i + 1;
    }
    proof {
        assert(numerals@ =~= numerals_of(input@));
    }
    Numerals { numerals }
}

impl Numerals {
    /// Wraps a ready-made symbol sequence.
    pub fn new(numerals: Vec<Numeral>) -> (r: Numerals)
        ensures
            r@ == numerals@,
    {
        Numerals { numerals }
    }

    /// Builds the sequence from a string. The fallible signature is kept for
    /// symmetry with other parsing types, but the mapping is total: the
    /// result is always `Ok`.
    pub fn from_str(s: &str) -> (r: Result<Numerals, ParseNumeralError>)
        ensures
            r matches Ok(ns) && ns@ == numerals_of(s@),
    {
        Ok(parse(s))
    }

    /// Decodes the sequence by the right-to-left running-maximum rule.
    /// The length bound keeps every partial sum within `i32`.
    pub fn convert_to_int(&self) -> (r: i32)
        requires
            1000 * self@.len() <= i32::MAX as int,
        ensures
            r as int == value_of(self@),
    {
        let ghost s = self.numerals@;
        let mut total: i32 = 0;
        let mut max_seen: i32 = 0;
        let mut i: usize = self.numerals.len();
        proof {
            assert(s.take(i as int) =~= s);
        }
        while i > 0
            invariant
                i <= s.len(),
                s == self.numerals@,
                1000 * s.len() <= i32::MAX as int,
                0 <= max_seen <= 1000,
                -1000 * (s.len() - i) <= total as int <= 1000 * (s.len() - i),
                total as int + scan_value(s.take(i as int), max_seen as int) == value_of(s),
            decreases i,
        {
            i = i - 1;
            let n = self.numerals[i].value();
            proof {
                assert(s.take(i + 1 as int).last() == s[i as int]);
                assert(s.take(i + 1 as int).drop_last() =~= s.take(i as int));
            }
            if n < max_seen {
                total = total - n;
            } else if n == max_seen {
                total = total + n;
            } else {
                max_seen = n;
                total = total + n;
            }
        }
        proof {
            assert(s.take(0) =~= Seq::<Numeral>::empty());
        }
        total
    }
}

/// Decodes a string of Roman numeral characters into its integer value:
/// the composition of `parse` and `convert_to_int`.
pub fn roman_to_int(input: &str) -> (r: i32)
    requires
        1000 * input@.len() <= i32::MAX as int,
    ensures
        r as int == roman_value(input@),
{
    let numerals = parse(input);
    numerals.convert_to_int()
}

/// `s` with every `Other` symbol removed, the remaining symbols in their
/// original order.
pub open spec fn strip_others(s: Seq<Numeral>) -> Seq<Numeral>
    decreases s.len(),
{
    if s.len() == 0 {
        Seq::empty()
    } else if s.last() is Other {
        strip_others(s.drop_last())
    } else {
        strip_others(s.drop_last()).push(s.last())
    }
}

proof fn lemma_scan_skips_others(s: Seq<Numeral>, max_seen: int)
    requires
        max_seen >= 0,
    ensures
        scan_value(s, max_seen) == scan_value(strip_others(s), max_seen),
    decreases s.len(),
{
    if s.len() == 0 {
    } else if s.last() is Other {
        lemma_scan_skips_others(s.drop_last(), max_seen);
    } else {
        let t = strip_others(s.drop_last()).push(s.last());
        assert(t.drop_last() =~= strip_others(s.drop_last()));
        assert(t.last() == s.last());
        let m = magnitude(s.last());
        if m > max_seen {
            lemma_scan_skips_others(s.drop_last(), m);
        } else {
            lemma_scan_skips_others(s.drop_last(), max_seen);
        }
    }
}

/// Unrecognized characters contribute nothing: a symbol of magnitude zero
/// never changes the running maximum or the sum, so dropping every `Other`
/// symbol leaves the decoded value unchanged.
pub proof fn lemma_others_ignored(s: Seq<Numeral>)
    ensures
        value_of(s) == value_of(strip_others(s)),
{
    lemma_scan_skips_others(s, 0);
}

/// Case-insensitivity: two strings whose characters agree once ASCII case is
/// folded away map to the same symbols and decode to the same value.
pub proof fn lemma_case_insensitive(a: Seq<char>, b: Seq<char>)
    requires
        a.len() == b.len(),
        forall|i: int| 0 <= i < a.len() ==> fold_upper(a[i]) == fold_upper(b[i]),
    ensures
        numerals_of(a) == numerals_of(b),
        roman_value(a) == roman_value(b),
{
    assert(numerals_of(a) =~= numerals_of(b));
}

/// Mapping is deterministic: sequences obtained from the same characters are
/// equal and decode to the same integer, however often the mapping is run.
pub proof fn lemma_mapping_idempotent(s: Seq<char>, a: Seq<Numeral>, b: Seq<Numeral>)
    requires
        a == numerals_of(s),
        b == numerals_of(s),
    ensures
        a == b,
        value_of(a) == value_of(b),
{
}

/// The empty string maps to the empty sequence, and that sequence decodes
/// to zero.
pub proof fn lemma_empty_string(s: Seq<char>)
    requires
        s.len() == 0,
    ensures
        numerals_of(s) == Seq::<Numeral>::empty(),
        roman_value(s) == 0,
{
    assert(numerals_of(s) =~= Seq::<Numeral>::empty());
}

} // verus!

//! Byte classes and the two scanning primitives of the grammar: finding a
//! literal and skipping a run of bytes of one class.

use vstd::prelude::*;

verus! {

/// The byte that ends an argument list.
pub const CLOSE_PAREN: u8 = 0x29;

/// The byte that separates two arguments.
pub const COMMA: u8 = 0x2C;

/// The byte that may stand before a method's name.
pub const TILDE: u8 = 0x7E;

/// ASCII letters and digits.
pub open spec fn is_alnum(b: u8) -> bool {
    (0x41 <= b <= 0x5A) || (0x61 <= b <= 0x7A) || (0x30 <= b <= 0x39)
}

/// Space and horizontal tab.
pub open spec fn is_blank(b: u8) -> bool {
    b == 0x20 || b == 0x09
}

/// Space, tab, line feed and carriage return.
pub open spec fn is_ws(b: u8) -> bool {
    is_blank(b) || b == 0x0A || b == 0x0D
}

/// `nom::is_alphanumeric` is taken on trust: it answers `true` exactly for
/// the bytes `A`-`Z`, `a`-`z` and `0`-`9`.
pub assume_specification[ nom::is_alphanumeric ](chr: u8) -> (r: bool)
    ensures
        r == is_alnum(chr),
;

/// `nom::is_space` is taken on trust: it answers `true` exactly for the
/// space and the horizontal tab.
pub assume_specification[ nom::is_space ](chr: u8) -> (r: bool)
    ensures
        r == is_blank(chr),
;

/// The sets of bytes that a scanner skips or captures as one run.
#[derive(Clone, Copy, Debug, PartialEq, Eq, Structural)]
pub enum ByteClass {
    /// Space, tab, line feed, carriage return.
    Whitespace,
    /// ASCII letters and digits.
    Alphanumeric,
    /// Everything but whitespace.
    Visible,
    /// Everything but whitespace, the comma and the closing parenthesis.
    Token,
    /// Everything but the comma and the closing parenthesis.
    Undelimited,
}

impl ByteClass {
    /// Whether `b` belongs to the class.
    pub open spec fn holds(self, b: u8) -> bool {
        match self {
            ByteClass::Whitespace => is_ws(b),
            ByteClass::Alphanumeric => is_alnum(b),
            ByteClass::Visible => !is_ws(b),
            ByteClass::Token => !is_ws(b) && b != COMMA && b != CLOSE_PAREN,
            ByteClass::Undelimited => b != COMMA && b != CLOSE_PAREN,
        }
    }

    /// Whether `b` belongs to the class.
    pub fn contains(self, b: u8) -> (r: bool)
        ensures
            r == self.holds(b),
    {
        match self {
            ByteClass::Whitespace => is_whitespace(b),
            ByteClass::Alphanumeric => nom::is_alphanumeric(b),
            ByteClass::Visible => !is_whitespace(b),
            ByteClass::Token => !is_whitespace(b) && b != COMMA && b != CLOSE_PAREN,
            ByteClass::Undelimited => b != COMMA && b != CLOSE_PAREN,
        }
    }
}

/// Whether `b` is a space, a tab, a line feed or a carriage return.
pub fn is_whitespace(b: u8) -> (r: bool)
    ensures
        r == is_ws(b),
{
    nom::is_space(b) || b == 0x0A || b == 0x0D
}

/// The position at which the run of `class` bytes that starts at `pos` ends:
/// `pos` itself where the byte at `pos` is not of the class or `pos` is not a
/// position of `s`.
pub open spec fn run_end(s: Seq<u8>, pos: int, class: ByteClass) -> int
    decreases s.len() - pos,
{
    if 0 <= pos < s.len() && class.holds(s[pos]) {
        run_end(s, pos + 1, class)
    } else {
        pos
    }
}

/// Whether `lit` stands in `s` at `pos`.
pub open spec fn matches_at(s: Seq<u8>, pos: int, lit: Seq<u8>) -> bool {
    0 <= pos && pos + lit.len() <= s.len() && s.subrange(pos, pos + lit.len()) == lit
}

/// The first position at or after `from` at which `lit` stands in `s`.
pub open spec fn find(s: Seq<u8>, from: int, lit: Seq<u8>) -> Option<int>
    decreases s.len() - from,
{
    if 0 <= from && from + lit.len() <= s.len() {
        if matches_at(s, from, lit) {
            Some(from)
        } else if from < s.len() {
            find(s, from + 1, lit)
        } else {
            None
        }
    } else {
        None
    }
}

/// The run of `class` bytes from `pos` is within the input, holds only bytes
/// of the class, and is maximal.
pub proof fn lemma_run_end(s: Seq<u8>, pos: int, class: ByteClass)
    requires
        0 <= pos <= s.len(),
    ensures
        pos <= run_end(s, pos, class) <= s.len(),
        forall|i: int| pos <= i < run_end(s, pos, class) ==> class.holds(#[trigger] s[i]),
        run_end(s, pos, class) < s.len() ==> !class.holds(s[run_end(s, pos, class)]),
    decreases s.len() - pos,
{
    if pos < s.len() && class.holds(s[pos]) {
        lemma_run_end(s, pos + 1, class);
    }
}

/// `find` answers with the least position at or after `from` at which the
/// literal stands, and with `None` exactly when there is none.
pub proof fn lemma_find(s: Seq<u8>, from: int, lit: Seq<u8>)
    requires
        0 <= from,
    ensures
        match find(s, from, lit) {
            Some(i) => from <= i && matches_at(s, i, lit) && forall|j: int|
                from <= j < i ==> !matches_at(s, j, lit),
            None => forall|j: int| from <= j ==> !matches_at(s, j, lit),
        },
    decreases s.len() - from,
{
    if from + lit.len() <= s.len() && !matches_at(s, from, lit) && from < s.len() {
        lemma_find(s, from + 1, lit);
    }
}

/// Skips the run of `class` bytes that starts at `pos`.
pub fn skip_run(input: &[u8], pos: usize, class: ByteClass) -> (end: usize)
    ensures
        end == run_end(input@, pos as int, class),
        pos <= end,
        pos <= input@.len() ==> end <= input@.len(),
        input@.len() <= usize::MAX,
{
    let mut i: usize = pos;
    while i < input.len() && class.contains(input[i])
        invariant
            pos <= i,
            pos <= input@.len() ==> i <= input@.len(),
            run_end(input@, pos as int, class) == run_end(input@, i as int, class),
        decreases input@.len() - i,
    {
        i = i + 1;
    }
    i
}

/// Whether `lit` stands in `input` at `pos`.
pub fn starts_with_at(input: &[u8], pos: usize, lit: &[u8]) -> (r: bool)
    ensures
        r == matches_at(input@, pos as int, lit@),
{
    if pos > input.len() || lit.len() > input.len() - pos {
        return false;
    }
    let mut k: usize = 0;
    while k < lit.len()
        invariant
            k <= lit@.len(),
            pos + lit@.len() <= input@.len() <= usize::MAX,
            forall|j: int| 0 <= j < k ==> input@[pos + j] == lit@[j],
        decreases lit@.len() - k,
    {
        if input[pos + k] != lit[k] {
            proof {
                assert(input@.subrange(pos as int, pos + lit@.len())[k as int] == input@[pos + k]);
            }
            return false;
        }
        k = k + 1;
    }
    proof {
        assert(input@.subrange(pos as int, pos + lit@.len()) =~= lit@);
    }
    true
}

/// Finds the first position at or after `from` at which `lit` stands.
pub fn find_literal(input: &[u8], from: usize, lit: &[u8]) -> (r: Option<usize>)
    ensures
        match find(input@, from as int, lit@) {
            Some(i) => r == Some(i as usize) && from <= i && i + lit@.len() <= input@.len(),
            None => r is None,
        },
        input@.len() <= usize::MAX,
{
    if from > input.len() || lit.len() > input.len() - from {
        return None;
    }
    let mut i: usize = from;
    while lit.len() <= input.len() - i
        invariant
            from <= i <= input@.len() <= usize::MAX,
            find(input@, from as int, lit@) == find(input@, i as int, lit@),
        decreases input@.len() - i,
    {
        if starts_with_at(input, i, lit) {
            return Some(i);
        }
        proof {
            if i == input@.len() {
                assert(input@.subrange(i as int, i + lit@.len()) =~= lit@);
            }
        }
        i = i + 1;
    }
    None
}

} // verus!

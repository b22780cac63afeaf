//! The lexical building blocks that the section grammars share: byte classes,
//! maximal runs, comments and pattern text.
use vstd::prelude::*;

verus! {

/// The bytes that the grammars name.
pub const TAB: u8 = 0x09;
pub const NEWLINE: u8 = 0x0a;
pub const FORM_FEED: u8 = 0x0c;
pub const CARRIAGE_RETURN: u8 = 0x0d;
pub const SPACE: u8 = 0x20;
pub const PERCENT: u8 = 0x25;
pub const STAR: u8 = 0x2a;
pub const SLASH: u8 = 0x2f;
pub const OPEN_BRACKET: u8 = 0x5b;
pub const CLOSE_BRACKET: u8 = 0x5d;
pub const UNDERSCORE: u8 = 0x5f;
pub const OPEN_BRACE: u8 = 0x7b;
pub const CLOSE_BRACE: u8 = 0x7d;

/// ASCII whitespace: space, tab, line feed, vertical tab, form feed, carriage
/// return.
pub open spec fn is_space(b: u8) -> bool {
    b == SPACE || (TAB <= b && b <= CARRIAGE_RETURN)
}

/// Whitespace that may separate tokens on one line: space and tab.
pub open spec fn is_blank(b: u8) -> bool {
    b == SPACE || b == TAB
}

/// An ASCII letter.
pub open spec fn is_alpha(b: u8) -> bool {
    (0x41 <= b && b <= 0x5a) || (0x61 <= b && b <= 0x7a)
}

/// A byte that may continue a macro name: a letter, a digit or `_`.
pub open spec fn is_name_tail(b: u8) -> bool {
    is_alpha(b) || (0x30 <= b && b <= 0x39) || b == UNDERSCORE
}

/// A byte that may start a macro name: a letter or `_`.
pub open spec fn is_name_start(b: u8) -> bool {
    is_alpha(b) || b == UNDERSCORE
}

/// The classes of bytes of which tokens are runs.
#[derive(Debug, Clone, Copy, PartialEq, Eq, Structural)]
pub enum ByteClass {
    /// An ASCII letter.
    Alpha,
    /// A letter, a digit or `_`.
    NameTail,
    /// Anything but ASCII whitespace.
    NotSpace,
    /// Space, tab, line feed or form feed.
    Gap,
    /// Anything but `]`.
    NotCloseBracket,
    /// Anything but `}`.
    NotCloseBrace,
}

/// Whether `b` belongs to class `c`.
pub open spec fn in_class(c: ByteClass, b: u8) -> bool {
    match c {
        ByteClass::Alpha => is_alpha(b),
        ByteClass::NameTail => is_name_tail(b),
        ByteClass::NotSpace => !is_space(b),
        ByteClass::Gap => b == SPACE || b == TAB || b == NEWLINE || b == FORM_FEED,
        ByteClass::NotCloseBracket => b != CLOSE_BRACKET,
        ByteClass::NotCloseBrace => b != CLOSE_BRACE,
    }
}

/// The end of the longest run of bytes of class `c` that starts at `p`
/// (`p` itself where no such byte stands at `p`).
pub open spec fn run_end(s: Seq<u8>, p: int, c: ByteClass) -> int
    decreases s.len() - p,
{
    if 0 <= p < s.len() && in_class(c, s[p]) {
        run_end(s, p + 1, c)
    } else {
        p
    }
}

/// A run ends inside the text, holds only bytes of its class, and is followed
/// by a byte outside the class or by the end of the text.
pub proof fn lemma_run_end(s: Seq<u8>, p: int, c: ByteClass)
    requires
        0 <= p <= s.len(),
    ensures
        p <= run_end(s, p, c) <= s.len(),
        forall|k: int| p <= k < run_end(s, p, c) ==> in_class(c, #[trigger] s[k]),
        run_end(s, p, c) < s.len() ==> !in_class(c, s[run_end(s, p, c)]),
    decreases s.len() - p,
{
    if p < s.len() && in_class(c, s[p]) {
        lemma_run_end(s, p + 1, c);
    }
}

/// Where the comment body that is being read from `q` closes: the index just
/// past the first `*/` at or after `q`, provided no line feed comes first.
pub open spec fn comment_close(s: Seq<u8>, q: int) -> Option<int>
    decreases s.len() - q,
{
    if q < 0 || q + 1 >= s.len() || s[q] == NEWLINE {
        None
    } else if s[q] == STAR && s[q + 1] == SLASH {
        Some(q + 2)
    } else {
        comment_close(s, q + 1)
    }
}

/// The end of the block comment that starts at `p`: `/*`, then the shortest
/// text without a line feed, then `*/`.
pub open spec fn comment_end(s: Seq<u8>, p: int) -> Option<int> {
    if 0 <= p && p + 1 < s.len() && s[p] == SLASH && s[p + 1] == STAR {
        comment_close(s, p + 2)
    } else {
        None
    }
}

/// The end of the pattern atom that starts at `p`, or `p` where none does. An
/// atom is one byte that is neither whitespace nor `[`, or a bracketed class:
/// `[`, one or more bytes other than `]`, and `]`.
pub open spec fn atom_end(s: Seq<u8>, p: int) -> int {
    if p < 0 || p >= s.len() {
        p
    } else if s[p] == OPEN_BRACKET {
        let q = run_end(s, p + 1, ByteClass::NotCloseBracket);
        if p + 1 < q < s.len() {
            q + 1
        } else {
            p
        }
    } else if is_space(s[p]) {
        p
    } else {
        p + 1
    }
}

/// The end of the longest sequence of pattern atoms that starts at `p`
/// (`p` itself where no atom starts there).
pub open spec fn pattern_end(s: Seq<u8>, p: int) -> int
    decreases s.len() - p,
{
    let e = atom_end(s, p);
    if p < e <= s.len() {
        pattern_end(s, e)
    } else {
        p
    }
}

/// Pattern text ends inside the text.
pub proof fn lemma_pattern_end_bounds(s: Seq<u8>, p: int)
    requires
        0 <= p <= s.len(),
    ensures
        p <= pattern_end(s, p) <= s.len(),
    decreases s.len() - p,
{
    let e = atom_end(s, p);
    if p < e <= s.len() {
        lemma_pattern_end_bounds(s, e);
    }
}

/// Where a comment closes is past where its body began, and inside the text.
pub proof fn lemma_comment_close_bounds(s: Seq<u8>, q: int)
    requires
        0 <= q,
    ensures
        match comment_close(s, q) {
            Some(e) => q + 2 <= e <= s.len(),
            None => true,
        },
    decreases s.len() - q,
{
    if q + 1 >= s.len() || s[q] == NEWLINE {
    } else if s[q] == STAR && s[q + 1] == SLASH {
    } else {
        lemma_comment_close_bounds(s, q + 1);
    }
}

/// Whether `b` is ASCII whitespace.
pub fn byte_is_space(b: u8) -> (r: bool)
    ensures
        r == is_space(b),
{
    b == SPACE || (TAB <= b && b <= CARRIAGE_RETURN)
}

/// Whether `b` belongs to class `c`.
pub fn byte_in_class(c: ByteClass, b: u8) -> (r: bool)
    ensures
        r == in_class(c, b),
{
    match c {
        ByteClass::Alpha => (0x41 <= b && b <= 0x5a) || (0x61 <= b && b <= 0x7a),
        ByteClass::NameTail => (0x41 <= b && b <= 0x5a) || (0x61 <= b && b <= 0x7a) || (0x30 <= b
            && b <= 0x39) || b == UNDERSCORE,
        ByteClass::NotSpace => !byte_is_space(b),
        ByteClass::Gap => b == SPACE || b == TAB || b == NEWLINE || b == FORM_FEED,
        ByteClass::NotCloseBracket => b != CLOSE_BRACKET,
        ByteClass::NotCloseBrace => b != CLOSE_BRACE,
    }
}

/// Reads the longest run of bytes of class `c` from `p` and returns its end.
pub fn scan_run(s: &[u8], p: usize, c: ByteClass) -> (e: usize)
    requires
        p <= s.len(),
    ensures
        e == run_end(s@, p as int, c),
        p <= e <= s.len(),
{
    let mut i: usize = p;
    while i < s.len() && byte_in_class(c, s[i])
        invariant
            p <= i <= s.len(),
            run_end(s@, p as int, c) == run_end(s@, i as int, c),
        decreases s.len() - i,
    {
        i += 1;
    }
    i
}

/// Reads a block comment that starts at `p` and returns its end.
pub fn scan_comment(s: &[u8], p: usize) -> (r: Option<usize>)
    requires
        p <= s.len(),
    ensures
        match r {
            Some(e) => comment_end(s@, p as int) == Some(e as int) && p + 4 <= e <= s.len(),
            None => comment_end(s@, p as int).is_none(),
        },
{
    if s.len() - p < 2 || s[p] != SLASH || s[p + 1] != STAR {
        return None;
    }
    let mut q: usize = p + 2;
    loop
        invariant
            p + 2 <= q <= s.len(),
            comment_end(s@, p as int) == comment_close(s@, q as int),
        decreases s.len() - q,
    {
        if s.len() - q < 2 || s[q] == NEWLINE {
            return None;
        }
        if s[q] == STAR && s[q + 1] == SLASH {
            return Some(q + 2);
        }
        q += 1;
    }
}

/// Reads one pattern atom from `p` and returns its end (`p` where none starts
/// there).
pub fn scan_atom(s: &[u8], p: usize) -> (e: usize)
    requires
        p <= s.len(),
    ensures
        e == atom_end(s@, p as int),
        p <= e <= s.len(),
{
    if p >= s.len() {
        p
    } else if s[p] == OPEN_BRACKET {
        let q = scan_run(s, p + 1, ByteClass::NotCloseBracket);
        if p + 1 < q && q < s.len() {
            q + 1
        } else {
            p
        }
    } else if byte_is_space(s[p]) {
        p
    } else {
        p + 1
    }
}

/// Reads the longest sequence of pattern atoms from `p` and returns its end.
pub fn scan_pattern(s: &[u8], p: usize) -> (e: usize)
    requires
        p <= s.len(),
    ensures
        e == pattern_end(s@, p as int),
        p <= e <= s.len(),
{
    let mut i: usize = p;
    loop
        invariant
            p <= i <= s.len(),
            pattern_end(s@, p as int) == pattern_end(s@, i as int),
        decreases s.len() - i,
    {
        let e = scan_atom(s, i);
        if e <= i {
            return i;
        }
        i = e;
    }
}

} // verus!

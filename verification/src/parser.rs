//! The parser: from source text to an abstract syntax tree.
//!
//! Backtracking recursive descent over the characters of the input.  The
//! grammar, lowest precedence first and left-associative at each level:
//! an expression is a sum, or exactly one comparison of two sums; a sum is
//! a left-fold of products over `+` and `-`; a product is a left-fold of
//! atoms over `*` and `/`; an atom is a number literal, an identifier, or
//! a parenthesized expression.  Statements are `let name = expr ;`,
//! `if expr [ ... ]`, `while expr [ ... ]` and `print expr ;`, and a
//! program is the word `Program`, two identifiers and a bracketed
//! statement list, consuming the entire input.
//!
//! Each parsing function returns, on success, the node it built and the
//! position just past the text it consumed.  Its contract pins both
//! directions: the node and span satisfy a specification-level grammar
//! relation over the character sequence (what a successful parse means),
//! and success itself, together with the exact extent consumed, equals a
//! deterministic specification of where each production ends (when a
//! parse is owed).  `program_parser` accepts an input if and only if
//! `spec_program_ok` holds of it.

use crate::ast::{BinaryExpr, BinaryOp, Expression, If, Let, Program, Statement, While};
use vstd::prelude::*;

verus! {

/// A syntax fault: the input does not match the grammar.  `pos` is the
/// character position at which the parse gave up.
#[derive(Debug, Clone, Copy, PartialEq, Eq, Structural)]
pub struct ParseError {
    pub pos: usize,
}

// ---------------------------------------------------------------------
// Character classes
// ---------------------------------------------------------------------

/// Whitespace that may appear, in any amount, between tokens.
pub open spec fn is_space_char(c: char) -> bool {
    c == ' ' || c == '\t' || c == '\n' || c == '\r' || c == '\u{000C}'
}

/// A decimal digit.
pub open spec fn is_digit_char(c: char) -> bool {
    '0' <= c && c <= '9'
}

/// A character that may open an identifier.
pub open spec fn is_ident_start_char(c: char) -> bool {
    ('a' <= c && c <= 'z') || ('A' <= c && c <= 'Z') || c == '_'
}

/// A character that may continue an identifier.
pub open spec fn is_ident_char(c: char) -> bool {
    is_ident_start_char(c) || is_digit_char(c)
}

fn space_char(c: char) -> (r: bool)
    ensures
        r == is_space_char(c),
{
    c == ' ' || c == '\t' || c == '\n' || c == '\r' || c == '\u{000C}'
}

fn digit_char(c: char) -> (r: bool)
    ensures
        r == is_digit_char(c),
{
    '0' <= c && c <= '9'
}

fn ident_start_char(c: char) -> (r: bool)
    ensures
        r == is_ident_start_char(c),
{
    ('a' <= c && c <= 'z') || ('A' <= c && c <= 'Z') || c == '_'
}

fn ident_char(c: char) -> (r: bool)
    ensures
        r == is_ident_char(c),
{
    ident_start_char(c) || digit_char(c)
}

// ---------------------------------------------------------------------
// Token-level specification: maximal runs
// ---------------------------------------------------------------------

/// The end of the whitespace run beginning at `pos`.
pub open spec fn ws_end(s: Seq<char>, pos: int) -> int
    decreases s.len() - pos,
{
    if 0 <= pos && pos < s.len() && is_space_char(s[pos]) {
        ws_end(s, pos + 1)
    } else {
        pos
    }
}

/// The end of the digit run beginning at `pos`.
pub open spec fn digits_end(s: Seq<char>, pos: int) -> int
    decreases s.len() - pos,
{
    if 0 <= pos && pos < s.len() && is_digit_char(s[pos]) {
        digits_end(s, pos + 1)
    } else {
        pos
    }
}

/// The end of the identifier-character run beginning at `pos`.
pub open spec fn ident_cont_end(s: Seq<char>, pos: int) -> int
    decreases s.len() - pos,
{
    if 0 <= pos && pos < s.len() && is_ident_char(s[pos]) {
        ident_cont_end(s, pos + 1)
    } else {
        pos
    }
}

/// The end of the identifier beginning exactly at `pos`, or `pos` itself
/// when no identifier starts there.
pub open spec fn ident_end(s: Seq<char>, pos: int) -> int {
    if 0 <= pos && pos < s.len() && is_ident_start_char(s[pos]) {
        ident_cont_end(s, pos + 1)
    } else {
        pos
    }
}

/// The end of the fractional part beginning at `pos`: a `.` followed by
/// at least one digit, or nothing.
pub open spec fn frac_end(s: Seq<char>, pos: int) -> int {
    if 0 <= pos && pos < s.len() && s[pos] == '.' && digits_end(s, pos + 1) > pos + 1 {
        digits_end(s, pos + 1)
    } else {
        pos
    }
}

/// The start of the exponent digits when an exponent begins at `pos`:
/// `e` or `E`, then an optional sign.
pub open spec fn exp_digits_start(s: Seq<char>, pos: int) -> int {
    if pos + 1 < s.len() && (s[pos + 1] == '+' || s[pos + 1] == '-') {
        pos + 2
    } else {
        pos + 1
    }
}

/// The end of the exponent part beginning at `pos`: `e`/`E`, an optional
/// sign and at least one digit, or nothing.
pub open spec fn exp_end(s: Seq<char>, pos: int) -> int {
    if 0 <= pos && pos < s.len() && (s[pos] == 'e' || s[pos] == 'E')
        && digits_end(s, exp_digits_start(s, pos)) > exp_digits_start(s, pos) {
        digits_end(s, exp_digits_start(s, pos))
    } else {
        pos
    }
}

/// The end of the number literal beginning exactly at `pos`, or `pos`
/// itself when no number starts there.  A number is an optional minus
/// sign, a mandatory run of digits, an optional fractional part and an
/// optional exponent part.
pub open spec fn number_end(s: Seq<char>, pos: int) -> int {
    let ip = if 0 <= pos && pos < s.len() && s[pos] == '-' {
        pos + 1
    } else {
        pos
    };
    if digits_end(s, ip) > ip {
        exp_end(s, frac_end(s, digits_end(s, ip)))
    } else {
        pos
    }
}

/// Whether a literal's stored text is, in its entirety, a well-formed
/// number.  Every literal the parser produces satisfies this.
pub open spec fn is_number_lit(t: Seq<char>) -> bool {
    t.len() > 0 && number_end(t, 0) == t.len()
}

// ---------------------------------------------------------------------
// Properties of the runs
// ---------------------------------------------------------------------

pub proof fn lemma_ws_end(s: Seq<char>, pos: int)
    requires
        0 <= pos <= s.len(),
    ensures
        pos <= ws_end(s, pos) <= s.len(),
        forall|k: int| pos <= k < ws_end(s, pos) ==> is_space_char(s[k]),
        ws_end(s, pos) < s.len() ==> !is_space_char(s[ws_end(s, pos)]),
    decreases s.len() - pos,
{
    if pos < s.len() && is_space_char(s[pos]) {
        lemma_ws_end(s, pos + 1);
    }
}

pub proof fn lemma_digits_end(s: Seq<char>, pos: int)
    requires
        0 <= pos <= s.len(),
    ensures
        pos <= digits_end(s, pos) <= s.len(),
        forall|k: int| pos <= k < digits_end(s, pos) ==> is_digit_char(s[k]),
        digits_end(s, pos) < s.len() ==> !is_digit_char(s[digits_end(s, pos)]),
    decreases s.len() - pos,
{
    if pos < s.len() && is_digit_char(s[pos]) {
        lemma_digits_end(s, pos + 1);
    }
}

pub proof fn lemma_ident_cont_end(s: Seq<char>, pos: int)
    requires
        0 <= pos <= s.len(),
    ensures
        pos <= ident_cont_end(s, pos) <= s.len(),
        forall|k: int| pos <= k < ident_cont_end(s, pos) ==> is_ident_char(s[k]),
        ident_cont_end(s, pos) < s.len() ==> !is_ident_char(s[ident_cont_end(s, pos)]),
    decreases s.len() - pos,
{
    if pos < s.len() && is_ident_char(s[pos]) {
        lemma_ident_cont_end(s, pos + 1);
    }
}

// ---------------------------------------------------------------------
// Token-level executable scanners
// ---------------------------------------------------------------------

/// Skips the whitespace run beginning at `pos`.
pub fn skip_ws(s: &str, n: usize, pos: usize) -> (r: usize)
    requires
        n == s@.len(),
        pos <= n,
    ensures
        r == ws_end(s@, pos as int),
        pos <= r <= n,
{
    let mut i = pos;
    while i < n && space_char(s.get_char(i))
        invariant
            n == s@.len(),
            pos <= i <= n,
            ws_end(s@, pos as int) == ws_end(s@, i as int),
        decreases n - i,
    {
        i = i + 1;
    }
    proof {
        lemma_ws_end(s@, i as int);
    }
    i
}

/// Scans the digit run beginning at `pos`.
fn scan_digits(s: &str, n: usize, pos: usize) -> (r: usize)
    requires
        n == s@.len(),
        pos <= n,
    ensures
        r == digits_end(s@, pos as int),
        pos <= r <= n,
{
    let mut i = pos;
    while i < n && digit_char(s.get_char(i))
        invariant
            n == s@.len(),
            pos <= i <= n,
            digits_end(s@, pos as int) == digits_end(s@, i as int),
        decreases n - i,
    {
        i = i + 1;
    }
    proof {
        lemma_digits_end(s@, i as int);
    }
    i
}

/// Parses the number literal beginning exactly at `pos` and returns its
/// text and end, or nothing when no number starts there.
pub fn number_parser(s: &str, n: usize, pos: usize) -> (r: Option<(String, usize)>)
    requires
        n == s@.len(),
        pos <= n,
    ensures
        (match r {
            Some((t, end)) => {
                &&& pos < end <= n
                &&& end == number_end(s@, pos as int)
                &&& t@ == s@.subrange(pos as int, end as int)
                &&& is_number_lit(t@)
            },
            None => number_end(s@, pos as int) == pos,
        }),
{
    let ip = if pos < n && s.get_char(pos) == '-' {
        pos + 1
    } else {
        pos
    };
    let d1 = scan_digits(s, n, ip);
    if d1 == ip {
        assert(number_end(s@, pos as int) == pos);
        return None;
    }
    // fractional part
    let d2 = if d1 < n && s.get_char(d1) == '.' {
        let f = scan_digits(s, n, d1 + 1);
        if f > d1 + 1 {
            f
        } else {
            d1
        }
    } else {
        d1
    };
    assert(d2 == frac_end(s@, d1 as int));
    // exponent part
    let d3 = if d2 < n && (s.get_char(d2) == 'e' || s.get_char(d2) == 'E') {
        let q = if d2 + 1 < n && (s.get_char(d2 + 1) == '+' || s.get_char(d2 + 1) == '-') {
            d2 + 2
        } else {
            d2 + 1
        };
        let x = scan_digits(s, n, q);
        if x > q {
            x
        } else {
            d2
        }
    } else {
        d2
    };
    assert(d3 == exp_end(s@, d2 as int));
    assert(d3 == number_end(s@, pos as int));
    let t = s.substring_char(pos, d3).to_owned();
    proof {
        lemma_number_subrange(s@, pos as int);
    }
    Some((t, d3))
}

/// Bounds of `frac_end`.
pub proof fn lemma_frac_end(s: Seq<char>, pos: int)
    requires
        0 <= pos <= s.len(),
    ensures
        pos <= frac_end(s, pos) <= s.len(),
{
    if pos < s.len() && s[pos] == '.' {
        lemma_digits_end(s, pos + 1);
    }
}

/// Bounds of `exp_end`.
pub proof fn lemma_exp_end(s: Seq<char>, pos: int)
    requires
        0 <= pos <= s.len(),
    ensures
        pos <= exp_end(s, pos) <= s.len(),
{
    if pos < s.len() && (s[pos] == 'e' || s[pos] == 'E') {
        lemma_digits_end(s, exp_digits_start(s, pos));
    }
}

/// Bounds of `number_end`.
pub proof fn lemma_number_end_bounds(s: Seq<char>, pos: int)
    requires
        0 <= pos <= s.len(),
    ensures
        pos <= number_end(s, pos) <= s.len(),
{
    let ip = if pos < s.len() && s[pos] == '-' {
        pos + 1
    } else {
        pos
    };
    lemma_digits_end(s, ip);
    let d1 = digits_end(s, ip);
    if d1 > ip {
        lemma_frac_end(s, d1);
        lemma_exp_end(s, frac_end(s, d1));
    }
}

/// A digit run lying inside the window `[pos, end)` has the same extent
/// in the cut-out text `t`, provided it ends at or before `end`.
proof fn lemma_digits_end_shift(s: Seq<char>, t: Seq<char>, pos: int, end: int, p: int)
    requires
        0 <= pos <= end <= s.len(),
        t == s.subrange(pos, end),
        pos <= p <= end,
        digits_end(s, p) <= end,
    ensures
        digits_end(t, p - pos) == digits_end(s, p) - pos,
    decreases s.len() - p,
{
    if p < end && is_digit_char(s[p]) {
        assert(t[p - pos] == s[p]);
        lemma_digits_end(s, p);
        lemma_digits_end_shift(s, t, pos, end, p + 1);
    } else if p == end {
        assert(digits_end(s, p) == p) by {
            lemma_digits_end(s, p);
        }
        assert(digits_end(t, p - pos) == p - pos);
    } else {
        assert(t[p - pos] == s[p]);
        assert(digits_end(s, p) == p);
        assert(digits_end(t, p - pos) == p - pos);
    }
}

/// A number cut out of the surrounding input is, on its own, a
/// well-formed number literal: the runs that delimit it depend only on
/// the characters between its start and its end.
proof fn lemma_number_subrange(s: Seq<char>, pos: int)
    requires
        0 <= pos <= s.len(),
        number_end(s, pos) > pos,
    ensures
        is_number_lit(s.subrange(pos, number_end(s, pos))),
{
    let end = number_end(s, pos);
    lemma_number_end_bounds(s, pos);
    let t = s.subrange(pos, end);
    let ip = if s[pos] == '-' {
        pos + 1
    } else {
        pos
    };
    let d1 = digits_end(s, ip);
    lemma_digits_end(s, ip);
    assert(d1 > ip);
    let d2 = frac_end(s, d1);
    let d3 = exp_end(s, d2);
    assert(d3 == end);
    lemma_frac_end(s, d1);
    lemma_exp_end(s, d2);
    assert(t[0] == s[pos]);
    // integer part
    assert(d1 <= end);
    lemma_digits_end_shift(s, t, pos, end, ip);
    assert(digits_end(t, ip - pos) == d1 - pos);
    // fractional part
    if d1 < s.len() && s[d1] == '.' && digits_end(s, d1 + 1) > d1 + 1 {
        assert(d2 == digits_end(s, d1 + 1));
        assert(d1 < end);
        assert(t[d1 - pos] == s[d1]);
        lemma_digits_end_shift(s, t, pos, end, d1 + 1);
        assert(frac_end(t, d1 - pos) == d2 - pos);
    } else {
        assert(d2 == d1);
        if d1 < end {
            // the exponent part must account for the rest
            assert(s[d1] == 'e' || s[d1] == 'E');
            assert(t[d1 - pos] == s[d1]);
            assert(frac_end(t, d1 - pos) == d1 - pos);
        } else {
            assert(d1 - pos == t.len());
            assert(frac_end(t, d1 - pos) == d1 - pos);
        }
    }
    // exponent part
    if d2 < s.len() && (s[d2] == 'e' || s[d2] == 'E')
        && digits_end(s, exp_digits_start(s, d2)) > exp_digits_start(s, d2) {
        let q = exp_digits_start(s, d2);
        assert(digits_end(s, q) == end);
        assert(q < end);
        assert(d2 < end);
        assert(t[d2 - pos] == s[d2]);
        if d2 + 1 < s.len() && (s[d2 + 1] == '+' || s[d2 + 1] == '-') {
            assert(q == d2 + 2);
            assert(t[d2 + 1 - pos] == s[d2 + 1]);
            assert(exp_digits_start(t, d2 - pos) == q - pos);
        } else {
            assert(q == d2 + 1);
            if d2 + 1 < end {
                assert(t[d2 + 1 - pos] == s[d2 + 1]);
            }
            assert(exp_digits_start(t, d2 - pos) == q - pos);
        }
        lemma_digits_end_shift(s, t, pos, end, q);
        assert(digits_end(t, q - pos) == end - pos);
        assert(exp_end(t, d2 - pos) == end - pos);
    } else {
        assert(d3 == d2);
        assert(d2 - pos == t.len());
        assert(exp_end(t, d2 - pos) == d2 - pos);
    }
    assert(number_end(t, 0) == end - pos);
}


// ---------------------------------------------------------------------
// Identifier token
// ---------------------------------------------------------------------

/// Scans the identifier-character run beginning at `pos`.
fn scan_ident_cont(s: &str, n: usize, pos: usize) -> (r: usize)
    requires
        n == s@.len(),
        pos <= n,
    ensures
        r == ident_cont_end(s@, pos as int),
        pos <= r <= n,
{
    let mut i = pos;
    while i < n && ident_char(s.get_char(i))
        invariant
            n == s@.len(),
            pos <= i <= n,
            ident_cont_end(s@, pos as int) == ident_cont_end(s@, i as int),
        decreases n - i,
    {
        i = i + 1;
    }
    proof {
        lemma_ident_cont_end(s@, i as int);
    }
    i
}

/// Parses the identifier beginning exactly at `pos` and returns its text
/// and end, or nothing when no identifier starts there.
fn ident_token(s: &str, n: usize, pos: usize) -> (r: Option<(String, usize)>)
    requires
        n == s@.len(),
        pos <= n,
    ensures
        (match r {
            Some((t, end)) => {
                &&& pos < end <= n
                &&& end == ident_end(s@, pos as int)
                &&& t@ == s@.subrange(pos as int, end as int)
            },
            None => ident_end(s@, pos as int) == pos,
        }),
{
    if pos < n && ident_start_char(s.get_char(pos)) {
        let end = scan_ident_cont(s, n, pos + 1);
        let t = s.substring_char(pos, end).to_owned();
        Some((t, end))
    } else {
        None
    }
}

// ---------------------------------------------------------------------
// Expression grammar relation
// ---------------------------------------------------------------------
//
// `X_matches(s, pos, e, end)` says: starting at `pos` (whitespace
// allowed first), the characters of `s` up to `end` read as the
// grammar production X, and `e` is the tree the grammar gives them.
// The executable parsers promise this relation of everything they
// return, so a caller holds a tree that truly renders the consumed
// input.

/// A number literal begins at `pos`, once leading whitespace is
/// skipped.  The expression parsers promise success on such a position.
pub open spec fn number_starts(s: Seq<char>, pos: int) -> bool {
    number_end(s, ws_end(s, pos)) > ws_end(s, pos)
}

/// An identifier begins at `pos`, once leading whitespace is skipped.
/// The expression parsers promise success on such a position.
pub open spec fn ident_starts(s: Seq<char>, pos: int) -> bool {
    ident_end(s, ws_end(s, pos)) > ws_end(s, pos)
}

/// Trigger marker for the positions bound by the grammar relation's
/// existentials.  Always true; it only names the split points so that a
/// prover can introduce and eliminate those existentials.
pub open spec fn boundary(m: int) -> bool {
    true
}

/// An atom: a number literal, an identifier, or a parenthesized
/// expression (which re-enters the full expression grammar).
pub open spec fn atom_matches(s: Seq<char>, pos: int, e: Expression, end: int) -> bool
    decreases end - pos, 0int,
{
    ||| (match e {
        Expression::Literal(t) => {
            let p = ws_end(s, pos);
            &&& end == number_end(s, p)
            &&& end > p
            &&& t@ == s.subrange(p, end)
        },
        Expression::Variable(x) => {
            let p = ws_end(s, pos);
            &&& end == ident_end(s, p)
            &&& end > p
            &&& x@ == s.subrange(p, end)
        },
        _ => false,
    })
    ||| (exists|p: int, q: int|
        {
            &&& #[trigger] boundary(p)
            &&& #[trigger] boundary(q)
            &&& pos + 1 <= p
            &&& p <= q
            &&& q + 1 <= end
            &&& p - 1 == ws_end(s, pos)
            &&& p - 1 < s.len()
            &&& s[p - 1] == '('
            &&& expr_matches(s, p, e, q)
            &&& ws_end(s, q) == end - 1
            &&& end - 1 < s.len()
            &&& s[end - 1] == ')'
        })
}

/// A product: a left-fold of atoms over `*` and `/`.
pub open spec fn product_matches(s: Seq<char>, pos: int, e: Expression, end: int) -> bool
    decreases end - pos, 1int,
{
    ||| atom_matches(s, pos, e, end)
    ||| (match e {
        Expression::Binary(b) => {
            &&& (b.op == BinaryOp::Mul || b.op == BinaryOp::Div)
            &&& (exists|m1: int, m2: int|
                {
                    &&& #[trigger] boundary(m1)
                    &&& #[trigger] boundary(m2)
                    &&& pos <= m1
                    &&& m1 < m2
                    &&& m2 < end
                    &&& product_matches(s, pos, b.lhs, m1)
                    &&& m2 == ws_end(s, m1) + 1
                    &&& ws_end(s, m1) < s.len()
                    &&& s[m2 - 1] == (if b.op == BinaryOp::Mul {
                        '*'
                    } else {
                        '/'
                    })
                    &&& atom_matches(s, m2, b.rhs, end)
                })
        },
        _ => false,
    })
}

/// A sum: a left-fold of products over `+` and `-`.
pub open spec fn sum_matches(s: Seq<char>, pos: int, e: Expression, end: int) -> bool
    decreases end - pos, 2int,
{
    ||| product_matches(s, pos, e, end)
    ||| (match e {
        Expression::Binary(b) => {
            &&& (b.op == BinaryOp::Add || b.op == BinaryOp::Sub)
            &&& (exists|m1: int, m2: int|
                {
                    &&& #[trigger] boundary(m1)
                    &&& #[trigger] boundary(m2)
                    &&& pos <= m1
                    &&& m1 < m2
                    &&& m2 < end
                    &&& sum_matches(s, pos, b.lhs, m1)
                    &&& m2 == ws_end(s, m1) + 1
                    &&& ws_end(s, m1) < s.len()
                    &&& s[m2 - 1] == (if b.op == BinaryOp::Add {
                        '+'
                    } else {
                        '-'
                    })
                    &&& product_matches(s, m2, b.rhs, end)
                })
        },
        _ => false,
    })
}

/// A full expression: a sum, or exactly one comparison of two sums.
/// `CmpL` renders as `>` and `CmpR` as `<`.  Comparisons do not chain:
/// the operands of a comparison are sums, never comparisons themselves
/// (except through parentheses, which re-enter the grammar).
pub open spec fn expr_matches(s: Seq<char>, pos: int, e: Expression, end: int) -> bool
    decreases end - pos, 3int,
{
    ||| sum_matches(s, pos, e, end)
    ||| (match e {
        Expression::Binary(b) => {
            &&& (b.op == BinaryOp::CmpL || b.op == BinaryOp::CmpR)
            &&& (exists|m1: int, m2: int|
                {
                    &&& #[trigger] boundary(m1)
                    &&& #[trigger] boundary(m2)
                    &&& pos <= m1
                    &&& m1 < m2
                    &&& m2 < end
                    &&& sum_matches(s, pos, b.lhs, m1)
                    &&& m2 == ws_end(s, m1) + 1
                    &&& ws_end(s, m1) < s.len()
                    &&& s[m2 - 1] == (if b.op == BinaryOp::CmpL {
                        '>'
                    } else {
                        '<'
                    })
                    &&& sum_matches(s, m2, b.rhs, end)
                })
        },
        _ => false,
    })
}

// ---------------------------------------------------------------------
// Deterministic extents of the expression grammar
// ---------------------------------------------------------------------
//
// The parser is deterministic, so where each production ends — and
// whether it is accepted at all — is a function of the input and the
// start position.  `spec_X_end(s, pos)` gives that extent: the
// executable parsers promise to return `Some` exactly when it is
// `Some`, ending exactly there.  Together with the grammar relation
// this pins each parser's behaviour in both directions: acceptance is
// owed, and so is the full, maximal extent.

/// Where the atom beginning at `pos` ends, or nothing when no atom
/// starts there.
pub open spec fn spec_atom_end(s: Seq<char>, pos: int) -> Option<int>
    decreases s.len() - pos, 0int,
{
    let p = ws_end(s, pos);
    if !(pos <= p && p <= s.len()) {
        None
    } else if number_end(s, p) > p {
        Some(number_end(s, p))
    } else if ident_end(s, p) > p {
        Some(ident_end(s, p))
    } else if p < s.len() && s[p] == '(' {
        match spec_expr_end(s, p + 1) {
            Some(q) => {
                if p + 1 < q && q <= s.len() {
                    if ws_end(s, q) < s.len() && s[ws_end(s, q)] == ')' {
                        Some(ws_end(s, q) + 1)
                    } else {
                        None
                    }
                } else {
                    None
                }
            },
            None => None,
        }
    } else {
        None
    }
}

/// The end of the `* atom` / `/ atom` tail continuing at `cur`.
pub open spec fn spec_product_tail(s: Seq<char>, cur: int) -> int
    decreases s.len() - cur, 1int,
{
    let p = ws_end(s, cur);
    if cur <= p && p < s.len() && (s[p] == '*' || s[p] == '/') {
        match spec_atom_end(s, p + 1) {
            Some(e2) => {
                if p + 1 < e2 && e2 <= s.len() {
                    spec_product_tail(s, e2)
                } else {
                    cur
                }
            },
            None => cur,
        }
    } else {
        cur
    }
}

/// Where the product beginning at `pos` ends, or nothing when no
/// product starts there.
pub open spec fn spec_product_end(s: Seq<char>, pos: int) -> Option<int>
    decreases s.len() - pos, 2int,
{
    match spec_atom_end(s, pos) {
        Some(c0) => {
            if pos < c0 && c0 <= s.len() {
                Some(spec_product_tail(s, c0))
            } else {
                None
            }
        },
        None => None,
    }
}

/// The end of the `+ product` / `- product` tail continuing at `cur`.
pub open spec fn spec_sum_tail(s: Seq<char>, cur: int) -> int
    decreases s.len() - cur, 3int,
{
    let p = ws_end(s, cur);
    if cur <= p && p < s.len() && (s[p] == '+' || s[p] == '-') {
        match spec_product_end(s, p + 1) {
            Some(e2) => {
                if p + 1 < e2 && e2 <= s.len() {
                    spec_sum_tail(s, e2)
                } else {
                    cur
                }
            },
            None => cur,
        }
    } else {
        cur
    }
}

/// Where the sum beginning at `pos` ends, or nothing when no sum
/// starts there.
pub open spec fn spec_sum_end(s: Seq<char>, pos: int) -> Option<int>
    decreases s.len() - pos, 4int,
{
    match spec_product_end(s, pos) {
        Some(c0) => {
            if pos < c0 && c0 <= s.len() {
                Some(spec_sum_tail(s, c0))
            } else {
                None
            }
        },
        None => None,
    }
}

/// Where the full expression beginning at `pos` ends, or nothing when
/// no expression starts there.  A comparison operator after the first
/// sum extends the expression only when a second sum follows it.
pub open spec fn spec_expr_end(s: Seq<char>, pos: int) -> Option<int>
    decreases s.len() - pos, 5int,
{
    match spec_sum_end(s, pos) {
        Some(e1) => {
            if pos < e1 && e1 <= s.len() {
                let p = ws_end(s, e1);
                if e1 <= p && p < s.len() && (s[p] == '>' || s[p] == '<') {
                    match spec_sum_end(s, p + 1) {
                        Some(e2) => Some(e2),
                        None => Some(e1),
                    }
                } else {
                    Some(e1)
                }
            } else {
                None
            }
        },
        None => None,
    }
}

// ---------------------------------------------------------------------
// Expression parsers
// ---------------------------------------------------------------------

/// Parses one atom starting at `pos` (leading whitespace allowed).
fn atom_parser(s: &str, n: usize, pos: usize) -> (r: Option<(Expression, usize)>)
    requires
        n == s@.len(),
        pos <= n,
    ensures
        (match r {
            Some((e, end)) => pos < end <= n && atom_matches(s@, pos as int, e, end as int) && Some(
                end as int,
            ) == spec_atom_end(s@, pos as int),
            None => spec_atom_end(s@, pos as int) is None,
        }),
        (number_starts(s@, pos as int) || ident_starts(s@, pos as int)) ==> r matches Some(_),
    decreases n - pos, 0int,
{
    let p = skip_ws(s, n, pos);
    if let Some((t, end)) = number_parser(s, n, p) {
        let e = Expression::Literal(t);
        assert(atom_matches(s@, pos as int, e, end as int));
        return Some((e, end));
    }
    if let Some((t, end)) = ident_token(s, n, p) {
        let e = Expression::Variable(t);
        assert(atom_matches(s@, pos as int, e, end as int));
        return Some((e, end));
    }
    if p < n && s.get_char(p) == '(' {
        match expression_parser(s, n, p + 1) {
            Some((e, q)) => {
                let r2 = skip_ws(s, n, q);
                if r2 < n && s.get_char(r2) == ')' {
                    proof {
                        let ghost pp: int = p as int + 1;
                        let ghost qq: int = q as int;
                        let ghost endv: int = r2 as int + 1;
                        assert(boundary(pp));
                        assert(boundary(qq));
                        assert(expr_matches(s@, pp, e, qq));
                        assert({
                            &&& pos as int + 1 <= pp
                            &&& pp <= qq
                            &&& qq + 1 <= endv
                            &&& pp - 1 == ws_end(s@, pos as int)
                            &&& pp - 1 < s@.len()
                            &&& s@[pp - 1] == '('
                            &&& ws_end(s@, qq) == endv - 1
                            &&& endv - 1 < s@.len()
                            &&& s@[endv - 1] == ')'
                        });
                        assert(atom_matches(s@, pos as int, e, endv));
                    }
                    Some((e, r2 + 1))
                } else {
                    None
                }
            },
            None => None,
        }
    } else {
        None
    }
}

/// Parses a product starting at `pos`: an atom, then any number of
/// `* atom` or `/ atom` tails, folded to the left.
fn product_parser(s: &str, n: usize, pos: usize) -> (r: Option<(Expression, usize)>)
    requires
        n == s@.len(),
        pos <= n,
    ensures
        (match r {
            Some((e, end)) => pos < end <= n && product_matches(s@, pos as int, e, end as int) && Some(
                end as int,
            ) == spec_product_end(s@, pos as int),
            None => spec_product_end(s@, pos as int) is None,
        }),
        (number_starts(s@, pos as int) || ident_starts(s@, pos as int)) ==> r matches Some(_),
    decreases n - pos, 1int,
{
    let (first, c0) = match atom_parser(s, n, pos) {
        Some(x) => x,
        None => {
            return None;
        },
    };
    let mut lhs = first;
    let mut cur = c0;
    loop
        invariant
            n == s@.len(),
            pos < cur <= n,
            product_matches(s@, pos as int, lhs, cur as int),
            spec_product_tail(s@, c0 as int) == spec_product_tail(s@, cur as int),
        ensures
            n == s@.len(),
            pos < cur <= n,
            product_matches(s@, pos as int, lhs, cur as int),
            spec_product_tail(s@, c0 as int) == cur as int,
        decreases n - cur,
    {
        let p = skip_ws(s, n, cur);
        if p >= n {
            proof {
                assert(spec_product_tail(s@, cur as int) == cur as int);
            }
            break;
        }
        let c = s.get_char(p);
        if c != '*' && c != '/' {
            proof {
                assert(spec_product_tail(s@, cur as int) == cur as int);
            }
            break;
        }
        match atom_parser(s, n, p + 1) {
            Some((rhs, e2)) => {
                let op = if c == '*' {
                    BinaryOp::Mul
                } else {
                    BinaryOp::Div
                };
                let ghost old_lhs = lhs;
                let ghost old_cur = cur as int;
                lhs = Expression::Binary(Box::new(BinaryExpr { op, lhs, rhs }));
                cur = e2;
                proof {
                    let ghost m1v: int = old_cur;
                    let ghost m2v: int = p as int + 1;
                    let ghost b = lhs->Binary_0;
                    assert(boundary(m1v));
                    assert(boundary(m2v));
                    assert(product_matches(s@, pos as int, b.lhs, m1v));
                    assert(atom_matches(s@, m2v, b.rhs, e2 as int));
                    assert({
                        &&& pos as int <= m1v
                        &&& m1v < m2v
                        &&& m2v < e2 as int
                        &&& m2v == ws_end(s@, m1v) + 1
                        &&& ws_end(s@, m1v) < s@.len()
                        &&& s@[m2v - 1] == (if b.op == BinaryOp::Mul {
                            '*'
                        } else {
                            '/'
                        })
                    });
                    assert(product_matches(s@, pos as int, lhs, cur as int));
                }
            },
            None => {
                proof {
                    assert(spec_product_tail(s@, cur as int) == cur as int);
                }
                break;
            },
        }
    }
    Some((lhs, cur))
}

/// Parses a sum starting at `pos`: a product, then any number of
/// `+ product` or `- product` tails, folded to the left.
fn sum_parser(s: &str, n: usize, pos: usize) -> (r: Option<(Expression, usize)>)
    requires
        n == s@.len(),
        pos <= n,
    ensures
        (match r {
            Some((e, end)) => pos < end <= n && sum_matches(s@, pos as int, e, end as int) && Some(
                end as int,
            ) == spec_sum_end(s@, pos as int),
            None => spec_sum_end(s@, pos as int) is None,
        }),
        (number_starts(s@, pos as int) || ident_starts(s@, pos as int)) ==> r matches Some(_),
    decreases n - pos, 2int,
{
    let (first, c0) = match product_parser(s, n, pos) {
        Some(x) => x,
        None => {
            return None;
        },
    };
    let mut lhs = first;
    let mut cur = c0;
    loop
        invariant
            n == s@.len(),
            pos < cur <= n,
            sum_matches(s@, pos as int, lhs, cur as int),
            spec_sum_tail(s@, c0 as int) == spec_sum_tail(s@, cur as int),
        ensures
            n == s@.len(),
            pos < cur <= n,
            sum_matches(s@, pos as int, lhs, cur as int),
            spec_sum_tail(s@, c0 as int) == cur as int,
        decreases n - cur,
    {
        let p = skip_ws(s, n, cur);
        if p >= n {
            proof {
                assert(spec_sum_tail(s@, cur as int) == cur as int);
            }
            break;
        }
        let c = s.get_char(p);
        if c != '+' && c != '-' {
            proof {
                assert(spec_sum_tail(s@, cur as int) == cur as int);
            }
            break;
        }
        match product_parser(s, n, p + 1) {
            Some((rhs, e2)) => {
                let op = if c == '+' {
                    BinaryOp::Add
                } else {
                    BinaryOp::Sub
                };
                let ghost old_lhs = lhs;
                let ghost old_cur = cur as int;
                lhs = Expression::Binary(Box::new(BinaryExpr { op, lhs, rhs }));
                cur = e2;
                proof {
                    let ghost m1v: int = old_cur;
                    let ghost m2v: int = p as int + 1;
                    let ghost b = lhs->Binary_0;
                    assert(boundary(m1v));
                    assert(boundary(m2v));
                    assert(sum_matches(s@, pos as int, b.lhs, m1v));
                    assert(product_matches(s@, m2v, b.rhs, e2 as int));
                    assert({
                        &&& pos as int <= m1v
                        &&& m1v < m2v
                        &&& m2v < e2 as int
                        &&& m2v == ws_end(s@, m1v) + 1
                        &&& ws_end(s@, m1v) < s@.len()
                        &&& s@[m2v - 1] == (if b.op == BinaryOp::Add {
                            '+'
                        } else {
                            '-'
                        })
                    });
                    assert(sum_matches(s@, pos as int, lhs, cur as int));
                }
            },
            None => {
                proof {
                    assert(spec_sum_tail(s@, cur as int) == cur as int);
                }
                break;
            },
        }
    }
    Some((lhs, cur))
}

/// Parses a full expression starting at `pos`: a sum, optionally
/// compared once against a second sum.  When an operator is present but
/// no sum follows it, the parse falls back to the bare first sum.
pub fn expression_parser(s: &str, n: usize, pos: usize) -> (r: Option<(Expression, usize)>)
    requires
        n == s@.len(),
        pos <= n,
    ensures
        (match r {
            Some((e, end)) => pos < end <= n && expr_matches(s@, pos as int, e, end as int) && Some(
                end as int,
            ) == spec_expr_end(s@, pos as int),
            None => spec_expr_end(s@, pos as int) is None,
        }),
        (number_starts(s@, pos as int) || ident_starts(s@, pos as int)) ==> r matches Some(_),
    decreases n - pos, 3int,
{
    let (lhs, e1) = match sum_parser(s, n, pos) {
        Some(x) => x,
        None => {
            return None;
        },
    };
    let p = skip_ws(s, n, e1);
    if p < n {
        let c = s.get_char(p);
        if c == '>' || c == '<' {
            match sum_parser(s, n, p + 1) {
                Some((rhs, e2)) => {
                    let op = if c == '>' {
                        BinaryOp::CmpL
                    } else {
                        BinaryOp::CmpR
                    };
                    let ghost old_lhs = lhs;
                    let e = Expression::Binary(Box::new(BinaryExpr { op, lhs, rhs }));
                    proof {
                        let ghost m1v: int = e1 as int;
                        let ghost m2v: int = p as int + 1;
                        let ghost b = e->Binary_0;
                        assert(boundary(m1v));
                    assert(boundary(m2v));
                    assert(sum_matches(s@, pos as int, b.lhs, m1v));
                        assert(sum_matches(s@, m2v, b.rhs, e2 as int));
                        assert({
                            &&& pos as int <= m1v
                            &&& m1v < m2v
                            &&& m2v < e2 as int
                            &&& m2v == ws_end(s@, m1v) + 1
                            &&& ws_end(s@, m1v) < s@.len()
                            &&& s@[m2v - 1] == (if b.op == BinaryOp::CmpL {
                                '>'
                            } else {
                                '<'
                            })
                        });
                        assert(expr_matches(s@, pos as int, e, e2 as int));
                    }
                    return Some((e, e2));
                },
                None => {
                    return Some((lhs, e1));
                },
            }
        }
    }
    Some((lhs, e1))
}

// ---------------------------------------------------------------------
// Keywords
// ---------------------------------------------------------------------

/// The characters of `w` stand verbatim at `pos`.
pub open spec fn lit_word_at(s: Seq<char>, pos: int, w: Seq<char>) -> bool {
    &&& 0 <= pos
    &&& pos + w.len() <= s.len()
    &&& s.subrange(pos, pos + w.len()) == w
}

/// The keyword `w` stands at `pos` as a whole word: verbatim, and not
/// run together with a following identifier character.
pub open spec fn kw_at(s: Seq<char>, pos: int, w: Seq<char>) -> bool {
    &&& lit_word_at(s, pos, w)
    &&& (pos + w.len() == s.len() || !is_ident_char(s[pos + w.len()]))
}

/// Tests whether the characters of `w` stand verbatim at `pos`.
fn match_lit(s: &str, n: usize, pos: usize, w: &str, m: usize) -> (r: bool)
    requires
        n == s@.len(),
        m == w@.len(),
        pos <= n,
    ensures
        r == lit_word_at(s@, pos as int, w@),
{
    if m > n - pos {
        return false;
    }
    let mut i: usize = 0;
    while i < m
        invariant
            n == s@.len(),
            m == w@.len(),
            pos + m <= n,
            i <= m,
            forall|k: int| 0 <= k < i ==> s@[pos + k] == w@[k],
        decreases m - i,
    {
        if s.get_char(pos + i) != w.get_char(i) {
            proof {
                let sub = s@.subrange(pos as int, pos as int + m);
                assert(sub[i as int] != w@[i as int]);
            }
            return false;
        }
        i = i + 1;
    }
    proof {
        assert(s@.subrange(pos as int, pos as int + m) =~= w@);
    }
    true
}

/// Tests whether the keyword `w` stands at `pos` as a whole word.
fn match_kw(s: &str, n: usize, pos: usize, w: &str, m: usize) -> (r: bool)
    requires
        n == s@.len(),
        m == w@.len(),
        pos <= n,
    ensures
        r == kw_at(s@, pos as int, w@),
{
    if !match_lit(s, n, pos, w, m) {
        return false;
    }
    if pos + m == n {
        true
    } else {
        !ident_char(s.get_char(pos + m))
    }
}

// ---------------------------------------------------------------------
// Statement grammar relation
// ---------------------------------------------------------------------

/// A `let` binding: `let name = expr ;`.
pub open spec fn let_matches(s: Seq<char>, pos: int, l: Let, end: int) -> bool {
    exists|m: int|
        {
            &&& #[trigger] boundary(m)
            &&& kw_at(s, ws_end(s, pos), "let"@)
            &&& ident_end(s, ws_end(s, ws_end(s, pos) + 3)) > ws_end(s, ws_end(s, pos) + 3)
            &&& l.variable@ == s.subrange(
                ws_end(s, ws_end(s, pos) + 3),
                ident_end(s, ws_end(s, ws_end(s, pos) + 3)),
            )
            &&& ws_end(s, ident_end(s, ws_end(s, ws_end(s, pos) + 3))) < s.len()
            &&& s[ws_end(s, ident_end(s, ws_end(s, ws_end(s, pos) + 3)))] == '='
            &&& expr_matches(
                s,
                ws_end(s, ident_end(s, ws_end(s, ws_end(s, pos) + 3))) + 1,
                l.value,
                m,
            )
            &&& ws_end(s, m) < s.len()
            &&& s[ws_end(s, m)] == ';'
            &&& end == ws_end(s, m) + 1
        }
}

/// A `print` statement: `print expr ;`.  The word `print` is matched as
/// a bare prefix, not as a delimited word, exactly as the grammar has it.
pub open spec fn print_matches(s: Seq<char>, pos: int, e: Expression, end: int) -> bool {
    exists|m: int|
        {
            &&& #[trigger] boundary(m)
            &&& lit_word_at(s, ws_end(s, pos), "print"@)
            &&& expr_matches(s, ws_end(s, pos) + 5, e, m)
            &&& ws_end(s, m) < s.len()
            &&& s[ws_end(s, m)] == ';'
            &&& end == ws_end(s, m) + 1
        }
}

/// One statement, rendered by `s` from `pos` (whitespace allowed first)
/// up to `end`.
pub open spec fn stmt_matches(s: Seq<char>, pos: int, st: Statement, end: int) -> bool
    decreases st,
{
    match st {
        Statement::Let(l) => let_matches(s, pos, *l, end),
        Statement::Print(e) => print_matches(s, pos, e, end),
        Statement::If(b) => {
            exists|mc: int, mb: int|
                {
                    &&& #[trigger] boundary(mc)
                    &&& #[trigger] boundary(mb)
                    &&& kw_at(s, ws_end(s, pos), "if"@)
                    &&& expr_matches(s, ws_end(s, pos) + 2, b.condition, mc)
                    &&& ws_end(s, mc) < s.len()
                    &&& s[ws_end(s, mc)] == '['
                    &&& stmts_upto(s, ws_end(s, mc) + 1, b.body@, mb)
                    &&& ws_end(s, mb) < s.len()
                    &&& s[ws_end(s, mb)] == ']'
                    &&& end == ws_end(s, mb) + 1
                }
        },
        Statement::While(b) => {
            exists|mc: int, mb: int|
                {
                    &&& #[trigger] boundary(mc)
                    &&& #[trigger] boundary(mb)
                    &&& kw_at(s, ws_end(s, pos), "while"@)
                    &&& expr_matches(s, ws_end(s, pos) + 5, b.condition, mc)
                    &&& ws_end(s, mc) < s.len()
                    &&& s[ws_end(s, mc)] == '['
                    &&& stmts_upto(s, ws_end(s, mc) + 1, b.body@, mb)
                    &&& ws_end(s, mb) < s.len()
                    &&& s[ws_end(s, mb)] == ']'
                    &&& end == ws_end(s, mb) + 1
                }
        },
    }
}

/// The statements of `v`, in order, rendered by `s` from `start` up to
/// `mid`.  An empty list renders nothing.
pub open spec fn stmts_upto(s: Seq<char>, start: int, v: Seq<Statement>, mid: int) -> bool
    decreases v,
{
    if v.len() == 0 {
        mid == start
    } else {
        exists|m: int|
            {
                &&& #[trigger] boundary(m)
                &&& stmts_upto(s, start, v.drop_last(), m)
                &&& stmt_matches(s, m, v.last(), mid)
            }
    }
}

/// A whole program: the word `Program` at the very start of the input
/// (no leading whitespace), two identifiers, a bracketed statement list,
/// and then nothing but whitespace to the end of the input.
pub open spec fn program_matches(s: Seq<char>, p: Program) -> bool {
    exists|mb: int|
        {
            &&& #[trigger] boundary(mb)
            &&& kw_at(s, 0, "Program"@)
            &&& ident_end(s, ws_end(s, 7)) > ws_end(s, 7)
            &&& p.namespace@ == s.subrange(ws_end(s, 7), ident_end(s, ws_end(s, 7)))
            &&& ident_end(s, ws_end(s, ident_end(s, ws_end(s, 7)))) > ws_end(
                s,
                ident_end(s, ws_end(s, 7)),
            )
            &&& p.name@ == s.subrange(
                ws_end(s, ident_end(s, ws_end(s, 7))),
                ident_end(s, ws_end(s, ident_end(s, ws_end(s, 7)))),
            )
            &&& ws_end(s, ident_end(s, ws_end(s, ident_end(s, ws_end(s, 7))))) < s.len()
            &&& s[ws_end(s, ident_end(s, ws_end(s, ident_end(s, ws_end(s, 7)))))] == '['
            &&& stmts_upto(
                s,
                ws_end(s, ident_end(s, ws_end(s, ident_end(s, ws_end(s, 7))))) + 1,
                p.body@,
                mb,
            )
            &&& ws_end(s, mb) < s.len()
            &&& s[ws_end(s, mb)] == ']'
            &&& ws_end(s, ws_end(s, mb) + 1) == s.len()
        }
}

// ---------------------------------------------------------------------
// Deterministic extents of the statement grammar
// ---------------------------------------------------------------------

/// Where the `let` binding beginning at `pos` ends, or nothing when no
/// `let` binding starts there.
pub open spec fn spec_let_end(s: Seq<char>, pos: int) -> Option<int> {
    let p = ws_end(s, pos);
    if !(pos <= p && p <= s.len() && kw_at(s, p, "let"@)) {
        None
    } else {
        let pid = ws_end(s, p + 3);
        if !(p + 3 <= pid && pid <= s.len() && ident_end(s, pid) > pid) {
            None
        } else {
            let peq = ws_end(s, ident_end(s, pid));
            if !(peq < s.len() && s[peq] == '=') {
                None
            } else {
                match spec_expr_end(s, peq + 1) {
                    Some(m) => {
                        if peq + 1 < m && m <= s.len() {
                            if ws_end(s, m) < s.len() && s[ws_end(s, m)] == ';' {
                                Some(ws_end(s, m) + 1)
                            } else {
                                None
                            }
                        } else {
                            None
                        }
                    },
                    None => None,
                }
            }
        }
    }
}

/// Where the `print` statement beginning at `pos` ends, or nothing
/// when no `print` statement starts there.
pub open spec fn spec_print_end(s: Seq<char>, pos: int) -> Option<int> {
    let p = ws_end(s, pos);
    if !(pos <= p && p <= s.len() && lit_word_at(s, p, "print"@)) {
        None
    } else {
        match spec_expr_end(s, p + 5) {
            Some(m) => {
                if p + 5 < m && m <= s.len() {
                    if ws_end(s, m) < s.len() && s[ws_end(s, m)] == ';' {
                        Some(ws_end(s, m) + 1)
                    } else {
                        None
                    }
                } else {
                    None
                }
            },
            None => None,
        }
    }
}

/// Where the statement beginning at `pos` ends, or nothing when no
/// statement starts there.
pub open spec fn spec_stmt_end(s: Seq<char>, pos: int) -> Option<int>
    decreases s.len() - pos, 0int,
{
    match spec_let_end(s, pos) {
        Some(e) => Some(e),
        None => {
            let p = ws_end(s, pos);
            if !(pos <= p && p <= s.len()) {
                None
            } else if p + 2 <= s.len() && kw_at(s, p, "if"@) {
                spec_block_end(s, p + 2)
            } else if p + 5 <= s.len() && kw_at(s, p, "while"@) {
                spec_block_end(s, p + 5)
            } else {
                spec_print_end(s, pos)
            }
        },
    }
}

/// Where the condition-and-body tail of an `if` or `while` whose
/// keyword ends at `kwend` ends, or nothing.
pub open spec fn spec_block_end(s: Seq<char>, kwend: int) -> Option<int>
    decreases s.len() - kwend, 0int,
{
    match spec_expr_end(s, kwend) {
        Some(mc) => {
            if kwend < mc && mc <= s.len() {
                let q0 = ws_end(s, mc);
                if mc <= q0 && q0 < s.len() && s[q0] == '[' {
                    spec_list_end(s, q0 + 1)
                } else {
                    None
                }
            } else {
                None
            }
        },
        None => None,
    }
}

/// Where the statement list beginning at `cur` ends — just past its
/// closing bracket — or nothing.
pub open spec fn spec_list_end(s: Seq<char>, cur: int) -> Option<int>
    decreases s.len() - cur, 1int,
{
    let q = ws_end(s, cur);
    if cur <= q && q < s.len() && s[q] == ']' {
        Some(q + 1)
    } else {
        match spec_stmt_end(s, cur) {
            Some(e2) => {
                if cur < e2 && e2 <= s.len() {
                    spec_list_end(s, e2)
                } else {
                    None
                }
            },
            None => None,
        }
    }
}

/// Whether the whole input is a program: the word `Program` at the very
/// start, two identifiers, a bracketed statement list, and whitespace
/// only to the end.  `program_parser` accepts exactly these inputs.
pub open spec fn spec_program_ok(s: Seq<char>) -> bool {
    &&& kw_at(s, 0, "Program"@)
    &&& {
        let p1 = ws_end(s, 7);
        &&& 7 <= p1 <= s.len()
        &&& ident_end(s, p1) > p1
        &&& {
            let p2 = ws_end(s, ident_end(s, p1));
            &&& ident_end(s, p1) <= p2 <= s.len()
            &&& ident_end(s, p2) > p2
            &&& {
                let q0 = ws_end(s, ident_end(s, p2));
                &&& ident_end(s, p2) <= q0
                &&& q0 < s.len()
                &&& s[q0] == '['
                &&& (match spec_list_end(s, q0 + 1) {
                    Some(endb) => endb <= s.len() && ws_end(s, endb) == s.len(),
                    None => false,
                })
            }
        }
    }
}

// ---------------------------------------------------------------------
// Statement parsers
// ---------------------------------------------------------------------

/// Parses a `let` binding starting at `pos`.
pub fn let_parser(s: &str, n: usize, pos: usize) -> (r: Option<(Let, usize)>)
    requires
        n == s@.len(),
        pos <= n,
    ensures
        (match r {
            Some((l, end)) => pos < end <= n && let_matches(s@, pos as int, l, end as int) && Some(
                end as int,
            ) == spec_let_end(s@, pos as int),
            None => spec_let_end(s@, pos as int) is None,
        }),
{
    proof {
        reveal_strlit("let");
    }
    let p = skip_ws(s, n, pos);
    if !match_kw(s, n, p, "let", 3) {
        return None;
    }
    let pid = skip_ws(s, n, p + 3);
    let (name, idend) = match ident_token(s, n, pid) {
        Some(x) => x,
        None => {
            return None;
        },
    };
    let peq = skip_ws(s, n, idend);
    if !(peq < n && s.get_char(peq) == '=') {
        return None;
    }
    let (value, m) = match expression_parser(s, n, peq + 1) {
        Some(x) => x,
        None => {
            return None;
        },
    };
    let psemi = skip_ws(s, n, m);
    if !(psemi < n && s.get_char(psemi) == ';') {
        return None;
    }
    let l = Let { variable: name, value };
    let end = psemi + 1;
    proof {
        let ghost mv: int = m as int;
        assert(boundary(mv));
        assert(expr_matches(s@, ws_end(s@, ident_end(s@, ws_end(s@, ws_end(s@, pos as int) + 3))) + 1, l.value, mv));
        assert(let_matches(s@, pos as int, l, end as int));
    }
    Some((l, end))
}

/// Parses a `print` statement starting at `pos`, returning the printed
/// expression.
pub fn print_parser(s: &str, n: usize, pos: usize) -> (r: Option<(Expression, usize)>)
    requires
        n == s@.len(),
        pos <= n,
    ensures
        (match r {
            Some((e, end)) => pos < end <= n && print_matches(s@, pos as int, e, end as int)
                && Some(end as int) == spec_print_end(s@, pos as int),
            None => spec_print_end(s@, pos as int) is None,
        }),
{
    proof {
        reveal_strlit("print");
    }
    let p = skip_ws(s, n, pos);
    if !match_lit(s, n, p, "print", 5) {
        return None;
    }
    let (e, m) = match expression_parser(s, n, p + 5) {
        Some(x) => x,
        None => {
            return None;
        },
    };
    let psemi = skip_ws(s, n, m);
    if !(psemi < n && s.get_char(psemi) == ';') {
        return None;
    }
    let end = psemi + 1;
    proof {
        let ghost mv: int = m as int;
        assert(boundary(mv));
        assert(expr_matches(s@, ws_end(s@, pos as int) + 5, e, mv));
        assert(print_matches(s@, pos as int, e, end as int));
    }
    Some((e, end))
}

/// Parses one statement starting at `pos`: a `let` binding, an `if`, a
/// `while`, or a `print`.
pub fn statement_parser(s: &str, n: usize, pos: usize) -> (r: Option<(Statement, usize)>)
    requires
        n == s@.len(),
        pos <= n,
    ensures
        (match r {
            Some((st, end)) => pos < end <= n && stmt_matches(s@, pos as int, st, end as int)
                && Some(end as int) == spec_stmt_end(s@, pos as int),
            None => spec_stmt_end(s@, pos as int) is None,
        }),
    decreases n - pos, 4int,
{
    if let Some((l, end)) = let_parser(s, n, pos) {
        let st = Statement::Let(Box::new(l));
        assert(stmt_matches(s@, pos as int, st, end as int));
        return Some((st, end));
    }
    proof {
        reveal_strlit("if");
        reveal_strlit("while");
    }
    let p = skip_ws(s, n, pos);
    if match_kw(s, n, p, "if", 2) {
        match block_tail(s, n, pos, p + 2) {
            Some((condition, body, end)) => {
                let st = Statement::If(Box::new(If { condition, body }));
                proof {
                    let ghost b = st->If_0;
                    assert(stmt_matches(s@, pos as int, st, end as int));
                }
                return Some((st, end));
            },
            None => {
                return None;
            },
        }
    }
    if match_kw(s, n, p, "while", 5) {
        match block_tail(s, n, pos, p + 5) {
            Some((condition, body, end)) => {
                let st = Statement::While(Box::new(While { condition, body }));
                assert(stmt_matches(s@, pos as int, st, end as int));
                return Some((st, end));
            },
            None => {
                return None;
            },
        }
    }
    match print_parser(s, n, pos) {
        Some((e, end)) => {
            let st = Statement::Print(e);
            assert(stmt_matches(s@, pos as int, st, end as int));
            Some((st, end))
        },
        None => None,
    }
}

/// Parses, after an `if` or `while` keyword ending at `kwend`, the
/// condition expression and the bracketed statement body.  Returns the
/// condition, the body and the position just past the closing bracket.
fn block_tail(s: &str, n: usize, pos: usize, kwend: usize) -> (r: Option<
    (Expression, Vec<Statement>, usize),
>)
    requires
        n == s@.len(),
        pos <= kwend <= n,
        pos < kwend,
    ensures
        (match r {
            Some((cond, body, end)) => {
                &&& pos < end <= n
                &&& (exists|mc: int, mb: int|
                    {
                        &&& #[trigger] boundary(mc)
                        &&& #[trigger] boundary(mb)
                        &&& expr_matches(s@, kwend as int, cond, mc)
                        &&& ws_end(s@, mc) < s@.len()
                        &&& s@[ws_end(s@, mc)] == '['
                        &&& stmts_upto(s@, ws_end(s@, mc) + 1, body@, mb)
                        &&& ws_end(s@, mb) < s@.len()
                        &&& s@[ws_end(s@, mb)] == ']'
                        &&& end == ws_end(s@, mb) + 1
                    })
                &&& Some(end as int) == spec_block_end(s@, kwend as int)
            },
            None => spec_block_end(s@, kwend as int) is None,
        }),
    decreases n - pos, 3int,
{
    let (condition, mc) = match expression_parser(s, n, kwend) {
        Some(x) => x,
        None => {
            return None;
        },
    };
    let q0 = skip_ws(s, n, mc);
    if !(q0 < n && s.get_char(q0) == '[') {
        return None;
    }
    let mut body: Vec<Statement> = Vec::new();
    let mut cur = q0 + 1;
    loop
        invariant
            n == s@.len(),
            q0 + 1 <= cur <= n,
            pos < cur,
            stmts_upto(s@, q0 as int + 1, body@, cur as int),
            q0 == ws_end(s@, mc as int),
            (q0 as int) < s@.len(),
            s@[q0 as int] == '[',
            expr_matches(s@, kwend as int, condition, mc as int),
            Some(mc as int) == spec_expr_end(s@, kwend as int),
            kwend < mc,
            (kwend as int) > pos,
            kwend <= n,
            spec_list_end(s@, q0 as int + 1) == spec_list_end(s@, cur as int),
        decreases n - cur,
    {
        let q = skip_ws(s, n, cur);
        if q < n && s.get_char(q) == ']' {
            let end = q + 1;
            proof {
                let ghost mcv: int = mc as int;
                let ghost mbv: int = cur as int;
                assert(boundary(mcv));
                assert(boundary(mbv));
                assert(stmts_upto(s@, ws_end(s@, mcv) + 1, body@, mbv));
                lemma_ws_end(s@, mc as int);
                assert(spec_list_end(s@, cur as int) == Some(q as int + 1));
                assert(spec_block_end(s@, kwend as int) == Some(end as int));
            }
            return Some((condition, body, end));
        }
        match statement_parser(s, n, cur) {
            Some((st, e2)) => {
                let ghost old_body = body@;
                let ghost old_cur: int = cur as int;
                body.push(st);
                cur = e2;
                proof {
                    assert(boundary(old_cur));
                    assert(body@.drop_last() =~= old_body);
                    assert(body@.last() == st);
                    assert(stmt_matches(s@, old_cur, body@.last(), e2 as int));
                    assert(stmts_upto(s@, q0 as int + 1, body@, cur as int));
                }
            },
            None => {
                return None;
            },
        }
    }
}

/// Parses a whole program: the word `Program`, two identifiers, a
/// bracketed statement list, and the end of the input.  Trailing text
/// that is not whitespace is a syntax fault, never silently dropped.
pub fn program_parser(s: &str) -> (r: Result<Program, ParseError>)
    ensures
        (match r {
            Ok(prog) => program_matches(s@, prog),
            Err(e) => e.pos <= s@.len(),
        }),
        r matches Ok(_) <==> spec_program_ok(s@),
{
    proof {
        reveal_strlit("Program");
    }
    let n = s.unicode_len();
    if !match_kw(s, n, 0, "Program", 7) {
        return Err(ParseError { pos: 0 });
    }
    let p1 = skip_ws(s, n, 7);
    let (namespace, e1) = match ident_token(s, n, p1) {
        Some(x) => x,
        None => {
            return Err(ParseError { pos: p1 });
        },
    };
    let p2 = skip_ws(s, n, e1);
    let (name, e2) = match ident_token(s, n, p2) {
        Some(x) => x,
        None => {
            return Err(ParseError { pos: p2 });
        },
    };
    let q0 = skip_ws(s, n, e2);
    if !(q0 < n && s.get_char(q0) == '[') {
        return Err(ParseError { pos: q0 });
    }
    let mut body: Vec<Statement> = Vec::new();
    let mut cur = q0 + 1;
    loop
        invariant
            n == s@.len(),
            q0 + 1 <= cur <= n,
            stmts_upto(s@, q0 as int + 1, body@, cur as int),
            q0 == ws_end(s@, e2 as int),
            (q0 as int) < s@.len(),
            s@[q0 as int] == '[',
            spec_list_end(s@, q0 as int + 1) == spec_list_end(s@, cur as int),
            kw_at(s@, 0, "Program"@),
            p1 == ws_end(s@, 7),
            e1 == ident_end(s@, p1 as int),
            e1 > p1,
            namespace@ == s@.subrange(p1 as int, e1 as int),
            p2 == ws_end(s@, e1 as int),
            e2 == ident_end(s@, p2 as int),
            e2 > p2,
            name@ == s@.subrange(p2 as int, e2 as int),
        decreases n - cur,
    {
        let q = skip_ws(s, n, cur);
        if q < n && s.get_char(q) == ']' {
            let tail_pos = skip_ws(s, n, q + 1);
            if tail_pos < n {
                return Err(ParseError { pos: tail_pos });
            }
            let prog = Program { namespace, name, body };
            proof {
                let ghost mbv: int = cur as int;
                assert(boundary(mbv));
                assert(stmts_upto(s@, q0 as int + 1, prog.body@, mbv));
                assert(program_matches(s@, prog));
                lemma_ws_end(s@, 7);
                lemma_ws_end(s@, e1 as int);
                lemma_ws_end(s@, e2 as int);
                assert(spec_list_end(s@, cur as int) == Some(q as int + 1));
                assert(spec_program_ok(s@));
            }
            return Ok(prog);
        }
        match statement_parser(s, n, cur) {
            Some((st, e3)) => {
                let ghost old_body = body@;
                let ghost old_cur: int = cur as int;
                body.push(st);
                cur = e3;
                proof {
                    assert(boundary(old_cur));
                    assert(body@.drop_last() =~= old_body);
                    assert(stmts_upto(s@, q0 as int + 1, body@, cur as int));
                }
            },
            None => {
                return Err(ParseError { pos: cur });
            },
        }
    }
}

// ---------------------------------------------------------------------
// Whole-input consumption
// ---------------------------------------------------------------------

/// Appending any character that is neither whitespace nor a closing
/// bracket to an input makes it match no program at all: the grammar
/// demands that after the final `]` only whitespace remains, and the
/// appended character would be its last non-whitespace character.
pub proof fn lemma_stray_character(s: Seq<char>, c: char)
    requires
        !is_space_char(c),
        c != ']',
    ensures
        forall|prog: Program| !(#[trigger] program_matches(s.push(c), prog)),
{
    let t = s.push(c);
    assert forall|prog: Program| !(#[trigger] program_matches(t, prog)) by {
        if program_matches(t, prog) {
            let mb = choose|mb: int|
                {
                    &&& #[trigger] boundary(mb)
                    &&& kw_at(t, 0, "Program"@)
                    &&& ident_end(t, ws_end(t, 7)) > ws_end(t, 7)
                    &&& prog.namespace@ == t.subrange(ws_end(t, 7), ident_end(t, ws_end(t, 7)))
                    &&& ident_end(t, ws_end(t, ident_end(t, ws_end(t, 7)))) > ws_end(
                        t,
                        ident_end(t, ws_end(t, 7)),
                    )
                    &&& prog.name@ == t.subrange(
                        ws_end(t, ident_end(t, ws_end(t, 7))),
                        ident_end(t, ws_end(t, ident_end(t, ws_end(t, 7)))),
                    )
                    &&& ws_end(t, ident_end(t, ws_end(t, ident_end(t, ws_end(t, 7))))) < t.len()
                    &&& t[ws_end(t, ident_end(t, ws_end(t, ident_end(t, ws_end(t, 7)))))] == '['
                    &&& stmts_upto(
                        t,
                        ws_end(t, ident_end(t, ws_end(t, ident_end(t, ws_end(t, 7))))) + 1,
                        prog.body@,
                        mb,
                    )
                    &&& ws_end(t, mb) < t.len()
                    &&& t[ws_end(t, mb)] == ']'
                    &&& ws_end(t, ws_end(t, mb) + 1) == t.len()
                };
            let q = ws_end(t, mb);
            assert(t[q] == ']');
            assert(t[t.len() - 1] == c);
            assert(q < t.len() - 1);
            lemma_ws_end(t, q + 1);
            assert(is_space_char(t[t.len() - 1]));
        }
    }
}

} // verus!

use vstd::prelude::*;
use vstd::string::StringSliceAdditionalSpecFns;

verus! {

// The pattern language, over the bytes of its text. Operators, loosest
// first: `andThen` (1), `or` (2), `and` (3), the postfix `for N unit` (4),
// comparisons `> < >= <= = == !=` (5), `+ -` (6), `* /` (7). Operands are
// numbers (`3`, `0.5`), identifiers, calls `f(a, b)`, a leading `-`, and
// parenthesised expressions. Spaces may stand between any two tokens.

pub open spec fn is_digit(c: u8) -> bool {
    48 <= c <= 57
}

pub open spec fn is_alpha(c: u8) -> bool {
    (65 <= c <= 90) || (97 <= c <= 122) || c == 95
}

/// The first position at or after `p` that holds no space.
pub open spec fn skip_ws(s: Seq<u8>, p: int) -> int
    decreases s.len() - p,
{
    if 0 <= p < s.len() && s[p] == 32 {
        skip_ws(s, p + 1)
    } else {
        p
    }
}

/// The end of the run of letters, digits and underscores from `p`.
pub open spec fn word_end(s: Seq<u8>, p: int) -> int
    decreases s.len() - p,
{
    if 0 <= p < s.len() && (is_alpha(s[p]) || is_digit(s[p])) {
        word_end(s, p + 1)
    } else {
        p
    }
}

/// The end of the run of digits from `p`.
pub open spec fn digits_end(s: Seq<u8>, p: int) -> int
    decreases s.len() - p,
{
    if 0 <= p < s.len() && is_digit(s[p]) {
        digits_end(s, p + 1)
    } else {
        p
    }
}

/// The end of a number from `p`: digits, then maybe a point and digits.
pub open spec fn number_end(s: Seq<u8>, p: int) -> int {
    let d = digits_end(s, p);
    if 0 <= d && d + 1 < s.len() && s[d] == 46 && is_digit(s[d + 1]) {
        digits_end(s, d + 1)
    } else {
        d
    }
}

/// Which keyword the word from `p` to `e` is: 1 `and`, 2 `or`,
/// 3 `andThen`, 4 `for`, 0 none.
pub open spec fn keyword(s: Seq<u8>, p: int, e: int) -> u8 {
    if 0 <= p && e <= s.len() && e - p == 3 && s[p] == 97 && s[p + 1] == 110 && s[p + 2] == 100 {
        1
    } else if 0 <= p && e <= s.len() && e - p == 2 && s[p] == 111 && s[p + 1] == 114 {
        2
    } else if 0 <= p && e <= s.len() && e - p == 7 && s[p] == 97 && s[p + 1] == 110 && s[p + 2]
        == 100 && s[p + 3] == 84 && s[p + 4] == 104 && s[p + 5] == 101 && s[p + 6] == 110 {
        3
    } else if 0 <= p && e <= s.len() && e - p == 3 && s[p] == 102 && s[p + 1] == 111 && s[p + 2]
        == 114 {
        4
    } else {
        0
    }
}

/// The binary operator at `p`: its level and where it ends; level 0 when
/// there is none.
pub open spec fn binop(s: Seq<u8>, p: int) -> (int, int) {
    if p < 0 || p >= s.len() {
        (0, p)
    } else {
        let c = s[p];
        let two = p + 1 < s.len() && s[p + 1] == 61;
        if is_alpha(c) {
            let k = keyword(s, p, word_end(s, p));
            if k == 3 {
                (1, word_end(s, p))
            } else if k == 2 {
                (2, word_end(s, p))
            } else if k == 1 {
                (3, word_end(s, p))
            } else {
                (0, p)
            }
        } else if c == 62 || c == 60 || c == 61 {
            if two {
                (5, p + 2)
            } else {
                (5, p + 1)
            }
        } else if c == 33 {
            if two {
                (5, p + 2)
            } else {
                (0, p)
            }
        } else if c == 43 || c == 45 {
            (6, p + 1)
        } else if c == 42 || c == 47 {
            (7, p + 1)
        } else {
            (0, p)
        }
    }
}

/// Whether `r` lies after `p`, within the text.
pub open spec fn ahead(s: Seq<u8>, p: int, r: int) -> bool {
    p < r <= s.len()
}

/// An operand from `p`, with what a call or a parenthesis holds; where it
/// ends, or `None` if there is none.
pub open spec fn unary(s: Seq<u8>, p: int) -> Option<int>
    decreases s.len() - p, 1int,
{
    let q = skip_ws(s, p);
    if p < 0 || q < p || q >= s.len() {
        None
    } else if is_digit(s[q]) {
        let e = number_end(s, q);
        if ahead(s, q, e) {
            Some(e)
        } else {
            None
        }
    } else if s[q] == 45 {
        unary(s, q + 1)
    } else if s[q] == 40 {
        match expr(s, q + 1, 1) {
            Some(e) => {
                let c = skip_ws(s, e);
                if ahead(s, q, e) && e <= c < s.len() && s[c] == 41 {
                    Some(c + 1)
                } else {
                    None
                }
            },
            None => None,
        }
    } else if is_alpha(s[q]) {
        let e = word_end(s, q);
        let r = skip_ws(s, e);
        if !ahead(s, q, e) || keyword(s, q, e) != 0 {
            None
        } else if e <= r < s.len() && s[r] == 40 {
            args(s, r + 1)
        } else {
            Some(e)
        }
    } else {
        None
    }
}

/// The arguments of a call from `p`, up to and with the closing parenthesis.
pub open spec fn args(s: Seq<u8>, p: int) -> Option<int>
    decreases s.len() - p, 3int,
{
    let q = skip_ws(s, p);
    if p < 0 || q < p || q >= s.len() {
        None
    } else if s[q] == 41 {
        Some(q + 1)
    } else {
        match expr(s, q, 1) {
            Some(e) => {
                let c = skip_ws(s, e);
                if !ahead(s, q, e) || c < e || c >= s.len() {
                    None
                } else if s[c] == 41 {
                    Some(c + 1)
                } else if s[c] == 44 {
                    args(s, c + 1)
                } else {
                    None
                }
            },
            None => None,
        }
    }
}

/// An expression from `p` whose operators are all of level `min` or more.
pub open spec fn expr(s: Seq<u8>, p: int, min: int) -> Option<int>
    decreases s.len() - p, 2int,
{
    match unary(s, p) {
        Some(e) => if p >= 0 && ahead(s, p, e) {
            tail(s, e, min)
        } else {
            None
        },
        None => None,
    }
}

/// Applies the operators of level `min` or more that follow an operand
/// ending at `p`.
pub open spec fn tail(s: Seq<u8>, p: int, min: int) -> Option<int>
    decreases s.len() - p, 0int,
{
    let q = skip_ws(s, p);
    let (prec, e) = binop(s, q);
    if p < 0 || q < p || q > s.len() {
        None
    } else if prec > 0 && prec >= min && ahead(s, q, e) {
        match expr(s, e, prec + 1) {
            Some(r) => if ahead(s, p, r) {
                tail(s, r, min)
            } else {
                None
            },
            None => None,
        }
    } else if min <= 4 && q < s.len() && is_alpha(s[q]) && keyword(s, q, word_end(s, q)) == 4 {
        let n = skip_ws(s, word_end(s, q));
        if n < s.len() && is_digit(s[n]) {
            let u = skip_ws(s, number_end(s, n));
            let ue = word_end(s, u);
            if u < s.len() && is_alpha(s[u]) && keyword(s, u, ue) == 0 && ahead(s, p, ue) {
                tail(s, ue, min)
            } else {
                None
            }
        } else {
            None
        }
    } else {
        Some(p)
    }
}

/// Whether the whole text is one expression.
pub open spec fn accepts(s: Seq<u8>) -> bool {
    match expr(s, 0, 1) {
        Some(e) => skip_ws(s, e) == s.len(),
        None => false,
    }
}

/// `r` is the exec form of the spec result `o`.
pub open spec fn same_end(r: Option<usize>, o: Option<int>) -> bool {
    match r {
        Some(e) => o == Some(e as int),
        None => o is None,
    }
}

fn digit(c: u8) -> (r: bool)
    ensures
        r == is_digit(c),
{
    48 <= c && c <= 57
}

fn alpha(c: u8) -> (r: bool)
    ensures
        r == is_alpha(c),
{
    (65 <= c && c <= 90) || (97 <= c && c <= 122) || c == 95
}

fn skip_spaces(b: &[u8], p: usize) -> (r: usize)
    requires
        p <= b@.len(),
    ensures
        r == skip_ws(b@, p as int),
        p <= r <= b@.len(),
{
    let mut i = p;
    while i < b.len() && b[i] == 32
        invariant
            p <= i <= b@.len(),
            skip_ws(b@, i as int) == skip_ws(b@, p as int),
        decreases b@.len() - i,
    {
        i = i + 1;
    }
    i
}

fn word_stop(b: &[u8], p: usize) -> (r: usize)
    requires
        p <= b@.len(),
    ensures
        r == word_end(b@, p as int),
        p <= r <= b@.len(),
{
    let mut i = p;
    while i < b.len() && (alpha(b[i]) || digit(b[i]))
        invariant
            p <= i <= b@.len(),
            word_end(b@, i as int) == word_end(b@, p as int),
        decreases b@.len() - i,
    {
        i = i + 1;
    }
    i
}

fn digits_stop(b: &[u8], p: usize) -> (r: usize)
    requires
        p <= b@.len(),
    ensures
        r == digits_end(b@, p as int),
        p <= r <= b@.len(),
{
    let mut i = p;
    while i < b.len() && digit(b[i])
        invariant
            p <= i <= b@.len(),
            digits_end(b@, i as int) == digits_end(b@, p as int),
        decreases b@.len() - i,
    {
        i = i + 1;
    }
    i
}

fn number_stop(b: &[u8], p: usize) -> (r: usize)
    requires
        p <= b@.len(),
    ensures
        r == number_end(b@, p as int),
        p <= r <= b@.len(),
{
    let d = digits_stop(b, p);
    if d < b.len() && d + 1 < b.len() && b[d] == 46 && digit(b[d + 1]) {
        digits_stop(b, d + 1)
    } else {
        d
    }
}

fn keyword_at(b: &[u8], p: usize, e: usize) -> (r: u8)
    requires
        p <= e <= b@.len(),
    ensures
        r == keyword(b@, p as int, e as int),
{
    let n = e - p;
    if n == 3 && b[p] == 97 && b[p + 1] == 110 && b[p + 2] == 100 {
        1
    } else if n == 2 && b[p] == 111 && b[p + 1] == 114 {
        2
    } else if n == 7 && b[p] == 97 && b[p + 1] == 110 && b[p + 2] == 100 && b[p + 3] == 84 && b[p
        + 4] == 104 && b[p + 5] == 101 && b[p + 6] == 110 {
        3
    } else if n == 3 && b[p] == 102 && b[p + 1] == 111 && b[p + 2] == 114 {
        4
    } else {
        0
    }
}

fn binop_at(b: &[u8], p: usize) -> (r: (u8, usize))
    requires
        p <= b@.len(),
    ensures
        (r.0 as int, r.1 as int) == binop(b@, p as int),
        r.1 <= b@.len(),
{
    if p >= b.len() {
        return (0, p);
    }
    let c = b[p];
    let two = p + 1 < b.len() && b[p + 1] == 61;
    if alpha(c) {
        let e = word_stop(b, p);
        let k = keyword_at(b, p, e);
        if k == 3 {
            (1, e)
        } else if k == 2 {
            (2, e)
        } else if k == 1 {
            (3, e)
        } else {
            (0, p)
        }
    } else if c == 62 || c == 60 || c == 61 {
        if two {
            (5, p + 2)
        } else {
            (5, p + 1)
        }
    } else if c == 33 {
        if two {
            (5, p + 2)
        } else {
            (0, p)
        }
    } else if c == 43 || c == 45 {
        (6, p + 1)
    } else if c == 42 || c == 47 {
        (7, p + 1)
    } else {
        (0, p)
    }
}

fn parse_unary(b: &[u8], p: usize) -> (r: Option<usize>)
    requires
        p <= b@.len(),
    ensures
        same_end(r, unary(b@, p as int)),
    decreases b@.len() - p, 1int,
{
    let q = skip_spaces(b, p);
    if q >= b.len() {
        None
    } else if digit(b[q]) {
        let e = number_stop(b, q);
        if q < e {
            Some(e)
        } else {
            None
        }
    } else if b[q] == 45 {
        parse_unary(b, q + 1)
    } else if b[q] == 40 {
        match parse_expr(b, q + 1, 1) {
            Some(e) => {
                if q < e && e <= b.len() {
                    let c = skip_spaces(b, e);
                    if c < b.len() && b[c] == 41 {
                        Some(c + 1)
                    } else {
                        None
                    }
                } else {
                    None
                }
            },
            None => None,
        }
    } else if alpha(b[q]) {
        let e = word_stop(b, q);
        if e <= q || keyword_at(b, q, e) != 0 {
            None
        } else {
            let r = skip_spaces(b, e);
            if r < b.len() && b[r] == 40 {
                parse_args(b, r + 1)
            } else {
                Some(e)
            }
        }
    } else {
        None
    }
}

fn parse_args(b: &[u8], p: usize) -> (r: Option<usize>)
    requires
        p <= b@.len(),
    ensures
        same_end(r, args(b@, p as int)),
    decreases b@.len() - p, 3int,
{
    let q = skip_spaces(b, p);
    if q >= b.len() {
        None
    } else if b[q] == 41 {
        Some(q + 1)
    } else {
        match parse_expr(b, q, 1) {
            Some(e) => {
                if e <= q || e > b.len() {
                    None
                } else {
                    let c = skip_spaces(b, e);
                    if c >= b.len() {
                        None
                    } else if b[c] == 41 {
                        Some(c + 1)
                    } else if b[c] == 44 {
                        parse_args(b, c + 1)
                    } else {
                        None
                    }
                }
            },
            None => None,
        }
    }
}

fn parse_expr(b: &[u8], p: usize, min: u8) -> (r: Option<usize>)
    requires
        p <= b@.len(),
    ensures
        same_end(r, expr(b@, p as int, min as int)),
    decreases b@.len() - p, 2int,
{
    match parse_unary(b, p) {
        Some(e) => {
            if p < e && e <= b.len() {
                parse_tail(b, e, min)
            } else {
                None
            }
        },
        None => None,
    }
}

fn parse_tail(b: &[u8], p: usize, min: u8) -> (r: Option<usize>)
    requires
        p <= b@.len(),
    ensures
        same_end(r, tail(b@, p as int, min as int)),
    decreases b@.len() - p, 0int,
{
    let q = skip_spaces(b, p);
    let (prec, e) = binop_at(b, q);
    if prec > 0 && prec >= min && q < e {
        match parse_expr(b, e, prec + 1) {
            Some(r) => {
                if p < r && r <= b.len() {
                    parse_tail(b, r, min)
                } else {
                    None
                }
            },
            None => None,
        }
    } else if min <= 4 && q < b.len() && alpha(b[q]) && keyword_at(b, q, word_stop(b, q)) == 4 {
        let n = skip_spaces(b, word_stop(b, q));
        if n < b.len() && digit(b[n]) {
            let u = skip_spaces(b, number_stop(b, n));
            let ue = word_stop(b, u);
            if u < b.len() && alpha(b[u]) && keyword_at(b, u, ue) == 0 && p < ue {
                parse_tail(b, ue, min)
            } else {
                None
            }
        } else {
            None
        }
    } else {
        Some(p)
    }
}

/// Whether `text` is a well-formed pattern of the language.
pub fn parse_pattern(text: &str) -> (r: bool)
    ensures
        r == accepts(text.spec_bytes()),
{
    let b = text.as_bytes();
    match parse_expr(b, 0, 1) {
        Some(e) => e <= b.len() && skip_spaces(b, e) == b.len(),
        None => false,
    }
}

} // verus!

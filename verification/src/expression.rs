use vstd::prelude::*;

use crate::access_policy::{AccessPolicy, ApV};
use crate::attribute::AttrV;
use crate::error::Error;
use crate::text::chars_to_string;

verus! {

// ------------------------------------------------------------------
// The textual grammar of access policies:
//
//   literal := AXIS "::" NAME
//   expr    := literal | "(" expr ")" | expr "&&" expr | expr "||" expr
//
// Axis and attribute names may contain internal spaces but never the
// substrings `::`, `&&`, `||`, `(` or `)`.
//
// The parser has a deliberate, non-standard precedence rule: scanning left
// to right outside parentheses, the first operator found becomes the root
// connective, its left operand is the text before it and its right operand
// is the entire remainder, parsed recursively as one sub-expression. So
// `A && B || C` parses as `And(A, Or(B, C))`.
// ------------------------------------------------------------------

/// Index of the first non-space character at or after `i`.
pub open spec fn skip_spaces(s: Seq<char>, i: int) -> int
    decreases s.len() - i,
{
    if i < 0 || i >= s.len() {
        i
    } else if s[i] != ' ' {
        i
    } else {
        skip_spaces(s, i + 1)
    }
}

pub proof fn lemma_skip_spaces_bounds(s: Seq<char>, i: int)
    requires
        0 <= i <= s.len(),
    ensures
        i <= skip_spaces(s, i) <= s.len(),
        i < s.len() && s[i] == ' ' ==> skip_spaces(s, i) > i,
    decreases s.len() - i,
{
    if i < s.len() && s[i] == ' ' {
        lemma_skip_spaces_bounds(s, i + 1);
    }
}

/// Whether a two-character separator token (`::`, `&&` or `||`) starts at
/// position `i`.
pub open spec fn is_sep2(s: Seq<char>, i: int) -> bool {
    &&& 0 <= i
    &&& i + 2 <= s.len()
    &&& ((s[i] == ':' && s[i + 1] == ':') || (s[i] == '&' && s[i + 1] == '&') || (s[i] == '|'
        && s[i + 1] == '|'))
}

/// Whether `c` is a parenthesis.
pub open spec fn is_paren(c: char) -> bool {
    c == '(' || c == ')'
}

/// Whitespace normalization from position `i` on: spaces adjacent to a
/// separator token, a parenthesis or either end of the text are dropped,
/// spaces between ordinary characters are kept.
pub open spec fn san_from(s: Seq<char>, i: int) -> Seq<char>
    decreases s.len() - i,
    when 0 <= i <= s.len()
    via san_from_decreases
{
    if i >= s.len() {
        Seq::empty()
    } else if is_sep2(s, i) {
        s.subrange(i, i + 2) + san_from(s, skip_spaces(s, i + 2))
    } else if is_paren(s[i]) {
        seq![s[i]] + san_from(s, skip_spaces(s, i + 1))
    } else if s[i] == ' ' {
        let k = skip_spaces(s, i);
        if k >= s.len() {
            Seq::empty()
        } else if is_sep2(s, k) || is_paren(s[k]) {
            san_from(s, k)
        } else {
            s.subrange(i, k) + san_from(s, k)
        }
    } else {
        seq![s[i]] + san_from(s, i + 1)
    }
}

#[via_fn]
proof fn san_from_decreases(s: Seq<char>, i: int) {
    if 0 <= i <= s.len() {
        lemma_skip_spaces_bounds(s, i);
        if i + 1 <= s.len() {
            lemma_skip_spaces_bounds(s, i + 1);
        }
        if i + 2 <= s.len() {
            lemma_skip_spaces_bounds(s, i + 2);
        }
    }
}

/// Whitespace normalization of a whole expression text.
pub open spec fn san(s: Seq<char>) -> Seq<char> {
    san_from(s, skip_spaces(s, 0))
}

pub proof fn lemma_san_from_len(s: Seq<char>, i: int)
    requires
        0 <= i <= s.len(),
    ensures
        san_from(s, i).len() <= s.len() - i,
    decreases s.len() - i,
{
    lemma_skip_spaces_bounds(s, i);
    if i >= s.len() {
    } else if is_sep2(s, i) {
        lemma_skip_spaces_bounds(s, i + 2);
        lemma_san_from_len(s, skip_spaces(s, i + 2));
    } else if is_paren(s[i]) {
        lemma_skip_spaces_bounds(s, i + 1);
        lemma_san_from_len(s, skip_spaces(s, i + 1));
    } else if s[i] == ' ' {
        let k = skip_spaces(s, i);
        if k < s.len() {
            lemma_san_from_len(s, k);
        }
    } else {
        lemma_san_from_len(s, i + 1);
    }
}

/// The normalized text is never longer than the input.
pub proof fn lemma_san_len(s: Seq<char>)
    ensures
        san(s).len() <= s.len(),
{
    lemma_skip_spaces_bounds(s, 0);
    lemma_san_from_len(s, skip_spaces(s, 0));
}

/// First position at or after `i` where the character `c` occurs doubled.
pub open spec fn find2_from(s: Seq<char>, c: char, i: int) -> Option<int>
    decreases s.len() - i,
{
    if i < 0 || i + 2 > s.len() {
        None
    } else if s[i] == c && s[i + 1] == c {
        Some(i)
    } else {
        find2_from(s, c, i + 1)
    }
}

/// First position at or after `i` where `&&` or `||` starts: the root
/// operator candidate of the precedence rule.
pub open spec fn find_op_from(s: Seq<char>, i: int) -> Option<int>
    decreases s.len() - i,
{
    if i < 0 || i + 2 > s.len() {
        None
    } else if (s[i] == '&' && s[i + 1] == '&') || (s[i] == '|' && s[i + 1] == '|') {
        Some(i)
    } else {
        find_op_from(s, i + 1)
    }
}

pub proof fn lemma_find_op_from_bounds(s: Seq<char>, i: int)
    requires
        0 <= i,
    ensures
        find_op_from(s, i) matches Some(p) ==> i <= p && p + 2 <= s.len(),
    decreases s.len() - i,
{
    if !(i + 2 > s.len()) && !((s[i] == '&' && s[i + 1] == '&') || (s[i] == '|' && s[i + 1]
        == '|')) {
        lemma_find_op_from_bounds(s, i + 1);
    }
}

/// Position where the running parenthesis depth, starting at `count`, first
/// goes negative: the closing parenthesis matching an already consumed
/// opening one.
pub open spec fn find_close_from(s: Seq<char>, i: int, count: int) -> Option<int>
    decreases s.len() - i,
{
    if i < 0 || i >= s.len() {
        None
    } else {
        let c2 = if s[i] == '(' {
            count + 1
        } else if s[i] == ')' {
            count - 1
        } else {
            count
        };
        if c2 < 0 {
            Some(i)
        } else {
            find_close_from(s, i + 1, c2)
        }
    }
}

pub proof fn lemma_find_close_from_bounds(s: Seq<char>, i: int, count: int)
    requires
        0 <= i,
    ensures
        find_close_from(s, i, count) matches Some(p) ==> i <= p < s.len(),
    decreases s.len() - i,
{
    if i < s.len() {
        let c2 = if s[i] == '(' {
            count + 1
        } else if s[i] == ')' {
            count - 1
        } else {
            count
        };
        if c2 >= 0 {
            lemma_find_close_from_bounds(s, i + 1, c2);
        }
    }
}

/// Splits a normalized text at `p` into a left part and, if anything
/// follows, the two-character operator token and the remainder. A closing
/// parenthesis at `p` is skipped before the operator is read. `None` is a
/// syntax error: the operator would run past the end of the text.
pub open spec fn spec_decompose(s: Seq<char>, p: int) -> Option<
    (Seq<char>, Option<(Seq<char>, Seq<char>)>),
> {
    if p < 0 || p > s.len() {
        None
    } else if p == s.len() {
        Some((s.subrange(0, p), None))
    } else {
        let q = if s[p] == ')' {
            p + 1
        } else {
            p
        };
        if q == s.len() {
            Some((s.subrange(0, p), None))
        } else if q + 2 > s.len() {
            None
        } else {
            Some((s.subrange(0, p), Some((s.subrange(q, q + 2), s.subrange(q + 2, s.len() as int)))))
        }
    }
}

/// A literal `AXIS::NAME`: exactly one `::`, both sides non-empty.
pub open spec fn spec_parse_literal(s: Seq<char>) -> Option<AttrV> {
    match find2_from(s, ':', 0) {
        None => None,
        Some(k) => {
            let axis = s.subrange(0, k);
            let name = s.subrange(k + 2, s.len() as int);
            if axis.len() == 0 || name.len() == 0 || find2_from(name, ':', 0) is Some {
                None
            } else {
                Some(AttrV { axis, name })
            }
        },
    }
}

/// Spec-level parse errors: a syntax violation, or an unsupported operator
/// token carrying its text.
pub enum PErrV {
    Syntax,
    Op(Seq<char>),
}

/// Combines the two operands with the operator token; parse errors of the
/// left operand win over those of the right, which win over an unsupported
/// operator.
pub open spec fn combine(
    l: Result<ApV, PErrV>,
    op: Seq<char>,
    r: Result<ApV, PErrV>,
) -> Result<ApV, PErrV> {
    match l {
        Err(e) => Err(e),
        Ok(lv) => match r {
            Err(e) => Err(e),
            Ok(rv) => if op == seq!['&', '&'] {
                Ok(ApV::And(Box::new(lv), Box::new(rv)))
            } else if op == seq!['|', '|'] {
                Ok(ApV::Or(Box::new(lv), Box::new(rv)))
            } else {
                Err(PErrV::Op(op))
            },
        },
    }
}

/// The parse function of the textual grammar, mirroring the executable
/// parser exactly: normalize spaces, require a `::`, then either recurse
/// into a leading parenthesized group, split at the first operator (which
/// takes the whole remainder as its right operand), or read one literal.
pub open spec fn spec_parse_expr(s: Seq<char>) -> Result<ApV, PErrV>
    decreases s.len(),
    when true
    via spec_parse_expr_decreases
{
    let t = san(s);
    if find2_from(t, ':', 0) is None {
        Err(PErrV::Syntax)
    } else if t.len() > 0 && t[0] == '(' {
        let u = t.subrange(1, t.len() as int);
        match find_close_from(u, 0, 0) {
            None => Err(PErrV::Syntax),
            Some(m) => match spec_decompose(u, m) {
                None => Err(PErrV::Syntax),
                Some((left, None)) => spec_parse_expr(left),
                Some((left, Some((op, right)))) => combine(
                    spec_parse_expr(left),
                    op,
                    spec_parse_expr(right),
                ),
            },
        }
    } else {
        let pos = find_op_from(t, 0);
        if pos is None || pos.unwrap() == 0 {
            match spec_parse_literal(t) {
                Some(a) => Ok(ApV::Attr(a)),
                None => Err(PErrV::Syntax),
            }
        } else {
            match spec_decompose(t, pos.unwrap()) {
                None => Err(PErrV::Syntax),
                Some((left, None)) => spec_parse_expr(left),
                Some((left, Some((op, right)))) => combine(
                    spec_parse_expr(left),
                    op,
                    spec_parse_expr(right),
                ),
            }
        }
    }
}

#[via_fn]
proof fn spec_parse_expr_decreases(s: Seq<char>) {
    lemma_san_len(s);
    let t = san(s);
    if t.len() > 0 && t[0] == '(' {
        let u = t.subrange(1, t.len() as int);
        lemma_find_close_from_bounds(u, 0, 0);
    }
    lemma_find_op_from_bounds(t, 0);
}


// ------------------------------------------------------------------
// Executable parser.
// ------------------------------------------------------------------

/// Index of the first non-space character at or after `i`.
fn skip_spaces_exec(v: &Vec<char>, i: usize) -> (r: usize)
    requires
        i <= v.len(),
    ensures
        r == skip_spaces(v@, i as int),
        i <= r <= v.len(),
        i < v.len() && v@[i as int] == ' ' ==> r > i,
{
    let mut cur: usize = i;
    loop
        invariant
            i <= cur <= v.len(),
            skip_spaces(v@, i as int) == skip_spaces(v@, cur as int),
        ensures
            i <= cur <= v.len(),
            cur == skip_spaces(v@, i as int),
        decreases v.len() - cur,
    {
        if cur >= v.len() {
            break;
        }
        if v[cur] != ' ' {
            break;
        }
        cur = cur + 1;
    }
    proof {
        lemma_skip_spaces_bounds(v@, i as int);
    }
    cur
}

/// Copy of the characters of `v` between `a` and `b`.
fn subvec(v: &Vec<char>, a: usize, b: usize) -> (r: Vec<char>)
    requires
        a <= b <= v.len(),
    ensures
        r@ == v@.subrange(a as int, b as int),
{
    let mut out: Vec<char> = Vec::new();
    let mut i: usize = a;
    while i < b
        invariant
            a <= i <= b <= v.len(),
            out@ =~= v@.subrange(a as int, i as int),
        decreases b - i,
    {
        out.push(v[i]);
        i = i + 1;
    }
    out
}

/// Whitespace normalization, from position `i` on.
fn sanitize_from(v: &Vec<char>, i: usize) -> (r: Vec<char>)
    requires
        i <= v.len(),
    ensures
        r@ == san_from(v@, i as int),
    decreases v.len() - i,
{
    if i >= v.len() {
        return Vec::new();
    }
    let sep2 = i < v.len() && i + 1 < v.len() && ((v[i] == ':' && v[i + 1] == ':') || (v[i] == '&'
        && v[i + 1] == '&') || (v[i] == '|' && v[i + 1] == '|'));
    if sep2 {
        let j = skip_spaces_exec(v, i + 2);
        let mut out: Vec<char> = Vec::new();
        out.push(v[i]);
        out.push(v[i + 1]);
        let mut rest = sanitize_from(v, j);
        out.append(&mut rest);
        proof {
            assert(out@ =~= v@.subrange(i as int, i + 2) + san_from(v@, j as int));
        }
        return out;
    }
    if v[i] == '(' || v[i] == ')' {
        let j = skip_spaces_exec(v, i + 1);
        let mut out: Vec<char> = Vec::new();
        out.push(v[i]);
        let mut rest = sanitize_from(v, j);
        out.append(&mut rest);
        proof {
            assert(out@ =~= seq![v@[i as int]] + san_from(v@, j as int));
        }
        return out;
    }
    if v[i] == ' ' {
        let k = skip_spaces_exec(v, i);
        if k >= v.len() {
            return Vec::new();
        }
        let sep_at_k = (k < v.len() && k + 1 < v.len() && ((v[k] == ':' && v[k + 1] == ':') || (
        v[k] == '&' && v[k + 1] == '&') || (v[k] == '|' && v[k + 1] == '|'))) || v[k] == '(' || v[k]
            == ')';
        if sep_at_k {
            return sanitize_from(v, k);
        }
        let mut out = subvec(v, i, k);
        let mut rest = sanitize_from(v, k);
        out.append(&mut rest);
        proof {
            assert(out@ =~= v@.subrange(i as int, k as int) + san_from(v@, k as int));
        }
        return out;
    }
    let mut out: Vec<char> = Vec::new();
    out.push(v[i]);
    let mut rest = sanitize_from(v, i + 1);
    out.append(&mut rest);
    proof {
        assert(out@ =~= seq![v@[i as int]] + san_from(v@, i + 1));
    }
    out
}

/// Whitespace normalization of a whole expression text.
fn sanitize(v: &Vec<char>) -> (r: Vec<char>)
    ensures
        r@ == san(v@),
{
    let j = skip_spaces_exec(v, 0);
    sanitize_from(v, j)
}

/// First position at or after `i` where `c` occurs doubled.
fn find2_exec(v: &Vec<char>, c: char, i: usize) -> (r: Option<usize>)
    requires
        i <= v.len(),
    ensures
        match r {
            Some(p) => find2_from(v@, c, i as int) == Some(p as int) && i <= p && p + 2 <= v.len(),
            None => find2_from(v@, c, i as int) is None,
        },
{
    let mut cur: usize = i;
    loop
        invariant
            i <= cur,
            find2_from(v@, c, i as int) == find2_from(v@, c, cur as int),
        ensures
            match find2_from(v@, c, i as int) {
                Some(p) => i <= cur && p == cur && cur + 2 <= v.len(),
                None => true,
            },
            find2_from(v@, c, i as int) is Some <==> cur + 2 <= v.len(),
        decreases v.len() - cur,
    {
        if !(cur < v.len() && cur + 1 < v.len()) {
            break;
        }
        if v[cur] == c && v[cur + 1] == c {
            break;
        }
        cur = cur + 1;
    }
    if cur < v.len() && cur + 1 < v.len() {
        Some(cur)
    } else {
        None
    }
}

/// First position where `&&` or `||` starts.
fn find_op_exec(v: &Vec<char>) -> (r: Option<usize>)
    ensures
        match r {
            Some(p) => find_op_from(v@, 0) == Some(p as int) && p + 2 <= v.len(),
            None => find_op_from(v@, 0) is None,
        },
{
    let mut cur: usize = 0;
    loop
        invariant
            0 <= cur,
            find_op_from(v@, 0) == find_op_from(v@, cur as int),
        ensures
            match find_op_from(v@, 0) {
                Some(p) => p == cur && cur + 2 <= v.len(),
                None => true,
            },
            find_op_from(v@, 0) is Some <==> cur + 2 <= v.len(),
        decreases v.len() - cur,
    {
        if !(cur < v.len() && cur + 1 < v.len()) {
            break;
        }
        if (v[cur] == '&' && v[cur + 1] == '&') || (v[cur] == '|' && v[cur + 1] == '|') {
            break;
        }
        cur = cur + 1;
    }
    if cur < v.len() && cur + 1 < v.len() {
        Some(cur)
    } else {
        None
    }
}

/// Position of the closing parenthesis matching an already consumed opening
/// one, by depth counting.
fn find_close_exec(v: &Vec<char>) -> (r: Option<usize>)
    ensures
        match r {
            Some(p) => find_close_from(v@, 0, 0) == Some(p as int) && p < v.len(),
            None => find_close_from(v@, 0, 0) is None,
        },
{
    let mut cur: usize = 0;
    let mut count: usize = 0;
    loop
        invariant
            0 <= cur,
            count <= cur,
            find_close_from(v@, 0, 0) == find_close_from(v@, cur as int, count as int),
        ensures
            match find_close_from(v@, 0, 0) {
                Some(p) => p == cur && cur < v.len(),
                None => cur >= v.len(),
            },
        decreases v.len() - cur,
    {
        if cur >= v.len() {
            break;
        }
        if v[cur] == '(' {
            count = count + 1;
        } else if v[cur] == ')' {
            if count == 0 {
                proof {
                    assert(find_close_from(v@, cur as int, 0) == Some(cur as int));
                }
                break;
            }
            count = count - 1;
        }
        cur = cur + 1;
    }
    if cur < v.len() {
        Some(cur)
    } else {
        None
    }
}

/// Splits a normalized text at `p` into left part, operator token and
/// remainder, as `spec_decompose` describes.
fn decompose_exec(v: &Vec<char>, p: usize) -> (r: Option<
    (Vec<char>, Option<(Vec<char>, Vec<char>)>),
>)
    requires
        p <= v.len(),
    ensures
        match r {
            None => spec_decompose(v@, p as int) is None,
            Some((l, rest)) => match rest {
                None => spec_decompose(v@, p as int) == Some((l@, None::<(Seq<char>, Seq<char>)>)),
                Some((op, rp)) => spec_decompose(v@, p as int) == Some(
                    (l@, Some((op@, rp@))),
                ) && op@.len() == 2 && rp@.len() < v@.len(),
            },
        },
{
    let left = subvec(v, 0, p);
    if p == v.len() {
        return Some((left, None));
    }
    let q: usize = if v[p] == ')' {
        p + 1
    } else {
        p
    };
    if q == v.len() {
        return Some((left, None));
    }
    if !(q < v.len() && q + 1 < v.len()) {
        return None;
    }
    let op = subvec(v, q, q + 2);
    let right = subvec(v, q + 2, v.len());
    Some((left, Some((op, right))))
}

impl AccessPolicy {
    /// Recursive-descent parser over the character form of the text.
    fn parse_expr(v: &Vec<char>) -> (r: Result<AccessPolicy, Error>)
        ensures
            match spec_parse_expr(v@) {
                Ok(ap) => r matches Ok(x) && x@ == ap,
                Err(PErrV::Syntax) => r matches Err(e) && e is InvalidBooleanExpression,
                Err(PErrV::Op(o)) => r matches Err(e) && (e matches Error::UnsupportedOperator(s)
                    && s@ == o),
            },
        decreases v.len(),
    {
        let t = sanitize(v);
        proof {
            lemma_san_len(v@);
        }
        if find2_exec(&t, ':', 0).is_none() {
            let mut m = "expression holds no attribute separator: ".to_owned();
            m.append(chars_to_string(&t).as_str());
            return Err(Error::InvalidBooleanExpression(m));
        }
        if t.len() > 0 && t[0] == '(' {
            let u = subvec(&t, 1, t.len());
            match find_close_exec(&u) {
                None => {
                    let mut m = "closing parenthesis missing in: ".to_owned();
                    m.append(chars_to_string(&u).as_str());
                    Err(Error::InvalidBooleanExpression(m))
                },
                Some(mm) => {
                    match decompose_exec(&u, mm) {
                        None => {
                            let mut m = "operator runs past the end of: ".to_owned();
                            m.append(chars_to_string(&u).as_str());
                            Err(Error::InvalidBooleanExpression(m))
                        },
                        Some((left, None)) => {
                            proof {
                                assert(left@.len() < v@.len());
                            }
                            Self::parse_expr(&left)
                        },
                        Some((left, Some((op, right)))) => {
                            proof {
                                assert(left@.len() < v@.len());
                                assert(right@.len() < v@.len());
                            }
                            let lres = Self::parse_expr(&left);
                            let rres = Self::parse_expr(&right);
                            Self::combine_exec(
                                lres,
                                op,
                                rres,
                                Ghost(spec_parse_expr(left@)),
                                Ghost(spec_parse_expr(right@)),
                            )
                        },
                    }
                },
            }
        } else {
            let pos = find_op_exec(&t);
            let mut p: usize = 0;
            match pos {
                Some(q) => {
                    p = q;
                },
                None => {},
            }
            if p == 0 {
                // a single literal AXIS::NAME
                match find2_exec(&t, ':', 0) {
                    None => {
                        let m = "expression holds no attribute separator".to_owned();
                        Err(Error::InvalidBooleanExpression(m))
                    },
                    Some(k) => {
                        let axis = subvec(&t, 0, k);
                        let name = subvec(&t, k + 2, t.len());
                        if axis.len() == 0 || name.len() == 0 || !find2_exec(
                            &name,
                            ':',
                            0,
                        ).is_none() {
                            let mut m = "text does not have the shape axis::name: ".to_owned();
                            m.append(chars_to_string(&t).as_str());
                            Err(Error::InvalidBooleanExpression(m))
                        } else {
                            Ok(
                                AccessPolicy::Attr(
                                    crate::attribute::Attribute {
                                        axis: chars_to_string(&axis),
                                        name: chars_to_string(&name),
                                    },
                                ),
                            )
                        }
                    },
                }
            } else {
                match decompose_exec(&t, p) {
                    None => {
                        let mut m = "operator runs past the end of: ".to_owned();
                        m.append(chars_to_string(&t).as_str());
                        Err(Error::InvalidBooleanExpression(m))
                    },
                    Some((left, None)) => {
                        proof {
                            assert(left@.len() < v@.len());
                        }
                        Self::parse_expr(&left)
                    },
                    Some((left, Some((op, right)))) => {
                        proof {
                            assert(left@.len() < v@.len());
                            assert(right@.len() < v@.len());
                        }
                        let lres = Self::parse_expr(&left);
                        let rres = Self::parse_expr(&right);
                        Self::combine_exec(
                            lres,
                            op,
                            rres,
                            Ghost(spec_parse_expr(left@)),
                            Ghost(spec_parse_expr(right@)),
                        )
                    },
                }
            }
        }
    }

    /// Combines two parsed operands with an operator token, with the error
    /// precedence of `combine`.
    fn combine_exec(
        l: Result<AccessPolicy, Error>,
        op: Vec<char>,
        r: Result<AccessPolicy, Error>,
        Ghost(sl): Ghost<Result<ApV, PErrV>>,
        Ghost(sr): Ghost<Result<ApV, PErrV>>,
    ) -> (res: Result<AccessPolicy, Error>)
        requires
            op@.len() == 2,
            match sl {
                Ok(ap) => l matches Ok(x) && x@ == ap,
                Err(PErrV::Syntax) => l matches Err(e) && e is InvalidBooleanExpression,
                Err(PErrV::Op(o)) => l matches Err(e) && (e matches Error::UnsupportedOperator(s)
                    && s@ == o),
            },
            match sr {
                Ok(ap) => r matches Ok(x) && x@ == ap,
                Err(PErrV::Syntax) => r matches Err(e) && e is InvalidBooleanExpression,
                Err(PErrV::Op(o)) => r matches Err(e) && (e matches Error::UnsupportedOperator(s)
                    && s@ == o),
            },
        ensures
            match combine(sl, op@, sr) {
                Ok(ap) => res matches Ok(x) && x@ == ap,
                Err(PErrV::Syntax) => res matches Err(e) && e is InvalidBooleanExpression,
                Err(PErrV::Op(o)) => res matches Err(e) && (e matches Error::UnsupportedOperator(s)
                    && s@ == o),
            },
    {
        match l {
            Err(e) => Err(e),
            Ok(lv) => match r {
                Err(e) => Err(e),
                Ok(rv) => {
                    if op[0] == '&' && op[1] == '&' {
                        proof {
                            assert(op@ =~= seq!['&', '&']);
                        }
                        Ok(AccessPolicy::And(Box::new(lv), Box::new(rv)))
                    } else if op[0] == '|' && op[1] == '|' {
                        proof {
                            assert(op@ =~= seq!['|', '|']);
                        }
                        Ok(AccessPolicy::Or(Box::new(lv), Box::new(rv)))
                    } else {
                        proof {
                            assert(op@ != seq!['&', '&'] && op@ != seq!['|', '|']) by {
                                assert(seq!['&', '&'][0] == '&' && seq!['&', '&'][1] == '&');
                                assert(seq!['|', '|'][0] == '|' && seq!['|', '|'][1] == '|');
                            }
                        }
                        Err(Error::UnsupportedOperator(chars_to_string(&op)))
                    }
                },
            },
        }
    }

    /// Parses a textual boolean expression such as
    /// `Department::MKG && (Country::France || Country::Spain)` into an
    /// access policy, after normalizing spaces around operators,
    /// parentheses and the `::` separator.
    ///
    /// Fails with `InvalidBooleanExpression` on any grammar violation and
    /// with `UnsupportedOperator` when the token after an operand is
    /// neither `&&` nor `||`.
    pub fn from_boolean_expression(boolean_expression: &str) -> (r: Result<AccessPolicy, Error>)
        ensures
            match spec_parse_expr(boolean_expression@) {
                Ok(ap) => r matches Ok(x) && x@ == ap,
                Err(PErrV::Syntax) => r matches Err(e) && e is InvalidBooleanExpression,
                Err(PErrV::Op(o)) => r matches Err(e) && (e matches Error::UnsupportedOperator(s)
                    && s@ == o),
            },
    {
        let chars = crate::text::str_chars(boolean_expression);
        Self::parse_expr(&chars)
    }
}


// ------------------------------------------------------------------
// Rendering.
// ------------------------------------------------------------------

/// Textual form of an expression: literals as `axis::name`, each connective
/// fully parenthesized. `All` has no textual form and renders empty.
pub open spec fn spec_render(ap: ApV) -> Seq<char>
    decreases ap,
{
    match ap {
        ApV::Attr(a) => a.axis + seq![':', ':'] + a.name,
        ApV::And(l, r) => seq!['('] + spec_render(*l) + seq!['&', '&'] + spec_render(*r)
            + seq![')'],
        ApV::Or(l, r) => seq!['('] + spec_render(*l) + seq!['|', '|'] + spec_render(*r)
            + seq![')'],
        ApV::All => Seq::empty(),
    }
}

impl AccessPolicy {
    /// Renders the expression to its textual form, fully parenthesized, so
    /// that parsing the result restores the expression's structure. `All`
    /// has no textual form and renders as the empty string.
    pub fn to_boolean_expression(&self) -> (r: String)
        ensures
            r@ == spec_render(self@),
        decreases self,
    {
        match self {
            AccessPolicy::Attr(a) => {
                let mut s = a.axis.clone();
                s.push(':');
                s.push(':');
                s.append(a.name.as_str());
                proof {
                    assert(s@ =~= a@.axis + seq![':', ':'] + a@.name);
                }
                s
            },
            AccessPolicy::And(l, r) => {
                let mut s = String::new();
                s.push('(');
                let lt = l.to_boolean_expression();
                s.append(lt.as_str());
                s.push('&');
                s.push('&');
                let rt = r.to_boolean_expression();
                s.append(rt.as_str());
                s.push(')');
                proof {
                    assert(s@ =~= seq!['('] + spec_render(l@) + seq!['&', '&'] + spec_render(r@)
                        + seq![')']);
                }
                s
            },
            AccessPolicy::Or(l, r) => {
                let mut s = String::new();
                s.push('(');
                let lt = l.to_boolean_expression();
                s.append(lt.as_str());
                s.push('|');
                s.push('|');
                let rt = r.to_boolean_expression();
                s.append(rt.as_str());
                s.push(')');
                proof {
                    assert(s@ =~= seq!['('] + spec_render(l@) + seq!['|', '|'] + spec_render(r@)
                        + seq![')']);
                }
                s
            },
            AccessPolicy::All => String::new(),
        }
    }
}


// ------------------------------------------------------------------
// The parser round trip: parsing a rendered expression restores it.
// The lemmas below build up to `lemma_parse_render`.
// ------------------------------------------------------------------

/// Parenthesis depth contribution of one character.
pub open spec fn paren_delta(c: char) -> int {
    if c == '(' {
        1
    } else if c == ')' {
        -1
    } else {
        0
    }
}

/// Sum of the depth contributions of `s[i..k]`.
pub open spec fn depth_sum(s: Seq<char>, i: int, k: int) -> int
    decreases k - i,
{
    if i >= k {
        0
    } else {
        paren_delta(s[i]) + depth_sum(s, i + 1, k)
    }
}

proof fn lemma_depth_sum_split(s: Seq<char>, i: int, m: int, k: int)
    requires
        i <= m <= k,
    ensures
        depth_sum(s, i, k) == depth_sum(s, i, m) + depth_sum(s, m, k),
    decreases m - i,
{
    if i < m {
        lemma_depth_sum_split(s, i + 1, m, k);
    }
}

proof fn lemma_depth_sum_subrange(s: Seq<char>, a: int, b: int, i: int, k: int)
    requires
        0 <= a <= i <= k <= b <= s.len(),
    ensures
        depth_sum(s, i, k) == depth_sum(s.subrange(a, b), i - a, k - a),
    decreases k - i,
{
    if i < k {
        lemma_depth_sum_subrange(s, a, b, i + 1, k);
    }
}

proof fn lemma_depth_sum_zero(s: Seq<char>, i: int, k: int)
    requires
        0 <= i,
        k <= s.len(),
        forall|j: int| #![trigger s[j]] i <= j < k ==> s[j] != '(' && s[j] != ')',
    ensures
        depth_sum(s, i, k) == 0,
    decreases k - i,
{
    if i < k {
        assert(s[i] != '(' && s[i] != ')');
        assert(paren_delta(s[i]) == 0);
        lemma_depth_sum_zero(s, i + 1, k);
    }
}

/// Scanning from `i` with running count `c`, the first closing parenthesis
/// that sends the count negative is at `e`, provided the count stays
/// non-negative up to `e` and returns to zero there.
proof fn lemma_find_close_hits(u: Seq<char>, i: int, e: int, c: int)
    requires
        0 <= i <= e < u.len(),
        u[e] == ')',
        c >= 0,
        c + depth_sum(u, i, e) == 0,
        forall|m: int| i <= m <= e ==> c + depth_sum(u, i, m) >= 0,
    ensures
        find_close_from(u, i, c) == Some(e),
    decreases e - i,
{
    if i == e {
        assert(depth_sum(u, i, e) == 0);
        assert(c == 0);
    } else {
        let c2 = c + paren_delta(u[i]);
        assert(depth_sum(u, i + 1, i + 1) == 0);
        assert(depth_sum(u, i, i + 1) == paren_delta(u[i]));
        assert(c2 >= 0);
        assert forall|m: int| i + 1 <= m <= e implies c2 + #[trigger] depth_sum(u, i + 1, m) >= 0 by {
            lemma_depth_sum_split(u, i, i + 1, m);
        }
        lemma_depth_sum_split(u, i, i + 1, e);
        lemma_find_close_hits(u, i + 1, e, c2);
        if u[i] == ')' {
            assert(c2 == c - 1);
            assert(c + depth_sum(u, i, i) >= 0);
            assert(c2 >= 0);
        }
        assert(find_close_from(u, i, c) == find_close_from(u, i + 1, c2));
    }
}

/// A doubled character at `p` with none earlier is the first one found.
pub proof fn lemma_find2_first(s: Seq<char>, c: char, i: int, p: int)
    requires
        0 <= i <= p,
        p + 2 <= s.len(),
        s[p] == c && s[p + 1] == c,
        forall|j: int| i <= j < p ==> !(#[trigger] s[j] == c && s[j + 1] == c),
    ensures
        find2_from(s, c, i) == Some(p),
    decreases p - i,
{
    if i < p {
        lemma_find2_first(s, c, i + 1, p);
    }
}

/// With no doubled character anywhere at or after `i`, none is found.
pub proof fn lemma_find2_none(s: Seq<char>, c: char, i: int)
    requires
        0 <= i,
        forall|j: int| i <= j && j + 2 <= s.len() ==> !(#[trigger] s[j] == c && s[j + 1] == c),
    ensures
        find2_from(s, c, i) is None,
    decreases s.len() - i,
{
    if i + 2 <= s.len() {
        lemma_find2_none(s, c, i + 1);
    }
}

/// Whether an operator token starts at `j`.
pub open spec fn op_at(s: Seq<char>, j: int) -> bool {
    &&& 0 <= j
    &&& j + 2 <= s.len()
    &&& ((s[j] == '&' && s[j + 1] == '&') || (s[j] == '|' && s[j + 1] == '|'))
}

proof fn lemma_find_op_first(s: Seq<char>, i: int, p: int)
    requires
        0 <= i <= p,
        op_at(s, p),
        forall|j: int| i <= j < p ==> !op_at(s, j),
    ensures
        find_op_from(s, i) == Some(p),
    decreases p - i,
{
    if i < p {
        assert(!op_at(s, i));
        lemma_find_op_first(s, i + 1, p);
    }
}

proof fn lemma_find_op_none(s: Seq<char>, i: int)
    requires
        0 <= i,
        forall|j: int| 0 <= j ==> !op_at(s, j),
    ensures
        find_op_from(s, i) is None,
    decreases s.len() - i,
{
    if i + 2 <= s.len() {
        assert(!op_at(s, i));
        lemma_find_op_none(s, i + 1);
    }
}

/// Well-behaved text for the space normalizer: no space at either end, and
/// no space next to a separator token or a parenthesis. The normalizer
/// leaves such a text unchanged.
pub open spec fn nice(s: Seq<char>) -> bool {
    &&& (s.len() > 0 ==> s[0] != ' ' && s[s.len() - 1] != ' ')
    &&& (forall|j: int|
        #[trigger] is_sep2(s, j) ==> (j == 0 || s[j - 1] != ' ') && (j + 2 == s.len() || s[j + 2]
            != ' '))
    &&& (forall|j: int|
        0 <= j < s.len() && is_paren(#[trigger] s[j]) ==> (j == 0 || s[j - 1] != ' ') && (j + 1
            == s.len() || s[j + 1] != ' '))
}

proof fn lemma_san_from_nice(s: Seq<char>, i: int)
    requires
        nice(s),
        0 <= i <= s.len(),
    ensures
        san_from(s, i) =~= s.subrange(i, s.len() as int),
    decreases s.len() - i,
{
    lemma_skip_spaces_bounds(s, i);
    if i >= s.len() {
    } else if is_sep2(s, i) {
        assert(i + 2 == s.len() || s[i + 2] != ' ');
        if i + 2 < s.len() {
            assert(skip_spaces(s, i + 2) == i + 2);
        }
        lemma_san_from_nice(s, i + 2);
        assert(san_from(s, i) =~= s.subrange(i, i + 2) + s.subrange(i + 2, s.len() as int));
    } else if is_paren(s[i]) {
        assert(i + 1 == s.len() || s[i + 1] != ' ');
        if i + 1 < s.len() {
            assert(skip_spaces(s, i + 1) == i + 1);
        }
        lemma_san_from_nice(s, i + 1);
        assert(san_from(s, i) =~= seq![s[i]] + s.subrange(i + 1, s.len() as int));
    } else if s[i] == ' ' {
        let k = skip_spaces(s, i);
        lemma_skip_spaces_run(s, i, k);
        assert(s[s.len() - 1] != ' ');
        assert(k < s.len()) by {
            if k == s.len() {
                assert(s[s.len() - 1] == ' ');
            }
        }
        assert(s[k] != ' ');
        assert(!is_sep2(s, k)) by {
            if is_sep2(s, k) {
                assert(s[k - 1] == ' ');
            }
        }
        assert(!is_paren(s[k])) by {
            if is_paren(s[k]) {
                assert(s[k - 1] == ' ');
            }
        }
        lemma_san_from_nice(s, k);
        assert(san_from(s, i) =~= s.subrange(i, k) + s.subrange(k, s.len() as int));
    } else {
        lemma_san_from_nice(s, i + 1);
        assert(san_from(s, i) =~= seq![s[i]] + s.subrange(i + 1, s.len() as int));
    }
}

/// Every character of the skipped run is a space.
proof fn lemma_skip_spaces_run(s: Seq<char>, i: int, k: int)
    requires
        0 <= i <= s.len(),
        k == skip_spaces(s, i),
    ensures
        forall|j: int| i <= j < k ==> s[j] == ' ',
        i <= k <= s.len(),
        k < s.len() ==> s[k] != ' ',
    decreases s.len() - i,
{
    lemma_skip_spaces_bounds(s, i);
    if i < s.len() && s[i] == ' ' {
        lemma_skip_spaces_run(s, i + 1, k);
    }
}

/// The normalizer leaves a well-behaved text unchanged.
pub proof fn lemma_san_nice(s: Seq<char>)
    requires
        nice(s),
    ensures
        san(s) == s,
{
    if s.len() == 0 {
        assert(san_from(s, 0) =~= s.subrange(0, 0));
        assert(s.subrange(0, 0) =~= s);
    } else {
        assert(s[0] != ' ');
        assert(skip_spaces(s, 0) == 0);
        lemma_san_from_nice(s, 0);
        assert(s.subrange(0, s.len() as int) =~= s);
    }
}



/// A character fit for the edge of an axis or attribute name: not a space,
/// not a character of any separator token, not a parenthesis.
pub open spec fn edge_ok(c: char) -> bool {
    c != ' ' && c != ':' && c != '&' && c != '|' && c != '(' && c != ')'
}

/// A name the textual grammar can carry: non-empty, free of parentheses and
/// of the substrings `::`, `&&` and `||`, and with no space, separator
/// character or parenthesis at either end. Interior spaces are fine.
pub open spec fn name_ok(s: Seq<char>) -> bool {
    &&& s.len() > 0
    &&& edge_ok(s[0])
    &&& edge_ok(s[s.len() - 1])
    &&& forall|j: int| #![trigger s[j]] 0 <= j < s.len() ==> s[j] != '(' && s[j] != ')'
    &&& forall|j: int|
        #![trigger s[j]]
        0 <= j < s.len() - 1 ==> !((s[j] == ':' && s[j + 1] == ':') || (s[j] == '&' && s[j + 1]
            == '&') || (s[j] == '|' && s[j + 1] == '|'))
}

/// An expression the renderer can round-trip: every literal name is fit for
/// the grammar, and `All` (which has no textual form) does not occur.
pub open spec fn renderable(ap: ApV) -> bool
    decreases ap,
{
    match ap {
        ApV::Attr(a) => name_ok(a.axis) && name_ok(a.name),
        ApV::And(l, r) => renderable(*l) && renderable(*r),
        ApV::Or(l, r) => renderable(*l) && renderable(*r),
        ApV::All => false,
    }
}

proof fn lemma_find2_none_char(s: Seq<char>, c: char, i: int)
    requires
        0 <= i,
        find2_from(s, c, i) is None,
    ensures
        forall|j: int| #![trigger s[j]] i <= j && j + 2 <= s.len() ==> !(s[j] == c && s[j + 1] == c),
    decreases s.len() - i,
{
    if i + 2 <= s.len() {
        lemma_find2_none_char(s, c, i + 1);
    }
}

proof fn lemma_name_ok_nice(s: Seq<char>)
    requires
        name_ok(s),
    ensures
        nice(s),
{
    assert forall|j: int| #[trigger] is_sep2(s, j) implies (j == 0 || s[j - 1] != ' ') && (j + 2
        == s.len() || s[j + 2] != ' ') by {
        assert(s[j] != '(' && s[j] != ')');
        assert(!((s[j] == ':' && s[j + 1] == ':') || (s[j] == '&' && s[j + 1] == '&') || (s[j]
            == '|' && s[j + 1] == '|')));
    }
    assert forall|j: int| 0 <= j < s.len() && is_paren(#[trigger] s[j]) implies (j == 0 || s[j - 1]
        != ' ') && (j + 1 == s.len() || s[j + 1] != ' ') by {
        assert(s[j] != '(' && s[j] != ')');
    }
}

/// Joining two well-behaved texts with a doubled separator character keeps
/// the whole well-behaved, provided the facing edges are fit.
proof fn lemma_nice_join(x: Seq<char>, y: Seq<char>, c: char)
    requires
        nice(x),
        nice(y),
        x.len() >= 1,
        y.len() >= 1,
        x[x.len() - 1] == ')' || edge_ok(x[x.len() - 1]),
        y[0] == '(' || edge_ok(y[0]),
        c == '&' || c == '|' || c == ':',
    ensures
        nice(x + seq![c, c] + y),
{
    let r = x + seq![c, c] + y;
    let n = x.len() as int;
    assert(r.len() == n + 2 + y.len());
    assert forall|j: int| 0 <= j < r.len() implies #[trigger] r[j] == (if j < n {
        x[j]
    } else if j < n + 2 {
        c
    } else {
        y[j - n - 2]
    }) by {}
    assert(r[0] != ' ');
    assert(r[r.len() - 1] != ' ');
    assert forall|j: int| #[trigger] is_sep2(r, j) implies (j == 0 || r[j - 1] != ' ') && (j + 2
        == r.len() || r[j + 2] != ' ') by {
        if j + 2 <= n {
            assert(is_sep2(x, j));
            if j > 0 {
                assert(r[j - 1] == x[j - 1]);
            }
            if j + 2 < n {
                assert(r[j + 2] == x[j + 2]);
            } else {
                assert(r[j + 2] == c);
            }
        } else if j == n - 1 {
            // would pair the last char of x with the separator character
            assert(r[j] == x[n - 1] && r[j + 1] == c);
            assert(false);
        } else if j == n {
            assert(r[j - 1] == x[n - 1]);
            assert(r[j + 2] == y[0]);
        } else if j == n + 1 {
            assert(r[j] == c && r[j + 1] == y[0]);
            assert(false);
        } else {
            assert(is_sep2(y, j - n - 2));
            assert(r[j - 1] == (if j - 1 == n + 1 {
                c
            } else {
                y[j - n - 3]
            }));
            if j + 2 < r.len() {
                assert(r[j + 2] == y[j - n]);
            }
        }
    }
    assert forall|j: int| 0 <= j < r.len() && is_paren(#[trigger] r[j]) implies (j == 0 || r[j - 1]
        != ' ') && (j + 1 == r.len() || r[j + 1] != ' ') by {
        if j < n {
            assert(is_paren(x[j]));
            if j > 0 {
                assert(r[j - 1] == x[j - 1]);
            }
            if j + 1 < n {
                assert(r[j + 1] == x[j + 1]);
            } else {
                assert(r[j + 1] == c);
            }
        } else if j < n + 2 {
            assert(r[j] == c);
            assert(false);
        } else {
            assert(is_paren(y[j - n - 2]));
            if j - 1 >= n + 2 {
                assert(r[j - 1] == y[j - n - 3]);
            } else {
                assert(r[j - 1] == c);
            }
            if j + 1 < r.len() {
                assert(r[j + 1] == y[j - n - 1]);
            }
        }
    }
}

/// Wrapping a well-behaved text in parentheses keeps it well-behaved.
proof fn lemma_nice_wrap(w: Seq<char>)
    requires
        nice(w),
        w.len() >= 1,
    ensures
        nice(seq!['('] + w + seq![')']),
{
    let r = seq!['('] + w + seq![')'];
    let n = w.len() as int;
    assert forall|j: int| 0 <= j < r.len() implies #[trigger] r[j] == (if j == 0 {
        '('
    } else if j <= n {
        w[j - 1]
    } else {
        ')'
    }) by {}
    assert(r[0] != ' ');
    assert(r[r.len() - 1] != ' ');
    assert forall|j: int| #[trigger] is_sep2(r, j) implies (j == 0 || r[j - 1] != ' ') && (j + 2
        == r.len() || r[j + 2] != ' ') by {
        if j == 0 || j + 2 == r.len() {
            assert(false);
        } else {
            assert(is_sep2(w, j - 1));
            if j > 1 {
                assert(r[j - 1] == w[j - 2]);
            }
            if j + 2 <= n {
                assert(r[j + 2] == w[j + 1]);
            }
        }
    }
    assert forall|j: int| 0 <= j < r.len() && is_paren(#[trigger] r[j]) implies (j == 0 || r[j - 1]
        != ' ') && (j + 1 == r.len() || r[j + 1] != ' ') by {
        if 1 <= j <= n {
            assert(is_paren(w[j - 1]));
            if j > 1 {
                assert(r[j - 1] == w[j - 2]);
            }
            if j < n {
                assert(r[j + 1] == w[j]);
            }
        }
    }
}


/// Structural facts of a rendered expression: length, edges, parenthesis
/// balance, well-behavedness for the normalizer, and the guarantees the
/// parser relies on.
#[verifier::spinoff_prover]
#[verifier::rlimit(100)]
proof fn lemma_render_props(ap: ApV)
    requires
        renderable(ap),
    ensures
        ({
            let r = spec_render(ap);
            &&& r.len() >= 4
            &&& (r[0] == '(' || edge_ok(r[0]))
            &&& (r[r.len() - 1] == ')' || edge_ok(r[r.len() - 1]))
            &&& (ap matches ApV::Attr(_) <==> r[0] != '(')
            &&& nice(r)
            &&& depth_sum(r, 0, r.len() as int) == 0
            &&& (forall|k: int| 0 <= k <= r.len() ==> #[trigger] depth_sum(r, 0, k) >= 0)
            &&& (forall|k: int| 1 <= k <= r.len() - 1 ==> #[trigger] depth_sum(r, 0, k) >= 1 || r[0]
                != '(')
            &&& (r[0] == '(' ==> r[r.len() - 1] == ')')
            &&& (exists|j: int|
                0 <= j && j + 2 <= r.len() && r[j] == ':' && #[trigger] r[j + 1] == ':')
            &&& (ap matches ApV::Attr(_) ==> forall|j: int| !op_at(r, j))
            &&& (ap matches ApV::Attr(_) ==> edge_ok(r[0]) && edge_ok(r[r.len() - 1]))
        }),
    decreases ap,
{
    let r = spec_render(ap);
    match ap {
        ApV::Attr(a) => {
            let n = a.axis.len() as int;
            let m = a.name.len() as int;
            assert(r == a.axis + seq![':', ':'] + a.name);
            assert forall|j: int| 0 <= j < r.len() implies #[trigger] r[j] == (if j < n {
                a.axis[j]
            } else if j < n + 2 {
                ':'
            } else {
                a.name[j - n - 2]
            }) by {}
            lemma_name_ok_nice(a.axis);
            lemma_name_ok_nice(a.name);
            lemma_nice_join(a.axis, a.name, ':');
            assert(nice(r));
            assert forall|j: int| 0 <= j < r.len() implies #[trigger] r[j] != '(' && r[j]
                != ')' by {
                if j < n {
                    assert(a.axis[j] != '(' && a.axis[j] != ')');
                } else if j >= n + 2 {
                    assert(a.name[j - n - 2] != '(' && a.name[j - n - 2] != ')');
                }
            }
            assert forall|k: int| 0 <= k <= r.len() implies #[trigger] depth_sum(r, 0, k) >= 0 by {
                lemma_depth_sum_zero(r, 0, k);
            }
            lemma_depth_sum_zero(r, 0, r.len() as int);
            assert(r[n] == ':' && r[n + 1] == ':');
            assert forall|j: int| !op_at(r, j) by {
                if 0 <= j && j + 2 <= r.len() {
                    if j + 1 < n {
                        assert(r[j] == a.axis[j] && r[j + 1] == a.axis[j + 1]);
                    } else if j < n {
                        assert(r[j + 1] == ':');
                    } else if j < n + 2 {
                        assert(r[j] == ':');
                    } else {
                        assert(r[j] == a.name[j - n - 2] && r[j + 1] == a.name[j - n - 1]);
                    }
                }
            }
        },
        ApV::And(l, rr) | ApV::Or(l, rr) => {
            let la = spec_render(*l);
            let lb = spec_render(*rr);
            let c: char = if ap matches ApV::And(_, _) {
                '&'
            } else {
                '|'
            };
            lemma_render_props(*l);
            lemma_render_props(*rr);
            let n = la.len() as int;
            let m = lb.len() as int;
            assert(r == seq!['('] + la + seq![c, c] + lb + seq![')']);
            assert(r.len() == n + m + 4);
            assert forall|j: int| 0 <= j < r.len() implies #[trigger] r[j] == (if j == 0 {
                '('
            } else if j <= n {
                la[j - 1]
            } else if j <= n + 2 {
                c
            } else if j <= n + m + 2 {
                lb[j - n - 3]
            } else {
                ')'
            }) by {}
            let w = la + seq![c, c] + lb;
            lemma_nice_join(la, lb, c);
            lemma_nice_wrap(w);
            assert(r =~= seq!['('] + w + seq![')']);
            assert(nice(r));
            // balance: split the text at its seams
            assert(r.subrange(1, n + 1) =~= la);
            assert(r.subrange(n + 3, n + m + 3) =~= lb);
            assert forall|k: int| 0 <= k <= r.len() implies (#[trigger] depth_sum(r, 0, k) == (
            if k == 0 {
                0int
            } else if k <= n + 1 {
                1 + depth_sum(la, 0, k - 1)
            } else if k <= n + 3 {
                1 + depth_sum(la, 0, n)
            } else if k <= n + m + 3 {
                1 + depth_sum(la, 0, n) + depth_sum(lb, 0, k - n - 3)
            } else {
                1 + depth_sum(la, 0, n) + depth_sum(lb, 0, m) - 1
            })) by {
                if k > 0 {
                    lemma_depth_sum_split(r, 0, 1, k);
                    assert(depth_sum(r, 0, 1) == 1);
                    if k <= n + 1 {
                        lemma_depth_sum_subrange(r, 1, n + 1, 1, k);
                    } else {
                        lemma_depth_sum_split(r, 1, n + 1, k);
                        lemma_depth_sum_subrange(r, 1, n + 1, 1, n + 1);
                        if k <= n + 3 {
                            lemma_depth_sum_zero(r, n + 1, k);
                        } else {
                            lemma_depth_sum_split(r, n + 1, n + 3, k);
                            lemma_depth_sum_zero(r, n + 1, n + 3);
                            if k <= n + m + 3 {
                                lemma_depth_sum_subrange(r, n + 3, n + m + 3, n + 3, k);
                            } else {
                                lemma_depth_sum_split(r, n + 3, n + m + 3, k);
                                lemma_depth_sum_subrange(r, n + 3, n + m + 3, n + 3, n + m + 3);
                                assert(k == r.len());
                                assert(r[n + m + 3] == ')');
                                assert(depth_sum(r, k, k) == 0);
                                assert(depth_sum(r, n + m + 3, k) == paren_delta(r[n + m + 3]));
                            }
                        }
                    }
                }
            }
            assert(depth_sum(r, 0, r.len() as int) == 0);
            assert forall|k: int| 0 <= k <= r.len() implies #[trigger] depth_sum(r, 0, k) >= 0 by {}
            assert forall|k: int| 1 <= k <= r.len() - 1 implies #[trigger] depth_sum(r, 0, k)
                >= 1 by {}
            // a separator pair of the left operand, shifted into place
            let j0 = choose|j: int|
                0 <= j && j + 2 <= la.len() && la[j] == ':' && #[trigger] la[j + 1] == ':';
            assert(r[j0 + 1] == ':' && r[j0 + 2] == ':');
        },
        ApV::All => {
            assert(false);
        },
    }
}


/// Parsing a parenthesized rendering is parsing its inside: the matching
/// closing parenthesis is the last character, so the operator slot after it
/// is empty.
proof fn lemma_strip_parens(ap: ApV)
    requires
        renderable(ap),
        !(ap matches ApV::Attr(_)),
    ensures
        ({
            let r = spec_render(ap);
            spec_parse_expr(r) == spec_parse_expr(r.subrange(1, r.len() - 1))
        }),
{
    let r = spec_render(ap);
    let len = r.len() as int;
    lemma_render_props(ap);
    lemma_san_nice(r);
    if find2_from(r, ':', 0) is None {
        lemma_find2_none_char(r, ':', 0);
        let j = choose|j: int|
            0 <= j && j + 2 <= r.len() && r[j] == ':' && #[trigger] r[j + 1] == ':';
        assert(false);
    }
    assert(r[0] == '(');
    assert(r[len - 1] == ')');
    let u = r.subrange(1, len);
    assert(u[len - 2] == ')');
    // the scan reaches the final closing parenthesis
    assert(depth_sum(r, 0, len) == 0);
    lemma_depth_sum_split(r, 0, len - 1, len);
    assert(depth_sum(r, len - 1, len) == paren_delta(r[len - 1]) + depth_sum(r, len, len));
    assert(depth_sum(r, 0, len - 1) == 1);
    assert forall|mm: int| 0 <= mm <= len - 2 implies 0 + #[trigger] depth_sum(u, 0, mm) >= 0 by {
        lemma_depth_sum_subrange(r, 1, len, 1, mm + 1);
        assert(depth_sum(u, 0, mm) == depth_sum(r, 1, mm + 1));
        lemma_depth_sum_split(r, 0, 1, mm + 1);
        assert(depth_sum(r, 0, 1) == 1);
        if mm + 1 <= len - 1 && mm + 1 >= 1 {
            assert(depth_sum(r, 0, mm + 1) >= 1);
        }
    }
    lemma_depth_sum_subrange(r, 1, len, 1, len - 1);
    lemma_depth_sum_split(r, 0, 1, len - 1);
    assert(depth_sum(u, 0, len - 2) == 0);
    lemma_find_close_hits(u, 0, len - 2, 0);
    assert(spec_decompose(u, len - 2) == Some(
        (u.subrange(0, len - 2), None::<(Seq<char>, Seq<char>)>),
    ));
    assert(u.subrange(0, len - 2) =~= r.subrange(1, len - 1));
    assert(spec_parse_expr(r) == spec_parse_expr(r.subrange(1, len - 1)));
}

/// Parsing the infix text `render(l) ++ op ++ render(r)` yields the
/// corresponding connective node: the first operator outside parentheses is
/// exactly the joining token.
#[verifier::spinoff_prover]
#[verifier::rlimit(100)]
proof fn lemma_parse_infix(l: ApV, rgt: ApV, is_and: bool)
    requires
        renderable(l),
        renderable(rgt),
        spec_parse_expr(spec_render(l)) == Ok::<ApV, PErrV>(l),
        spec_parse_expr(spec_render(rgt)) == Ok::<ApV, PErrV>(rgt),
    ensures
        ({
            let c: char = if is_and {
                '&'
            } else {
                '|'
            };
            let t = spec_render(l) + seq![c, c] + spec_render(rgt);
            spec_parse_expr(t) == Ok::<ApV, PErrV>(
                if is_and {
                    ApV::And(Box::new(l), Box::new(rgt))
                } else {
                    ApV::Or(Box::new(l), Box::new(rgt))
                },
            )
        }),
{
    let a = spec_render(l);
    let b = spec_render(rgt);
    let c: char = if is_and {
        '&'
    } else {
        '|'
    };
    let t = a + seq![c, c] + b;
    let n = a.len() as int;
    let m = b.len() as int;
    lemma_render_props(l);
    lemma_render_props(rgt);
    assert forall|j: int| 0 <= j < t.len() implies #[trigger] t[j] == (if j < n {
        a[j]
    } else if j < n + 2 {
        c
    } else {
        b[j - n - 2]
    }) by {}
    lemma_nice_join(a, b, c);
    lemma_san_nice(t);
    if find2_from(t, ':', 0) is None {
        lemma_find2_none_char(t, ':', 0);
        let j = choose|j: int|
            0 <= j && j + 2 <= a.len() && a[j] == ':' && #[trigger] a[j + 1] == ':';
        assert(t[j] == ':' && t[j + 1] == ':');
        assert(false);
    }
    let op = t.subrange(n, n + 2);
    assert(op =~= seq![c, c]);
    assert(seq![c, c][0] == c && seq![c, c][1] == c);
    assert(seq!['&', '&'][0] == '&' && seq!['&', '&'][1] == '&');
    assert(seq!['|', '|'][0] == '|' && seq!['|', '|'][1] == '|');
    let expected: Result<ApV, PErrV> = Ok(
        if is_and {
            ApV::And(Box::new(l), Box::new(rgt))
        } else {
            ApV::Or(Box::new(l), Box::new(rgt))
        },
    );
    assert(combine(Ok(l), op, Ok(rgt)) == expected);
    if t[0] != '(' {
        // the left operand is a literal: the joining token is the first
        // operator of the whole text
        assert(l matches ApV::Attr(_));
        assert(op_at(t, n));
        assert forall|j: int| 0 <= j < n implies !op_at(t, j) by {
            if j + 2 <= n {
                assert(!op_at(a, j));
                assert(t[j] == a[j] && t[j + 1] == a[j + 1]);
            } else {
                assert(j == n - 1);
                assert(t[j] == a[n - 1]);
                assert(edge_ok(a[n - 1]));
            }
        }
        lemma_find_op_first(t, 0, n);
        assert(t.subrange(0, n) =~= a);
        assert(t.subrange(n + 2, t.len() as int) =~= b);
        assert(spec_decompose(t, n) == Some((a, Some((op, b)))));
        assert(spec_parse_expr(t) == combine(spec_parse_expr(a), op, spec_parse_expr(b)));
    } else {
        // the left operand is parenthesized: the depth scan lands on its
        // closing parenthesis, and the joining token follows it
        assert(a[0] == '(');
        assert(a[n - 1] == ')');
        let u = t.subrange(1, t.len() as int);
        let e = n - 2;
        assert(u[e] == t[n - 1]);
        assert(t[n - 1] == a[n - 1]);
        assert(depth_sum(a, 0, n) == 0);
        lemma_depth_sum_split(a, 0, n - 1, n);
        assert(depth_sum(a, n - 1, n) == paren_delta(a[n - 1]) + depth_sum(a, n, n));
        assert(depth_sum(a, 0, n - 1) == 1);
        assert(t.subrange(1, n) =~= a.subrange(1, n));
        assert forall|mm: int| 0 <= mm <= e implies 0 + #[trigger] depth_sum(u, 0, mm) >= 0 by {
            lemma_depth_sum_subrange(t, 1, t.len() as int, 1, mm + 1);
            assert(depth_sum(u, 0, mm) == depth_sum(t, 1, mm + 1));
            lemma_depth_sum_subrange(t, 0, n, 1, mm + 1);
            assert(t.subrange(0, n) =~= a);
            assert(depth_sum(t, 1, mm + 1) == depth_sum(a, 1, mm + 1));
            lemma_depth_sum_split(a, 0, 1, mm + 1);
            assert(depth_sum(a, 0, 1) == 1);
            if 1 <= mm + 1 <= n - 1 {
                assert(depth_sum(a, 0, mm + 1) >= 1);
            }
        }
        lemma_depth_sum_subrange(t, 1, t.len() as int, 1, e + 1);
        lemma_depth_sum_subrange(t, 0, n, 1, e + 1);
        assert(t.subrange(0, n) =~= a);
        lemma_depth_sum_split(a, 0, 1, n - 1);
        assert(depth_sum(u, 0, e) == 0);
        lemma_find_close_hits(u, 0, e, 0);
        let q = e + 1;
        assert(u[e] == ')');
        assert(q + 2 <= u.len());
        let left = u.subrange(0, e);
        let opu = u.subrange(q, q + 2);
        let right = u.subrange(q + 2, u.len() as int);
        assert(u[q] == t[n] && u[q + 1] == t[n + 1]);
        assert(opu =~= seq![c, c]);
        assert(left =~= a.subrange(1, n - 1));
        assert(right =~= b);
        assert(spec_decompose(u, e) == Some((left, Some((opu, right)))));
        assert(spec_parse_expr(t) == combine(
            spec_parse_expr(a.subrange(1, n - 1)),
            opu,
            spec_parse_expr(b),
        ));
        lemma_strip_parens(l);
        assert(spec_parse_expr(a.subrange(1, n - 1)) == Ok::<ApV, PErrV>(l));
    }
}

/// Law (parser round trip): an access policy built from well-formed literal
/// names by the combinators, rendered to its textual form and re-parsed,
/// is restored exactly. `All`, which has no textual form, and literal names
/// carrying a parenthesis, a separator substring (`::`, `&&`, `||`), or a
/// space or separator character at either end, are the inputs left out.
#[verifier::spinoff_prover]
#[verifier::rlimit(100)]
pub proof fn lemma_parse_render(ap: ApV)
    requires
        renderable(ap),
    ensures
        spec_parse_expr(spec_render(ap)) == Ok::<ApV, PErrV>(ap),
    decreases ap,
{
    let r = spec_render(ap);
    lemma_render_props(ap);
    lemma_san_nice(r);
    match ap {
        ApV::Attr(a) => {
            let n = a.axis.len() as int;
            let m = a.name.len() as int;
            assert forall|j: int| 0 <= j < r.len() implies #[trigger] r[j] == (if j < n {
                a.axis[j]
            } else if j < n + 2 {
                ':'
            } else {
                a.name[j - n - 2]
            }) by {}
            assert forall|j: int| 0 <= j < n implies !(#[trigger] r[j] == ':' && r[j + 1]
                == ':') by {
                if j + 1 < n {
                    assert(r[j] == a.axis[j] && r[j + 1] == a.axis[j + 1]);
                } else {
                    assert(j == n - 1);
                    assert(r[j] == a.axis[n - 1]);
                    assert(edge_ok(a.axis[n - 1]));
                }
            }
            lemma_find2_first(r, ':', 0, n);
            assert(r[0] != '(');
            lemma_find_op_none(r, 0);
            let axis_part = r.subrange(0, n);
            let name_part = r.subrange(n + 2, r.len() as int);
            assert(axis_part =~= a.axis);
            assert(name_part =~= a.name);
            lemma_find2_none(a.name, ':', 0);
            assert(spec_parse_literal(r) == Some(AttrV { axis: axis_part, name: name_part }));
            assert(AttrV { axis: axis_part, name: name_part } == a);
            assert(spec_parse_expr(r) == Ok::<ApV, PErrV>(ApV::Attr(a)));
        },
        ApV::And(l, rgt) => {
            lemma_parse_render(*l);
            lemma_parse_render(*rgt);
            lemma_parse_infix(*l, *rgt, true);
            lemma_strip_parens(ap);
            assert(r.subrange(1, r.len() - 1) =~= spec_render(*l) + seq!['&', '&'] + spec_render(
                *rgt,
            ));
        },
        ApV::Or(l, rgt) => {
            lemma_parse_render(*l);
            lemma_parse_render(*rgt);
            lemma_parse_infix(*l, *rgt, false);
            lemma_strip_parens(ap);
            assert(r.subrange(1, r.len() - 1) =~= spec_render(*l) + seq!['|', '|'] + spec_render(
                *rgt,
            ));
        },
        ApV::All => {
            assert(false);
        },
    }
}

} // verus!

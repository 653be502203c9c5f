use vstd::prelude::*;
use vstd::string::StrSliceExecFns;

verus! {

// ------------------------------------------------------------------
// A small JSON text layer: the primitives shared by the policy codec.
// Parsing works over character sequences with explicit positions; every
// executable function mirrors its spec function exactly.
//
// The accepted texts are standard JSON with two restrictions, enough for
// every blob this crate reads and writes: numbers are unsigned integers,
// and `\\u` escapes are only accepted for code points up to `00FF` (the
// writer never emits larger ones; non-ASCII text is carried raw).
// ------------------------------------------------------------------

/// JSON insignificant whitespace.
pub open spec fn is_ws(c: char) -> bool {
    c == ' ' || c == '\t' || c == '\n' || c == '\r'
}

/// Index of the first non-whitespace character at or after `i`.
pub open spec fn skip_ws(s: Seq<char>, i: int) -> int
    decreases s.len() - i,
{
    if i < 0 || i >= s.len() {
        i
    } else if !is_ws(s[i]) {
        i
    } else {
        skip_ws(s, i + 1)
    }
}

pub proof fn lemma_skip_ws_bounds(s: Seq<char>, i: int)
    requires
        0 <= i <= s.len(),
    ensures
        i <= skip_ws(s, i) <= s.len(),
    decreases s.len() - i,
{
    if i < s.len() && is_ws(s[i]) {
        lemma_skip_ws_bounds(s, i + 1);
    }
}

/// Index of the first non-whitespace character at or after `i`.
pub(crate) fn skip_ws_exec(v: &Vec<char>, i: usize) -> (r: usize)
    requires
        i <= v.len(),
    ensures
        r == skip_ws(v@, i as int),
        i <= r <= v.len(),
{
    let mut cur: usize = i;
    loop
        invariant
            i <= cur <= v.len(),
            skip_ws(v@, i as int) == skip_ws(v@, cur as int),
        ensures
            i <= cur <= v.len(),
            cur == skip_ws(v@, i as int),
        decreases v.len() - cur,
    {
        if cur >= v.len() {
            break;
        }
        let c = v[cur];
        if !(c == ' ' || c == '\t' || c == '\n' || c == '\r') {
            break;
        }
        cur = cur + 1;
    }
    cur
}

/// Value of a hexadecimal digit.
pub open spec fn hexval(c: char) -> Option<u32> {
    if 48 <= (c as u32) <= 57 {
        Some((((c as u32) - 48) as u32))
    } else if 97 <= (c as u32) <= 102 {
        Some((((c as u32) - 87) as u32))
    } else if 65 <= (c as u32) <= 70 {
        Some((((c as u32) - 55) as u32))
    } else {
        None
    }
}

fn hexval_exec(c: char) -> (r: Option<u32>)
    ensures
        r == hexval(c),
{
    let u = c as u32;
    if 48 <= u && u <= 57 {
        Some(u - 48)
    } else if 97 <= u && u <= 102 {
        Some(u - 87)
    } else if 65 <= u && u <= 70 {
        Some(u - 55)
    } else {
        None
    }
}

/// Replacement of a single-character escape (the character after the
/// backslash), if it is one of the simple JSON escapes.
pub open spec fn unescape1(e: char) -> Option<char> {
    if e == '"' {
        Some('"')
    } else if e == '\\' {
        Some('\\')
    } else if e == '/' {
        Some('/')
    } else if e == 'n' {
        Some('\n')
    } else if e == 'r' {
        Some('\r')
    } else if e == 't' {
        Some('\t')
    } else if e == 'b' {
        Some('\u{8}')
    } else if e == 'f' {
        Some('\u{c}')
    } else {
        None
    }
}

fn unescape1_exec(e: char) -> (r: Option<char>)
    ensures
        r == unescape1(e),
{
    if e == '"' {
        Some('"')
    } else if e == '\\' {
        Some('\\')
    } else if e == '/' {
        Some('/')
    } else if e == 'n' {
        Some('\n')
    } else if e == 'r' {
        Some('\r')
    } else if e == 't' {
        Some('\t')
    } else if e == 'b' {
        Some('\u{8}')
    } else if e == 'f' {
        Some('\u{c}')
    } else {
        None
    }
}

/// Body of a JSON string, read from just after the opening quote: the
/// decoded characters and the index just after the closing quote.
pub open spec fn parse_str_body(s: Seq<char>, i: int) -> Option<(Seq<char>, int)>
    decreases s.len() - i,
{
    if i < 0 || i >= s.len() {
        None
    } else if s[i] == '"' {
        Some((Seq::empty(), i + 1))
    } else if s[i] == '\\' {
        if i + 2 > s.len() {
            None
        } else if s[i + 1] == 'u' {
            if i + 6 > s.len() {
                None
            } else {
                if hexval(s[i + 2]) is Some && hexval(s[i + 3]) is Some && hexval(s[i + 4]) is Some
                    && hexval(s[i + 5]) is Some {
                    let val = hexval(s[i + 2]).unwrap() * 4096 + hexval(s[i + 3]).unwrap() * 256
                        + hexval(s[i + 4]).unwrap() * 16 + hexval(s[i + 5]).unwrap();
                    if val > 0xFF {
                        None
                    } else {
                        match parse_str_body(s, i + 6) {
                            None => None,
                            Some((t, j)) => Some((seq![((val as u8) as char)] + t, j)),
                        }
                    }
                } else {
                    None
                }
            }
        } else {
            match unescape1(s[i + 1]) {
                None => None,
                Some(c) => match parse_str_body(s, i + 2) {
                    None => None,
                    Some((t, j)) => Some((seq![c] + t, j)),
                },
            }
        }
    } else if (s[i] as u32) < 0x20 {
        None
    } else {
        match parse_str_body(s, i + 1) {
            None => None,
            Some((t, j)) => Some((seq![s[i]] + t, j)),
        }
    }
}

pub proof fn lemma_parse_str_body_bounds(s: Seq<char>, i: int)
    requires
        0 <= i,
    ensures
        parse_str_body(s, i) matches Some(r) ==> i < r.1 <= s.len(),
    decreases s.len() - i,
{
    if 0 <= i < s.len() {
        if s[i] == '"' {
        } else if s[i] == '\\' {
            if i + 2 <= s.len() && s[i + 1] == 'u' && i + 6 <= s.len() {
                lemma_parse_str_body_bounds(s, i + 6);
            } else if i + 2 <= s.len() {
                lemma_parse_str_body_bounds(s, i + 2);
            }
        } else {
            lemma_parse_str_body_bounds(s, i + 1);
        }
    }
}

/// A complete JSON string at `i` (after whitespace): its decoded content
/// and the index just after the closing quote.
pub open spec fn parse_string(s: Seq<char>, i: int) -> Option<(Seq<char>, int)> {
    let j = skip_ws(s, i);
    if j < s.len() && s[j] == '"' {
        parse_str_body(s, j + 1)
    } else {
        None
    }
}

pub proof fn lemma_parse_string_bounds(s: Seq<char>, i: int)
    requires
        0 <= i <= s.len(),
    ensures
        parse_string(s, i) matches Some(r) ==> i < r.1 <= s.len(),
{
    lemma_skip_ws_bounds(s, i);
    let j = skip_ws(s, i);
    if j < s.len() && s[j] == '"' {
        lemma_parse_str_body_bounds(s, j + 1);
    }
}

/// Body of a JSON string, executable form.
pub(crate) fn parse_str_body_exec(v: &Vec<char>, i: usize) -> (r: Option<(Vec<char>, usize)>)
    requires
        i <= v.len(),
    ensures
        match r {
            Some((t, j)) => parse_str_body(v@, i as int) == Some((t@, j as int)) && i < j
                <= v.len(),
            None => parse_str_body(v@, i as int) is None,
        },
    decreases v.len() - i, 0int,
{
    if i >= v.len() {
        return None;
    }
    let c = v[i];
    if c == '"' {
        return Some((Vec::new(), i + 1));
    }
    if c == '\\' {
        if i + 1 >= v.len() {
            return None;
        }
        let e = v[i + 1];
        if e == 'u' {
            if v.len() - i < 6 {
                return None;
            }
            let h1 = hexval_exec(v[i + 2]);
            let h2 = hexval_exec(v[i + 3]);
            let h3 = hexval_exec(v[i + 4]);
            let h4 = hexval_exec(v[i + 5]);
            match (h1, h2, h3, h4) {
                (Some(a), Some(b), Some(cc), Some(d)) => {
                    let val = a * 4096 + b * 256 + cc * 16 + d;
                    if val > 0xFF {
                        return None;
                    }
                    match parse_str_rest(v, i + 6, (val as u8) as char)
                    {
                        None => None,
                        Some(res) => Some(res),
                    }
                },
                _ => None,
            }
        } else {
            match unescape1_exec(e) {
                None => None,
                Some(cc) => parse_str_rest(v, i + 2, cc),
            }
        }
    } else if (c as u32) < 0x20 {
        None
    } else {
        parse_str_rest(v, i + 1, c)
    }
}

/// Parses the rest of a string body and prepends one decoded character.
fn parse_str_rest(v: &Vec<char>, i: usize, c: char) -> (r: Option<(Vec<char>, usize)>)
    requires
        i <= v.len(),
    ensures
        match r {
            Some((t, j)) => parse_str_body(v@, i as int) matches Some(p) && t@ == seq![c] + p.0
                && j as int == p.1 && i < j <= v.len(),
            None => parse_str_body(v@, i as int) is None,
        },
    decreases v.len() - i, 1int,
{
    match parse_str_body_exec(v, i) {
        None => None,
        Some((t, j)) => {
            let mut out: Vec<char> = Vec::new();
            out.push(c);
            let mut tt = t;
            out.append(&mut tt);
            Some((out, j))
        },
    }
}

/// A complete JSON string at `i`, executable form.
pub(crate) fn parse_string_exec(v: &Vec<char>, i: usize) -> (r: Option<(Vec<char>, usize)>)
    requires
        i <= v.len(),
    ensures
        match r {
            Some((t, j)) => parse_string(v@, i as int) == Some((t@, j as int)) && i < j <= v.len(),
            None => parse_string(v@, i as int) is None,
        },
{
    let j = skip_ws_exec(v, i);
    if j < v.len() && v[j] == '"' {
        parse_str_body_exec(v, j + 1)
    } else {
        None
    }
}

/// A digit character.
pub open spec fn is_digit(c: char) -> bool {
    48 <= (c as u32) <= 57
}

/// Numeric value of a digit character.
pub open spec fn digit_val(c: char) -> u64 {
    ((c as u32) - 48) as u64
}

/// Digits of a number, accumulated onto `acc`; fails on `u64` overflow.
pub open spec fn parse_digits(s: Seq<char>, i: int, acc: u64) -> Option<(u64, int)>
    decreases s.len() - i,
{
    if i < 0 || i >= s.len() || !is_digit(s[i]) {
        Some((acc, i))
    } else if acc as int * 10 + digit_val(s[i]) > u64::MAX {
        None
    } else {
        parse_digits(s, i + 1, (acc * 10 + digit_val(s[i])) as u64)
    }
}

/// An unsigned integer at `i` (after whitespace): its value and the index
/// just after its digits.
pub open spec fn parse_number(s: Seq<char>, i: int) -> Option<(u64, int)> {
    let j = skip_ws(s, i);
    if j < s.len() && is_digit(s[j]) {
        parse_digits(s, j, 0)
    } else {
        None
    }
}

pub proof fn lemma_parse_digits_bounds(s: Seq<char>, i: int, acc: u64)
    requires
        0 <= i <= s.len(),
    ensures
        parse_digits(s, i, acc) matches Some(r) ==> i <= r.1 <= s.len(),
    decreases s.len() - i,
{
    if i < s.len() && is_digit(s[i]) && !(acc as int * 10 + digit_val(s[i]) > u64::MAX) {
        lemma_parse_digits_bounds(s, i + 1, (acc * 10 + digit_val(s[i])) as u64);
    }
}

pub proof fn lemma_parse_number_bounds(s: Seq<char>, i: int)
    requires
        0 <= i <= s.len(),
    ensures
        parse_number(s, i) matches Some(r) ==> i <= r.1 <= s.len(),
{
    lemma_skip_ws_bounds(s, i);
    let j = skip_ws(s, i);
    if j < s.len() && is_digit(s[j]) {
        lemma_parse_digits_bounds(s, j, 0);
    }
}

/// An unsigned integer at `i`, executable form.
pub(crate) fn parse_number_exec(v: &Vec<char>, i: usize) -> (r: Option<(u64, usize)>)
    requires
        i <= v.len(),
    ensures
        match r {
            Some((n, j)) => parse_number(v@, i as int) == Some((n, j as int)) && i <= j <= v.len(),
            None => parse_number(v@, i as int) is None,
        },
{
    let j = skip_ws_exec(v, i);
    if !(j < v.len()) {
        return None;
    }
    let c0 = v[j] as u32;
    if !(48 <= c0 && c0 <= 57) {
        return None;
    }
    let mut cur: usize = j;
    let mut acc: u64 = 0;
    loop
        invariant
            j <= cur <= v.len(),
            parse_number(v@, i as int) == parse_digits(v@, cur as int, acc),
        ensures
            j <= cur <= v.len(),
            parse_number(v@, i as int) == Some((acc, cur as int)),
        decreases v.len() - cur,
    {
        if cur >= v.len() {
            break;
        }
        let c = v[cur] as u32;
        if !(48 <= c && c <= 57) {
            break;
        }
        let d: u64 = (c - 48) as u64;
        if acc > (u64::MAX - d) / 10 {
            proof {
                assert(acc as int * 10 + d > u64::MAX) by (nonlinear_arith)
                    requires
                        acc > ((u64::MAX - d) / 10),
                        0 <= d <= 9,
                ;
            }
            return None;
        }
        proof {
            assert(acc as int * 10 + d <= u64::MAX) by (nonlinear_arith)
                requires
                    acc <= ((u64::MAX - d) / 10),
                    0 <= d <= 9,
            ;
        }
        acc = acc * 10 + d;
        cur = cur + 1;
    }
    Some((acc, cur))
}

/// Whether the characters of `lit` stand at position `i` of `s`.
pub open spec fn has_lit_at(s: Seq<char>, i: int, lit: Seq<char>) -> bool {
    &&& 0 <= i
    &&& i + lit.len() <= s.len()
    &&& s.subrange(i, i + lit.len()) == lit
}

/// Expects the punctuation character `c` at `i`, after whitespace; returns
/// the index just past it.
pub open spec fn expect_char(s: Seq<char>, i: int, c: char) -> Option<int> {
    let j = skip_ws(s, i);
    if j < s.len() && s[j] == c {
        Some(j + 1)
    } else {
        None
    }
}

pub proof fn lemma_expect_char_bounds(s: Seq<char>, i: int, c: char)
    requires
        0 <= i <= s.len(),
    ensures
        expect_char(s, i, c) matches Some(j) ==> i < j <= s.len(),
{
    lemma_skip_ws_bounds(s, i);
}

/// Expects the punctuation character `c` at `i`, executable form.
pub(crate) fn expect_char_exec(v: &Vec<char>, i: usize, c: char) -> (r: Option<usize>)
    requires
        i <= v.len(),
    ensures
        match r {
            Some(j) => expect_char(v@, i as int, c) == Some(j as int) && i < j <= v.len(),
            None => expect_char(v@, i as int, c) is None,
        },
{
    let j = skip_ws_exec(v, i);
    if j < v.len() && v[j] == c {
        Some(j + 1)
    } else {
        None
    }
}

// ------------------------------------------------------------------
// Writing primitives.
// ------------------------------------------------------------------

/// Decimal digit character of `d`.
pub open spec fn digit_char(d: int) -> char {
    ((48 + d) as u8) as char
}

/// Decimal digits of `n`.
pub open spec fn enc_u64(n: u64) -> Seq<char>
    decreases n,
{
    if n < 10 {
        seq![digit_char(n as int)]
    } else {
        enc_u64(n / 10) + seq![digit_char((n % 10) as int)]
    }
}

/// Appends the decimal digits of `n` to `out`.
pub(crate) fn write_u64(out: &mut Vec<char>, n: u64)
    ensures
        final(out)@ == old(out)@ + enc_u64(n),
    decreases n,
{
    if n < 10 {
        out.push(((48 + n) as u8) as char);
    } else {
        write_u64(out, n / 10);
        out.push(((48 + (n % 10)) as u8) as char);
    }
}

/// JSON escape of one character: the common escapes by letter, other
/// control characters as `\\u00XX`, everything else as itself.
pub open spec fn esc_char(c: char) -> Seq<char> {
    if c == '"' {
        seq!['\\', '"']
    } else if c == '\\' {
        seq!['\\', '\\']
    } else if c == '\n' {
        seq!['\\', 'n']
    } else if c == '\r' {
        seq!['\\', 'r']
    } else if c == '\t' {
        seq!['\\', 't']
    } else if c == '\u{8}' {
        seq!['\\', 'b']
    } else if c == '\u{c}' {
        seq!['\\', 'f']
    } else if (c as u32) < 0x20 {
        seq!['\\', 'u', '0', '0', hexdigit_char(((c as u32) / 16) as int), hexdigit_char(
            ((c as u32) % 16) as int,
        )]
    } else {
        seq![c]
    }
}

/// Lower-case hexadecimal digit character of `d`.
pub open spec fn hexdigit_char(d: int) -> char {
    if d < 10 {
        ((48 + d) as u8) as char
    } else {
        ((87 + d) as u8) as char
    }
}

/// JSON escape of a whole text.
pub open spec fn esc(s: Seq<char>) -> Seq<char>
    decreases s.len(),
{
    if s.len() == 0 {
        Seq::empty()
    } else {
        esc_char(s[0]) + esc(s.subrange(1, s.len() as int))
    }
}

/// A quoted, escaped JSON string.
pub open spec fn enc_string(s: Seq<char>) -> Seq<char> {
    seq!['"'] + esc(s) + seq!['"']
}

proof fn lemma_esc_push(s: Seq<char>, c: char)
    ensures
        esc(s.push(c)) =~= esc(s) + esc_char(c),
    decreases s.len(),
{
    if s.len() == 0 {
        assert(s.push(c)[0] == c);
        assert(s.push(c).subrange(1, s.push(c).len() as int) =~= s);
        assert(esc(s) =~= Seq::empty());
    } else {
        assert(s.push(c)[0] == s[0]);
        assert(s.push(c).subrange(1, s.push(c).len() as int) =~= s.subrange(
            1,
            s.len() as int,
        ).push(c));
        lemma_esc_push(s.subrange(1, s.len() as int), c);
    }
}

/// Appends the quoted, escaped form of `s` to `out`.
pub(crate) fn write_string(out: &mut Vec<char>, s: &str)
    ensures
        final(out)@ == old(out)@ + enc_string(s@),
{
    out.push('"');
    let len = s.unicode_len();
    let mut i: usize = 0;
    while i < len
        invariant
            0 <= i <= len,
            len == s@.len(),
            out@ =~= old(out)@ + seq!['"'] + esc(s@.subrange(0, i as int)),
        decreases len - i,
    {
        let c = s.get_char(i);
        let u = c as u32;
        if c == '"' {
            out.push('\\');
            out.push('"');
        } else if c == '\\' {
            out.push('\\');
            out.push('\\');
        } else if c == '\n' {
            out.push('\\');
            out.push('n');
        } else if c == '\r' {
            out.push('\\');
            out.push('r');
        } else if c == '\t' {
            out.push('\\');
            out.push('t');
        } else if u == 0x8 {
            out.push('\\');
            out.push('b');
        } else if u == 0xc {
            out.push('\\');
            out.push('f');
        } else if u < 0x20 {
            out.push('\\');
            out.push('u');
            out.push('0');
            out.push('0');
            let hi = u / 16;
            let lo = u % 16;
            out.push(if hi < 10 {
                ((48 + hi) as u8) as char
            } else {
                ((87 + hi) as u8) as char
            });
            out.push(if lo < 10 {
                ((48 + lo) as u8) as char
            } else {
                ((87 + lo) as u8) as char
            });
        } else {
            out.push(c);
        }
        proof {
            assert(c == '\u{8}' <==> u == 0x8);
            assert(c == '\u{c}' <==> u == 0xc);
            assert(s@.subrange(0, i + 1) =~= s@.subrange(0, i as int).push(c));
            lemma_esc_push(s@.subrange(0, i as int), c);
            assert(out@ =~= old(out)@ + seq!['"'] + esc(s@.subrange(0, i + 1)));
        }
        i = i + 1;
    }
    out.push('"');
    proof {
        assert(s@.subrange(0, s@.len() as int) =~= s@);
        assert(out@ =~= old(out)@ + enc_string(s@));
    }
}


// ------------------------------------------------------------------
// The reader restores what the writer produced.
// ------------------------------------------------------------------

proof fn lemma_hexdigit_value(d: int)
    requires
        0 <= d < 16,
    ensures
        hexval(hexdigit_char(d)) == Some(d as u32),
        hexdigit_char(d) != '"',
        hexdigit_char(d) != '\\',
        (hexdigit_char(d) as u32) >= 0x20,
{
    broadcast use vstd::utf8::char_u32_cast;

    if d < 10 {
        assert((((48 + d) as u8) as char) as u32 == 48 + d);
    } else {
        assert((((87 + d) as u8) as char) as u32 == 87 + d);
    }
}

/// Reading a string body over the escaped form of `t`, followed by the
/// closing quote, restores `t` and stops just after the quote.
#[verifier::spinoff_prover]
#[verifier::rlimit(100)]
proof fn lemma_parse_str_body_of_esc(s: Seq<char>, i: int, t: Seq<char>)
    requires
        0 <= i,
        i + esc(t).len() + 1 <= s.len(),
        s.subrange(i, i + esc(t).len()) == esc(t),
        s[i + esc(t).len()] == '"',
    ensures
        parse_str_body(s, i) == Some((t, i + esc(t).len() + 1)),
    decreases t.len(),
{
    broadcast use vstd::utf8::char_u32_cast;

    if t.len() == 0 {
        assert(esc(t).len() == 0);
        assert(s[i] == '"');
    } else {
        let c = t[0];
        let t2 = t.subrange(1, t.len() as int);
        let e1 = esc_char(c);
        let k = e1.len() as int;
        assert(esc(t) == e1 + esc(t2));
        assert forall|j: int| 0 <= j < k implies s[i + j] == e1[j] by {
            assert(s.subrange(i, i + esc(t).len())[j] == s[i + j]);
            assert((e1 + esc(t2))[j] == e1[j]);
        }
        assert(s.subrange(i + k, i + k + esc(t2).len()) =~= esc(t2)) by {
            assert forall|j: int| 0 <= j < esc(t2).len() implies s.subrange(
                i + k,
                i + k + esc(t2).len(),
            )[j] == esc(t2)[j] by {
                assert(s.subrange(i, i + esc(t).len())[k + j] == s[i + k + j]);
                assert((e1 + esc(t2))[k + j] == esc(t2)[j]);
            }
        }
        assert(s[i + k + esc(t2).len()] == '"');
        lemma_parse_str_body_of_esc(s, i + k, t2);
        let u = c as u32;
        if c == '"' {
            assert(s[i] == '\\' && s[i + 1] == '"');
            assert(unescape1(s[i + 1]) == Some(c));
            assert(s[i + 1] != 'u');
        } else if c == '\\' {
            assert(s[i] == '\\' && s[i + 1] == '\\');
            assert(unescape1(s[i + 1]) == Some(c));
            assert(s[i + 1] != 'u');
        } else if c == '\n' {
            assert(s[i] == '\\' && s[i + 1] == 'n');
            assert(unescape1(s[i + 1]) == Some(c));
            assert(s[i + 1] != 'u');
        } else if c == '\r' {
            assert(s[i] == '\\' && s[i + 1] == 'r');
            assert(unescape1(s[i + 1]) == Some(c));
            assert(s[i + 1] != 'u');
        } else if c == '\t' {
            assert(s[i] == '\\' && s[i + 1] == 't');
            assert(unescape1(s[i + 1]) == Some(c));
            assert(s[i + 1] != 'u');
        } else if c == '\u{8}' {
            assert(s[i] == '\\' && s[i + 1] == 'b');
            assert(unescape1(s[i + 1]) == Some(c));
            assert(s[i + 1] != 'u');
        } else if c == '\u{c}' {
            assert(s[i] == '\\' && s[i + 1] == 'f');
            assert(unescape1(s[i + 1]) == Some(c));
            assert(s[i + 1] != 'u');
        } else if u < 0x20 {
            assert(e1 == seq![
                '\\',
                'u',
                '0',
                '0',
                hexdigit_char((u / 16) as int),
                hexdigit_char((u % 16) as int),
            ]);
            assert(s[i] == '\\' && s[i + 1] == 'u' && s[i + 2] == '0' && s[i + 3] == '0');
            lemma_hexdigit_value((u / 16) as int);
            lemma_hexdigit_value((u % 16) as int);
            assert(hexval('0') == Some(0u32)) by {
                assert((('0' as u32)) == 48);
            }
            let val = hexval(s[i + 2]).unwrap() * 4096 + hexval(s[i + 3]).unwrap() * 256 + hexval(
                s[i + 4],
            ).unwrap() * 16 + hexval(s[i + 5]).unwrap();
            assert(val == (u / 16) * 16 + (u % 16));
            assert(val == u);
            assert(val < 0x20);
            assert(c as u32 == val);
            assert(((val as u8) as char) as u32 == val);
            vstd::utf8::char_u32_cast(c, val as u32);
            vstd::utf8::char_u32_cast((val as u8) as char, val as u32);
            assert((val as u8) as char == c);
        } else {
            assert(e1 == seq![c]);
            assert(e1[0] == c);
            assert(s.subrange(i, i + esc(t).len())[0] == s[i]);
            assert((e1 + esc(t2))[0] == e1[0]);
            assert(s[i] == c);
            assert(c != '"' && c != '\\');
            assert(!((c as u32) < 0x20));
        }
    }
}

/// Reading a whole written string restores its text.
pub(crate) proof fn lemma_parse_string_of_enc(s: Seq<char>, i: int, t: Seq<char>)
    requires
        0 <= i,
        i + enc_string(t).len() <= s.len(),
        s.subrange(i, i + enc_string(t).len()) == enc_string(t),
    ensures
        parse_string(s, i) == Some((t, i + enc_string(t).len())),
{
    assert(s[i] == '"') by {
        assert(s.subrange(i, i + enc_string(t).len())[0] == s[i]);
        assert(enc_string(t)[0] == '"');
    }
    assert(skip_ws(s, i) == i);
    assert(s.subrange(i + 1, i + 1 + esc(t).len()) =~= esc(t)) by {
        assert forall|j: int| 0 <= j < esc(t).len() implies s.subrange(
            i + 1,
            i + 1 + esc(t).len(),
        )[j] == esc(t)[j] by {
            assert(s.subrange(i, i + enc_string(t).len())[1 + j] == s[i + 1 + j]);
            assert(enc_string(t)[1 + j] == esc(t)[j]);
        }
    }
    assert(s[i + 1 + esc(t).len()] == '"') by {
        assert(s.subrange(i, i + enc_string(t).len())[1 + esc(t).len() as int] == s[i + 1 + esc(
            t,
        ).len()]);
        assert(enc_string(t)[1 + esc(t).len() as int] == '"');
    }
    lemma_parse_str_body_of_esc(s, i + 1, t);
}


/// Escaping text free of quotes, backslashes and control characters leaves
/// it unchanged.
pub(crate) proof fn lemma_esc_plain(t: Seq<char>)
    requires
        forall|j: int|
            #![trigger t[j]]
            0 <= j < t.len() ==> t[j] != '"' && t[j] != '\\' && (t[j] as u32) >= 0x20,
    ensures
        esc(t) =~= t,
    decreases t.len(),
{
    if t.len() > 0 {
        assert(t[0] != '\n' && t[0] != '\r' && t[0] != '\t' && t[0] != '\u{8}' && t[0]
            != '\u{c}') by {
            assert(('\n' as u32) < 0x20 && ('\r' as u32) < 0x20 && ('\t' as u32) < 0x20 && (
            '\u{8}' as u32) < 0x20 && ('\u{c}' as u32) < 0x20);
        }
        assert(esc_char(t[0]) == seq![t[0]]);
        lemma_esc_plain(t.subrange(1, t.len() as int));
    }
}

} // verus!

//! The expression language of template directives: a tokenizer and a
//! recursive-descent evaluator over a context of named JSON values.
//!
//! Grammar (lowest precedence first): `a || b`, `a && b`, `a == b` / `a != b`,
//! `!a`, and primaries: parenthesised expressions, `true`/`false`, numbers,
//! quoted strings, and identifier chains (`data.user.name`, `list[0]`,
//! `value.method(args)`, enum paths such as `DataState::Inactive`).
use vstd::prelude::*;
use crate::text;
use crate::json;
use crate::json::{JsonNumber, JsonValue, JsonV, NumV};

verus! {

/// A token of a template expression.
#[derive(Debug)]
pub enum ExprToken {
    Ident(Vec<char>),
    Str(Vec<char>),
    Num(JsonNumber),
    Bool(bool),
    LParen,
    RParen,
    Dot,
    ColonColon,
    Comma,
    LBracket,
    RBracket,
    EqEq,
    BangEq,
    AndAnd,
    OrOr,
    Bang,
}

/// Mathematical view of an [`ExprToken`].
pub enum Tok {
    Ident(Seq<char>),
    Str(Seq<char>),
    Num(NumV),
    Bool(bool),
    LParen,
    RParen,
    Dot,
    ColonColon,
    Comma,
    LBracket,
    RBracket,
    EqEq,
    BangEq,
    AndAnd,
    OrOr,
    Bang,
}

impl View for ExprToken {
    type V = Tok;

    open spec fn view(&self) -> Tok {
        match self {
            ExprToken::Ident(v) => Tok::Ident(v@),
            ExprToken::Str(v) => Tok::Str(v@),
            ExprToken::Num(n) => Tok::Num(n@),
            ExprToken::Bool(b) => Tok::Bool(*b),
            ExprToken::LParen => Tok::LParen,
            ExprToken::RParen => Tok::RParen,
            ExprToken::Dot => Tok::Dot,
            ExprToken::ColonColon => Tok::ColonColon,
            ExprToken::Comma => Tok::Comma,
            ExprToken::LBracket => Tok::LBracket,
            ExprToken::RBracket => Tok::RBracket,
            ExprToken::EqEq => Tok::EqEq,
            ExprToken::BangEq => Tok::BangEq,
            ExprToken::AndAnd => Tok::AndAnd,
            ExprToken::OrOr => Tok::OrOr,
            ExprToken::Bang => Tok::Bang,
        }
    }
}

/// Views of tokens.
pub open spec fn toks_view(t: Seq<ExprToken>) -> Seq<Tok> {
    Seq::new(t.len(), |i: int| t[i]@)
}

// ---------------------------------------------------------------------------
// Tokenizer specification
// ---------------------------------------------------------------------------

/// `t` in front of the tokens `rest`; `None` stays `None`.
pub open spec fn prepend(t: Tok, rest: Option<Seq<Tok>>) -> Option<Seq<Tok>> {
    match rest {
        Some(r) => Some(seq![t] + r),
        None => None,
    }
}

/// Body of a quoted string starting at `j` (after the opening quote), with
/// backslash escapes, and the index after the closing quote (or the end).
pub open spec fn scan_quoted(s: Seq<char>, j: int, quote: char, escaped: bool) -> (Seq<char>, int)
    decreases s.len() - j,
{
    if j < 0 || j >= s.len() {
        (Seq::empty(), s.len() as int)
    } else if escaped {
        let r = scan_quoted(s, j + 1, quote, false);
        (seq![s[j]] + r.0, r.1)
    } else if s[j] == '\\' {
        scan_quoted(s, j + 1, quote, true)
    } else if s[j] == quote {
        (Seq::empty(), j + 1)
    } else {
        let r = scan_quoted(s, j + 1, quote, false);
        (seq![s[j]] + r.0, r.1)
    }
}

/// End of the maximal run of characters satisfying `p` from `j`.
pub open spec fn run_end(s: Seq<char>, j: int, p: spec_fn(char) -> bool) -> int
    decreases s.len() - j,
{
    if j < 0 || j >= s.len() || !p(s[j]) {
        if j < 0 {
            0
        } else if j > s.len() {
            s.len() as int
        } else {
            j
        }
    } else {
        run_end(s, j + 1, p)
    }
}

/// A character of a number literal: an ASCII digit or `.`.
pub open spec fn is_num_char(c: char) -> bool {
    text::is_ascii_digit(c) || c == '.'
}

/// A character of an identifier: an ASCII letter or digit, or `_`.
pub open spec fn is_ident_char(c: char) -> bool {
    text::is_ascii_alnum(c) || c == '_'
}

/// How often `c` occurs in `s`.
pub open spec fn count_char(s: Seq<char>, c: char) -> nat
    decreases s.len(),
{
    if s.len() == 0 {
        0
    } else {
        count_char(s.drop_last(), c) + if s.last() == c {
            1nat
        } else {
            0nat
        }
    }
}

/// Canonical `(mantissa, exponent)` of `m * 10^e`: trailing zero digits moved
/// into the exponent, zero written as `(0, 0)`.
pub open spec fn canon(m: nat, e: int) -> (nat, int)
    decreases m,
{
    if m == 0 {
        (0, 0)
    } else if m % 10 == 0 {
        canon(m / 10, e + 1)
    } else {
        (m, e)
    }
}

/// The characters of `s` other than `.`.
pub open spec fn digits_without_dot(s: Seq<char>) -> Seq<char>
    decreases s.len(),
{
    if s.len() == 0 {
        Seq::empty()
    } else if s.last() == '.' {
        digits_without_dot(s.drop_last())
    } else {
        digits_without_dot(s.drop_last()).push(s.last())
    }
}

/// Index of the first `.` in `s`, or `s.len()`.
pub open spec fn dot_index(s: Seq<char>) -> int {
    run_end(s, 0, |c: char| c != '.')
}

/// The value of a numeric literal `raw` (an optional `-` followed by digits
/// and dots): `None` when it has more than one dot, when its digits exceed
/// 38 places, or when its canonical mantissa exceeds `i64` or its exponent
/// `i32`.
pub open spec fn decimal_literal(raw: Seq<char>) -> Option<NumV> {
    let neg = raw.len() > 0 && raw[0] == '-';
    let body = if neg {
        raw.drop_first()
    } else {
        raw
    };
    let frac_len = body.len() - dot_index(body) - (if dot_index(body) < body.len() {
        1int
    } else {
        0int
    });
    let digits = digits_without_dot(body);
    let v = text::digits_val(digits);
    let c = canon(v, -frac_len);
    if count_char(body, '.') > 1 || v > u128::MAX || c.0 > i64::MAX || c.1 < i32::MIN
        || c.1 > i32::MAX {
        None
    } else {
        Some(NumV::Float(if neg {
            -(c.0 as int)
        } else {
            c.0 as int
        }, c.1))
    }
}

/// A run ends within bounds, every character before its end satisfies `p`
/// and the character at its end does not.
pub proof fn lemma_run_end_bounds(s: Seq<char>, j: int, p: spec_fn(char) -> bool)
    requires
        0 <= j <= s.len(),
    ensures
        j <= run_end(s, j, p) <= s.len(),
        forall|k: int| j <= k < run_end(s, j, p) ==> p(#[trigger] s[k]),
        run_end(s, j, p) == s.len() || !p(s[run_end(s, j, p)]),
    decreases s.len() - j,
{
    if j < s.len() && p(s[j]) {
        lemma_run_end_bounds(s, j + 1, p);
    }
}

/// A quoted string scanned from `j` ends within bounds.
pub proof fn lemma_scan_quoted_bounds(s: Seq<char>, j: int, quote: char, escaped: bool)
    requires
        0 <= j <= s.len(),
    ensures
        j <= scan_quoted(s, j, quote, escaped).1 <= s.len(),
    decreases s.len() - j,
{
    if j < s.len() {
        if escaped {
            lemma_scan_quoted_bounds(s, j + 1, quote, false);
        } else if s[j] == '\\' {
            lemma_scan_quoted_bounds(s, j + 1, quote, true);
        } else if s[j] != quote {
            lemma_scan_quoted_bounds(s, j + 1, quote, false);
        }
    }
}

/// Tokens of `s[i..]`, or `None` when it holds an invalid character sequence.
pub open spec fn tokenize_from(s: Seq<char>, i: int) -> Option<Seq<Tok>>
    decreases s.len() - i,
{
    if i < 0 || i >= s.len() {
        Some(Seq::empty())
    } else {
        let c = s[i];
        let next_is = |d: char| i + 1 < s.len() && s[i + 1] == d;
        if text::is_ws(c) {
            tokenize_from(s, i + 1)
        } else if c == '&' {
            if next_is('&') {
                prepend(Tok::AndAnd, tokenize_from(s, i + 2))
            } else {
                None
            }
        } else if c == '|' {
            if next_is('|') {
                prepend(Tok::OrOr, tokenize_from(s, i + 2))
            } else {
                None
            }
        } else if c == '=' {
            if next_is('=') {
                prepend(Tok::EqEq, tokenize_from(s, i + 2))
            } else {
                None
            }
        } else if c == '!' {
            if next_is('=') {
                prepend(Tok::BangEq, tokenize_from(s, i + 2))
            } else {
                prepend(Tok::Bang, tokenize_from(s, i + 1))
            }
        } else if c == '(' {
            prepend(Tok::LParen, tokenize_from(s, i + 1))
        } else if c == ')' {
            prepend(Tok::RParen, tokenize_from(s, i + 1))
        } else if c == '.' {
            prepend(Tok::Dot, tokenize_from(s, i + 1))
        } else if c == ':' {
            if next_is(':') {
                prepend(Tok::ColonColon, tokenize_from(s, i + 2))
            } else {
                None
            }
        } else if c == ',' {
            prepend(Tok::Comma, tokenize_from(s, i + 1))
        } else if c == '[' {
            prepend(Tok::LBracket, tokenize_from(s, i + 1))
        } else if c == ']' {
            prepend(Tok::RBracket, tokenize_from(s, i + 1))
        } else if c == '\'' || c == '"' {
            let r = scan_quoted(s, i + 1, c, false);
            proof {
                lemma_scan_quoted_bounds(s, i + 1, c, false);
            }
            prepend(Tok::Str(r.0), tokenize_from(s, r.1))
        } else if text::is_ascii_digit(c) || (c == '-' && i + 1 < s.len() && text::is_ascii_digit(
            s[i + 1],
        )) {
            let end = run_end(s, i + 1, |d: char| is_num_char(d));
            proof {
                lemma_run_end_bounds(s, i + 1, |d: char| is_num_char(d));
            }
            match decimal_literal(s.subrange(i, end)) {
                Some(n) => prepend(Tok::Num(n), tokenize_from(s, end)),
                None => None,
            }
        } else if text::is_ascii_alpha(c) || c == '_' {
            let end = run_end(s, i + 1, |d: char| is_ident_char(d));
            proof {
                lemma_run_end_bounds(s, i + 1, |d: char| is_ident_char(d));
            }
            let ident = s.subrange(i, end);
            let lower = text::ascii_lower(ident);
            let tok = if lower == "true"@ {
                Tok::Bool(true)
            } else if lower == "false"@ {
                Tok::Bool(false)
            } else {
                Tok::Ident(ident)
            };
            prepend(tok, tokenize_from(s, end))
        } else {
            None
        }
    }
}

/// Tokens of an expression.
pub open spec fn tokenize(s: Seq<char>) -> Option<Seq<Tok>> {
    tokenize_from(s, 0)
}


// ---------------------------------------------------------------------------
// Tokenizer implementation
// ---------------------------------------------------------------------------

/// A run of characters satisfying `p` from `j` that stops at `e` ends at
/// `e`.
pub proof fn lemma_run_end(s: Seq<char>, j: int, e: int, p: spec_fn(char) -> bool)
    requires
        0 <= j <= e <= s.len(),
        forall|k: int| j <= k < e ==> p(#[trigger] s[k]),
        e == s.len() || !p(s[e]),
    ensures
        run_end(s, j, p) == e,
    decreases e - j,
{
    if j < e {
        lemma_run_end(s, j + 1, e, p);
    }
}

fn scan_quoted_exec(s: &Vec<char>, start: usize, quote: char) -> (r: (Vec<char>, usize))
    requires
        start <= s.len(),
    ensures
        r.0@ == scan_quoted(s@, start as int, quote, false).0,
        r.1 as int == scan_quoted(s@, start as int, quote, false).1,
        start <= r.1 <= s.len(),
{
    let mut out: Vec<char> = Vec::new();
    let mut j = start;
    let mut escaped = false;
    while j < s.len()
        invariant
            start <= j <= s.len(),
            scan_quoted(s@, start as int, quote, false) == ({
                let r = scan_quoted(s@, j as int, quote, escaped);
                (out@ + r.0, r.1)
            }),
        decreases s.len() - j,
    {
        let c = s[j];
        if escaped {
            out.push(c);
            escaped = false;
            let ghost r = scan_quoted(s@, j + 1, quote, false);
            assert(out@.drop_last() + (seq![c] + r.0) =~= out@ + r.0);
        } else if c == '\\' {
            escaped = true;
        } else if c == quote {
            assert(out@ + Seq::<char>::empty() =~= out@);
            return (out, j + 1);
        } else {
            out.push(c);
            let ghost r = scan_quoted(s@, j + 1, quote, false);
            assert(out@.drop_last() + (seq![c] + r.0) =~= out@ + r.0);
        }
        j = j + 1;
    }
    assert(out@ + Seq::<char>::empty() =~= out@);
    (out, j)
}

fn ident_end(s: &Vec<char>, start: usize) -> (e: usize)
    requires
        start <= s.len(),
    ensures
        e as int == run_end(s@, start as int, |d: char| is_ident_char(d)),
        start <= e <= s.len(),
{
    let mut e = start;
    while e < s.len() && (('a' <= s[e] && s[e] <= 'z') || ('A' <= s[e] && s[e] <= 'Z') || ('0'
        <= s[e] && s[e] <= '9') || s[e] == '_')
        invariant
            start <= e <= s.len(),
            forall|k: int| start <= k < e ==> is_ident_char(#[trigger] s@[k]),
        decreases s.len() - e,
    {
        e = e + 1;
    }
    proof {
        lemma_run_end(s@, start as int, e as int, |d: char| is_ident_char(d));
    }
    e
}

fn number_end(s: &Vec<char>, start: usize) -> (e: usize)
    requires
        start <= s.len(),
    ensures
        e as int == run_end(s@, start as int, |d: char| is_num_char(d)),
        start <= e <= s.len(),
{
    let mut e = start;
    while e < s.len() && (('0' <= s[e] && s[e] <= '9') || s[e] == '.')
        invariant
            start <= e <= s.len(),
            forall|k: int| start <= k < e ==> is_num_char(#[trigger] s@[k]),
        decreases s.len() - e,
    {
        e = e + 1;
    }
    proof {
        lemma_run_end(s@, start as int, e as int, |d: char| is_num_char(d));
    }
    e
}

fn canon_exec(m: u128, e: i128) -> (r: (u128, i128))
    requires
        -0x1_0000_0000_0000_0000 <= e <= 0x1_0000_0000_0000_0000,
    ensures
        r.0 as nat == canon(m as nat, e as int).0,
        r.1 as int == canon(m as nat, e as int).1,
{
    if m == 0 {
        return (0, 0);
    }
    let mut mm = m;
    let mut ee = e;
    assert(pow10_nat(0) == 1);
    assert(mm * pow10_nat(0) == m) by (nonlinear_arith)
        requires
            pow10_nat(0) == 1,
            mm == m,
    ;
    while mm % 10 == 0
        invariant
            -0x1_0000_0000_0000_0000 <= e <= 0x1_0000_0000_0000_0000,
            mm > 0,
            e <= ee <= e + 40,
            mm * pow10_nat((ee - e) as nat) == m,
            canon(m as nat, e as int) == canon(mm as nat, ee as int),
        decreases mm,
    {
        proof {
            lemma_pow10_nat_step((ee - e) as nat);
            lemma_canon_bound(m, mm, (ee - e) as nat);
        }
        mm = mm / 10;
        ee = ee + 1;
    }
    (mm, ee)
}

/// Ten to the power `n`.
pub open spec fn pow10_nat(n: nat) -> nat
    decreases n,
{
    if n == 0 {
        1
    } else {
        10 * pow10_nat((n - 1) as nat)
    }
}

proof fn lemma_pow10_nat_step(n: nat)
    ensures
        pow10_nat(n + 1) == 10 * pow10_nat(n),
        pow10_nat(n) >= 1,
    decreases n,
{
    if n > 0 {
        lemma_pow10_nat_step((n - 1) as nat);
    }
}

proof fn lemma_canon_bound(m: u128, mm: u128, k: nat)
    requires
        mm > 0,
        mm * pow10_nat(k) == m,
        mm % 10 == 0,
    ensures
        (mm / 10) * pow10_nat(k + 1) == m,
        k + 1 <= 40,
    decreases k,
{
    lemma_pow10_nat_step(k);
    assert((mm / 10) * (10 * pow10_nat(k)) == mm * pow10_nat(k)) by (nonlinear_arith)
        requires
            mm % 10 == 0,
    ;
    lemma_pow10_grows(k + 1);
    assert(pow10_nat(k + 1) <= m) by (nonlinear_arith)
        requires
            (mm / 10) * pow10_nat(k + 1) == m,
            mm / 10 >= 1,
    ;
}

proof fn lemma_pow10_grows(k: nat)
    ensures
        k >= 40 ==> pow10_nat(k) > u128::MAX,
    decreases k,
{
    if k > 40 {
        lemma_pow10_grows((k - 1) as nat);
        lemma_pow10_nat_step((k - 1) as nat);
    } else if k == 40 {
        reveal_with_fuel(pow10_nat, 41);
    }
}

proof fn lemma_count_push(s: Seq<char>, c: char, d: char)
    ensures
        count_char(s.push(c), d) == count_char(s, d) + if c == d {
            1nat
        } else {
            0nat
        },
        digits_without_dot(s.push(c)) == if c == '.' {
            digits_without_dot(s)
        } else {
            digits_without_dot(s).push(c)
        },
{
    assert(s.push(c).drop_last() =~= s);
}

proof fn lemma_digits_val_push(s: Seq<char>, c: char)
    ensures
        text::digits_val(s.push(c)) == text::digits_val(s) * 10 + ((c as u32) - ('0' as u32)) as nat,
{
    assert(s.push(c).drop_last() =~= s);
}

proof fn lemma_dwd_mono(s: Seq<char>, i: int)
    requires
        0 <= i <= s.len(),
        forall|k: int| 0 <= k < s.len() ==> is_num_char(#[trigger] s[k]),
    ensures
        text::digits_val(digits_without_dot(s.take(i))) <= text::digits_val(digits_without_dot(s)),
    decreases s.len() - i,
{
    if i < s.len() {
        lemma_dwd_mono(s, i + 1);
        assert(s.take(i + 1) =~= s.take(i).push(s[i]));
        lemma_count_push(s.take(i), s[i], '.');
        if s[i] != '.' {
            lemma_digits_val_push(digits_without_dot(s.take(i)), s[i]);
        }
    } else {
        assert(s.take(i) =~= s);
    }
}

/// Value of a numeric literal (`decimal_literal`).
fn decimal_literal_exec(raw: &Vec<char>) -> (r: Option<JsonNumber>)
    requires
        forall|k: int| 1 <= k < raw.len() ==> is_num_char(#[trigger] raw@[k]),
        raw.len() > 0 ==> (raw@[0] == '-' || is_num_char(raw@[0])),
    ensures
        match decimal_literal(raw@) {
            Some(n) => r is Some && r->0@ == n,
            None => r is None,
        },
{
    let neg = raw.len() > 0 && raw[0] == '-';
    let start: usize = if neg {
        1
    } else {
        0
    };
    let ghost body = raw@.subrange(start as int, raw.len() as int);
    assert(body =~= (if neg {
        raw@.drop_first()
    } else {
        raw@
    }));
    assert forall|k: int| 0 <= k < body.len() implies is_num_char(#[trigger] body[k]) by {
        assert(body[k] == raw@[start + k]);
    }
    let mut dots: usize = 0;
    let mut first_dot: usize = raw.len();
    let mut v: u128 = 0;
    let mut i = start;
    while i < raw.len()
        invariant
            start <= i <= raw.len(),
            start <= 1,
            neg == (raw@.len() > 0 && raw@[0] == '-'),
            start == (if neg {
                1usize
            } else {
                0usize
            }),
            body == (if neg {
                raw@.drop_first()
            } else {
                raw@
            }),
            body == raw@.subrange(start as int, raw.len() as int),
            forall|k: int| 0 <= k < body.len() ==> is_num_char(#[trigger] body[k]),
            dots as nat == count_char(body.take(i - start), '.'),
            dots <= 1,
            v as nat == text::digits_val(digits_without_dot(body.take(i - start))),
            dots == 0 ==> first_dot == raw.len() && forall|k: int|
                0 <= k < i - start ==> #[trigger] body[k] != '.',
            dots == 1 ==> start <= first_dot < i && body[first_dot - start] == '.' && forall|
                k: int,
            |
                0 <= k < first_dot - start ==> #[trigger] body[k] != '.',
        decreases raw.len() - i,
    {
        let c = raw[i];
        assert(c == body[i - start]);
        assert(body.take(i - start).push(c) =~= body.take(i - start + 1));
        proof {
            lemma_count_push(body.take(i - start), c, '.');
        }
        if c == '.' {
            if dots == 1 {
                proof {
                    lemma_count_mono(body, i - start + 1);
                    assert(count_char(body, '.') > 1);
                }
                return None;
            }
            dots = 1;
            first_dot = i;
        } else {
            let d = ((c as u32) - ('0' as u32)) as u128;
            proof {
                lemma_digits_val_push(digits_without_dot(body.take(i - start)), c);
            }
            if v > (u128::MAX - d) / 10 {
                proof {
                    assert(v * 10 + d > u128::MAX) by (nonlinear_arith)
                        requires
                            v > (u128::MAX - d) / 10,
                            d <= 9,
                    ;
                    lemma_dwd_mono(body, i - start + 1);
                    assert(digits_without_dot(body.take(i - start + 1)) == digits_without_dot(
                        body.take(i - start),
                    ).push(c));
                    assert(text::digits_val(digits_without_dot(body)) > u128::MAX);
                }
                return None;
            }
            assert(v * 10 + d <= u128::MAX) by (nonlinear_arith)
                requires
                    v <= (u128::MAX - d) / 10,
                    d <= 9,
            ;
            v = v * 10 + d;
        }
        i = i + 1;
    }
    assert(body.take(i - start) =~= body);
    let frac: i128 = if dots == 1 {
        (raw.len() - first_dot - 1) as i128
    } else {
        0
    };
    proof {
        if dots == 1 {
            lemma_run_end(body, 0, first_dot - start, |c: char| c != '.');
        } else {
            lemma_run_end(body, 0, body.len() as int, |c: char| c != '.');
        }
    }
    let (cm, ce) = canon_exec(v, -frac);
    if cm > i64::MAX as u128 || ce < i32::MIN as i128 || ce > i32::MAX as i128 {
        return None;
    }
    let m: i64 = if neg {
        -(cm as i64)
    } else {
        cm as i64
    };
    Some(JsonNumber::Float(m, ce as i32))
}

proof fn lemma_count_mono(s: Seq<char>, i: int)
    requires
        0 <= i <= s.len(),
    ensures
        count_char(s.take(i), '.') <= count_char(s, '.'),
    decreases s.len() - i,
{
    if i < s.len() {
        lemma_count_mono(s, i + 1);
        assert(s.take(i + 1) =~= s.take(i).push(s[i]));
        lemma_count_push(s.take(i), s[i], '.');
    } else {
        assert(s.take(i) =~= s);
    }
}


proof fn lemma_push_tok(old_toks: Seq<ExprToken>, tok: ExprToken, rest: Option<Seq<Tok>>)
    ensures
        (match prepend(tok@, rest) {
            Some(t) => Some(toks_view(old_toks) + t),
            None => None,
        }) == (match rest {
            Some(t) => Some(toks_view(old_toks.push(tok)) + t),
            None => None::<Seq<Tok>>,
        }),
{
    if let Some(t) = rest {
        assert(toks_view(old_toks) + (seq![tok@] + t) =~= toks_view(old_toks.push(tok)) + t);
    }
}

/// Tokens of an expression (`tokenize`).
pub fn tokenize_expression(s: &Vec<char>) -> (r: Option<Vec<ExprToken>>)
    ensures
        match tokenize(s@) {
            Some(t) => r is Some && toks_view(r->0@) == t,
            None => r is None,
        },
{
    let mut toks: Vec<ExprToken> = Vec::new();
    let mut i: usize = 0;
    assert(toks_view(toks@) + Seq::<Tok>::empty() =~= Seq::<Tok>::empty());
    while i < s.len()
        invariant
            i <= s.len(),
            tokenize_from(s@, 0) == (match tokenize_from(s@, i as int) {
                Some(t) => Some(toks_view(toks@) + t),
                None => None,
            }),
        decreases s.len() - i,
    {
        let c = s[i];
        let next: Option<char> = if i + 1 < s.len() {
            Some(s[i + 1])
        } else {
            None
        };
        if text::is_ws_char(c) {
            i = i + 1;
        } else {
            let step: Option<(ExprToken, usize)> = if c == '&' {
                if next == Some('&') {
                    Some((ExprToken::AndAnd, i + 2))
                } else {
                    None
                }
            } else if c == '|' {
                if next == Some('|') {
                    Some((ExprToken::OrOr, i + 2))
                } else {
                    None
                }
            } else if c == '=' {
                if next == Some('=') {
                    Some((ExprToken::EqEq, i + 2))
                } else {
                    None
                }
            } else if c == '!' {
                if next == Some('=') {
                    Some((ExprToken::BangEq, i + 2))
                } else {
                    Some((ExprToken::Bang, i + 1))
                }
            } else if c == '(' {
                Some((ExprToken::LParen, i + 1))
            } else if c == ')' {
                Some((ExprToken::RParen, i + 1))
            } else if c == '.' {
                Some((ExprToken::Dot, i + 1))
            } else if c == ':' {
                if next == Some(':') {
                    Some((ExprToken::ColonColon, i + 2))
                } else {
                    None
                }
            } else if c == ',' {
                Some((ExprToken::Comma, i + 1))
            } else if c == '[' {
                Some((ExprToken::LBracket, i + 1))
            } else if c == ']' {
                Some((ExprToken::RBracket, i + 1))
            } else if c == '\'' || c == '"' {
                let (v, j) = scan_quoted_exec(s, i + 1, c);
                Some((ExprToken::Str(v), j))
            } else if ('0' <= c && c <= '9') || (c == '-' && i + 1 < s.len() && '0' <= s[i + 1]
                && s[i + 1] <= '9') {
                let end = number_end(s, i + 1);
                let raw = text::slice_chars(s, i, end);
                proof {
                    lemma_run_end_bounds(s@, i + 1, |d: char| is_num_char(d));
                    assert forall|k: int| 1 <= k < raw@.len() implies is_num_char(
                        #[trigger] raw@[k],
                    ) by {
                        assert(raw@[k] == s@[i + k]);
                    }
                }
                match decimal_literal_exec(&raw) {
                    Some(n) => Some((ExprToken::Num(n), end)),
                    None => None,
                }
            } else if ('a' <= c && c <= 'z') || ('A' <= c && c <= 'Z') || c == '_' {
                let end = ident_end(s, i + 1);
                let ident = text::slice_chars(s, i, end);
                let lower = text::lower_chars(&ident);
                if text::chars_eq_str(&lower, "true") {
                    Some((ExprToken::Bool(true), end))
                } else if text::chars_eq_str(&lower, "false") {
                    Some((ExprToken::Bool(false), end))
                } else {
                    Some((ExprToken::Ident(ident), end))
                }
            } else {
                None
            };
            match step {
                None => {
                    assert(tokenize_from(s@, i as int) is None);
                    return None;
                },
                Some((tok, j)) => {
                    assert(i < j <= s.len());
                    assert(tokenize_from(s@, i as int) == prepend(tok@, tokenize_from(s@, j as int)));
                    proof {
                        lemma_push_tok(toks@, tok, tokenize_from(s@, j as int));
                    }
                    toks.push(tok);
                    i = j;
                },
            }
        }
    }
    assert(toks_view(toks@) + Seq::<Tok>::empty() =~= toks_view(toks@));
    Some(toks)
}


// ---------------------------------------------------------------------------
// Evaluator specification
// ---------------------------------------------------------------------------

/// A context of named values: the first entry with a name gives its value.
pub type Ctx = Seq<(Seq<char>, JsonV)>;

/// The value bound to `name`, `null` when unbound.
pub open spec fn lookup(ctx: Ctx, name: Seq<char>) -> JsonV {
    json::property(JsonV::Obj(ctx), name)
}

/// Token `k` stands at index `i`.
pub open spec fn tok_at(t: Seq<Tok>, i: int, k: Tok) -> bool {
    0 <= i < t.len() && t[i] == k
}

/// An `||` expression at token `i`: its value and the index after it.
pub open spec fn p_or(t: Seq<Tok>, i: int, ctx: Ctx) -> Option<(JsonV, int)>
    decreases t.len() - i, 4int,
{
    if i < 0 || i > t.len() {
        None
    } else {
        match p_and(t, i, ctx) {
            Some((l, j)) => if i < j <= t.len() {
                p_or_tail(t, l, j, ctx)
            } else {
                None
            },
            None => None,
        }
    }
}

/// The rest of an `||` chain whose value so far is `l`.
pub open spec fn p_or_tail(t: Seq<Tok>, l: JsonV, i: int, ctx: Ctx) -> Option<(JsonV, int)>
    decreases t.len() - i, 0int,
{
    if tok_at(t, i, Tok::OrOr) {
        match p_and(t, i + 1, ctx) {
            Some((r, j)) => if i + 1 < j <= t.len() {
                p_or_tail(t, JsonV::Bool(json::truthy(l) || json::truthy(r)), j, ctx)
            } else {
                None
            },
            None => None,
        }
    } else {
        Some((l, i))
    }
}

/// An `&&` expression at token `i`: its value and the index after it.
pub open spec fn p_and(t: Seq<Tok>, i: int, ctx: Ctx) -> Option<(JsonV, int)>
    decreases t.len() - i, 3int,
{
    if i < 0 || i > t.len() {
        None
    } else {
        match p_eq(t, i, ctx) {
            Some((l, j)) => if i < j <= t.len() {
                p_and_tail(t, l, j, ctx)
            } else {
                None
            },
            None => None,
        }
    }
}

/// The rest of an `&&` chain whose value so far is `l`.
pub open spec fn p_and_tail(t: Seq<Tok>, l: JsonV, i: int, ctx: Ctx) -> Option<(JsonV, int)>
    decreases t.len() - i, 0int,
{
    if tok_at(t, i, Tok::AndAnd) {
        match p_eq(t, i + 1, ctx) {
            Some((r, j)) => if i + 1 < j <= t.len() {
                p_and_tail(t, JsonV::Bool(json::truthy(l) && json::truthy(r)), j, ctx)
            } else {
                None
            },
            None => None,
        }
    } else {
        Some((l, i))
    }
}

/// An `==` / `!=` expression at token `i`: its value and the index after it.
pub open spec fn p_eq(t: Seq<Tok>, i: int, ctx: Ctx) -> Option<(JsonV, int)>
    decreases t.len() - i, 2int,
{
    if i < 0 || i > t.len() {
        None
    } else {
        match p_unary(t, i, ctx) {
            Some((l, j)) => if i < j <= t.len() {
                p_eq_tail(t, l, j, ctx)
            } else {
                None
            },
            None => None,
        }
    }
}

/// The rest of an `==` / `!=` chain whose value so far is `l`.
pub open spec fn p_eq_tail(t: Seq<Tok>, l: JsonV, i: int, ctx: Ctx) -> Option<(JsonV, int)>
    decreases t.len() - i, 0int,
{
    if tok_at(t, i, Tok::EqEq) || tok_at(t, i, Tok::BangEq) {
        let negate = tok_at(t, i, Tok::BangEq);
        match p_unary(t, i + 1, ctx) {
            Some((r, j)) => if i + 1 < j <= t.len() {
                let e = json::json_eq(l, r);
                p_eq_tail(t, JsonV::Bool(if negate {
                    !e
                } else {
                    e
                }), j, ctx)
            } else {
                None
            },
            None => None,
        }
    } else {
        Some((l, i))
    }
}

/// `!` prefixes followed by a primary expression.
pub open spec fn p_unary(t: Seq<Tok>, i: int, ctx: Ctx) -> Option<(JsonV, int)>
    decreases t.len() - i, 1int,
{
    if tok_at(t, i, Tok::Bang) {
        match p_unary(t, i + 1, ctx) {
            Some((v, j)) => Some((JsonV::Bool(!json::truthy(v)), j)),
            None => None,
        }
    } else {
        p_primary(t, i, ctx)
    }
}

/// A parenthesized expression, a literal, an enum path, or a name followed
/// by property accesses, indexing and method calls.
pub open spec fn p_primary(t: Seq<Tok>, i: int, ctx: Ctx) -> Option<(JsonV, int)>
    decreases t.len() - i, 0int,
{
    if i < 0 || i >= t.len() {
        None
    } else {
        match t[i] {
            Tok::LParen => match p_or(t, i + 1, ctx) {
                Some((v, j)) => if i + 1 < j && tok_at(t, j, Tok::RParen) {
                    Some((v, j + 1))
                } else {
                    None
                },
                None => None,
            },
            Tok::Bool(b) => Some((JsonV::Bool(b), i + 1)),
            Tok::Num(n) => Some((JsonV::Num(n), i + 1)),
            Tok::Str(v) => Some((JsonV::Str(v), i + 1)),
            Tok::Ident(name) => if tok_at(t, i + 1, Tok::ColonColon) {
                p_path(t, name, i + 1)
            } else {
                chain_tail(t, lookup(ctx, name), i + 1, ctx)
            },
            _ => None,
        }
    }
}

/// `A::B::C` evaluates to the string of its last segment.
pub open spec fn p_path(t: Seq<Tok>, last: Seq<char>, i: int) -> Option<(JsonV, int)>
    decreases t.len() - i,
{
    if tok_at(t, i, Tok::ColonColon) {
        if i + 1 < t.len() && t[i + 1] is Ident {
            p_path(t, t[i + 1]->Ident_0, i + 2)
        } else {
            None
        }
    } else {
        Some((JsonV::Str(last), i))
    }
}

/// Property accesses, indexing and method calls applied to `cur`.
pub open spec fn chain_tail(t: Seq<Tok>, cur: JsonV, i: int, ctx: Ctx) -> Option<(JsonV, int)>
    decreases t.len() - i, 0int,
{
    if tok_at(t, i, Tok::Dot) {
        if i + 1 < t.len() && t[i + 1] is Ident {
            let name = t[i + 1]->Ident_0;
            if tok_at(t, i + 2, Tok::LParen) {
                match p_args(t, i + 3, ctx) {
                    Some((args, k)) => if i + 3 < k <= t.len() {
                        chain_tail(t, json::method_value(cur, name, args), k, ctx)
                    } else {
                        None
                    },
                    None => None,
                }
            } else {
                chain_tail(t, json::property(cur, name), i + 2, ctx)
            }
        } else {
            None
        }
    } else if tok_at(t, i, Tok::LBracket) {
        if i + 1 < t.len() {
            let idx = match t[i + 1] {
                Tok::Num(n) => Some(JsonV::Num(n)),
                Tok::Str(v) => Some(JsonV::Str(v)),
                Tok::Ident(v) => Some(lookup(ctx, v)),
                _ => None,
            };
            match idx {
                Some(x) => if tok_at(t, i + 2, Tok::RBracket) {
                    chain_tail(t, json::index_value(cur, x), i + 3, ctx)
                } else {
                    None
                },
                None => None,
            }
        } else {
            None
        }
    } else {
        Some((cur, i))
    }
}

/// The arguments of a call after its `(`, and the index after the `)`.
pub open spec fn p_args(t: Seq<Tok>, i: int, ctx: Ctx) -> Option<(Seq<JsonV>, int)>
    decreases t.len() - i, 6int,
{
    if tok_at(t, i, Tok::RParen) {
        Some((Seq::empty(), i + 1))
    } else {
        args_loop(t, i, Seq::empty(), ctx)
    }
}

/// Arguments from token `i` on, after those already read into `acc`.
pub open spec fn args_loop(t: Seq<Tok>, i: int, acc: Seq<JsonV>, ctx: Ctx) -> Option<
    (Seq<JsonV>, int),
>
    decreases t.len() - i, 5int,
{
    if i < 0 || i > t.len() {
        None
    } else {
        match p_or(t, i, ctx) {
            Some((a, j)) => if i < j <= t.len() {
                if tok_at(t, j, Tok::Comma) {
                    args_loop(t, j + 1, acc.push(a), ctx)
                } else if tok_at(t, j, Tok::RParen) {
                    Some((acc.push(a), j + 1))
                } else {
                    None
                }
            } else {
                None
            },
            None => None,
        }
    }
}

/// The value of expression `s` in context `ctx`, or `None` when it does not
/// tokenize or parse as a whole.
pub open spec fn evaluate(s: Seq<char>, ctx: Ctx) -> Option<JsonV> {
    match tokenize(s) {
        None => None,
        Some(t) => match p_or(t, 0, ctx) {
            Some((v, j)) => if j == t.len() {
                Some(v)
            } else {
                None
            },
            None => None,
        },
    }
}


// ---------------------------------------------------------------------------
// Evaluator implementation
// ---------------------------------------------------------------------------

/// `r` is the executable form of the spec result `s`.
pub open spec fn res_ok(r: Option<(JsonValue, usize)>, s: Option<(JsonV, int)>) -> bool {
    match s {
        Some((v, j)) => r is Some && r.unwrap().0@ == v && r.unwrap().1 as int == j,
        None => r is None,
    }
}

/// A token that carries no value (an operator or delimiter).
pub open spec fn is_punct(k: Tok) -> bool {
    !(k is Ident || k is Str || k is Num || k is Bool)
}

/// Whether token `i` is the punctuation token `k`.
fn punct_at(t: &Vec<ExprToken>, i: usize, k: &ExprToken) -> (b: bool)
    requires
        is_punct(k@),
    ensures
        b == tok_at(toks_view(t@), i as int, k@),
{
    if i >= t.len() {
        return false;
    }
    let r = match (&t[i], k) {
        (ExprToken::LParen, ExprToken::LParen) => true,
        (ExprToken::RParen, ExprToken::RParen) => true,
        (ExprToken::Dot, ExprToken::Dot) => true,
        (ExprToken::ColonColon, ExprToken::ColonColon) => true,
        (ExprToken::Comma, ExprToken::Comma) => true,
        (ExprToken::LBracket, ExprToken::LBracket) => true,
        (ExprToken::RBracket, ExprToken::RBracket) => true,
        (ExprToken::EqEq, ExprToken::EqEq) => true,
        (ExprToken::BangEq, ExprToken::BangEq) => true,
        (ExprToken::AndAnd, ExprToken::AndAnd) => true,
        (ExprToken::OrOr, ExprToken::OrOr) => true,
        (ExprToken::Bang, ExprToken::Bang) => true,
        _ => false,
    };
    assert(toks_view(t@)[i as int] == t@[i as int]@);
    r
}

/// The value bound to `name` in `ctx` (`lookup`).
pub fn ctx_lookup(ctx: &Vec<(String, JsonValue)>, name: &Vec<char>) -> (r: JsonValue)
    ensures
        r@ == lookup(json::entries_view(ctx@), name@),
{
    match json::find_key_exec(ctx, name) {
        Some(k) => {
            assert(json::entries_view(ctx@)[k as int].1 == ctx@[k as int].1@);
            json::json_clone(&ctx[k].1)
        },
        None => JsonValue::Null,
    }
}

fn parse_or(t: &Vec<ExprToken>, i: usize, ctx: &Vec<(String, JsonValue)>) -> (r: Option<(JsonValue, usize)>)
    requires
        i <= t.len(),
    ensures
        res_ok(r, p_or(toks_view(t@), i as int, json::entries_view(ctx@))),
        r is Some ==> i < r.unwrap().1 <= t.len(),
    decreases t.len() - i, 4int,
{
    match parse_and(t, i, ctx) {
        None => None,
        Some((l, j)) => parse_or_tail(t, l, j, ctx),
    }
}

fn parse_or_tail(t: &Vec<ExprToken>, l: JsonValue, i: usize, ctx: &Vec<(String, JsonValue)>) -> (r:
    Option<(JsonValue, usize)>)
    requires
        i <= t.len(),
    ensures
        res_ok(r, p_or_tail(toks_view(t@), l@, i as int, json::entries_view(ctx@))),
        r is Some ==> i <= r.unwrap().1 <= t.len(),
    decreases t.len() - i, 0int,
{
    if punct_at(t, i, &ExprToken::OrOr) {
        match parse_and(t, i + 1, ctx) {
            None => None,
            Some((r, j)) => {
                let b = json::value_truthy(&l) || json::value_truthy(&r);
                parse_or_tail(t, JsonValue::Bool(b), j, ctx)
            },
        }
    } else {
        Some((l, i))
    }
}

fn parse_and(t: &Vec<ExprToken>, i: usize, ctx: &Vec<(String, JsonValue)>) -> (r: Option<(JsonValue, usize)>)
    requires
        i <= t.len(),
    ensures
        res_ok(r, p_and(toks_view(t@), i as int, json::entries_view(ctx@))),
        r is Some ==> i < r.unwrap().1 <= t.len(),
    decreases t.len() - i, 3int,
{
    match parse_equality(t, i, ctx) {
        None => None,
        Some((l, j)) => parse_and_tail(t, l, j, ctx),
    }
}

fn parse_and_tail(t: &Vec<ExprToken>, l: JsonValue, i: usize, ctx: &Vec<(String, JsonValue)>) -> (r:
    Option<(JsonValue, usize)>)
    requires
        i <= t.len(),
    ensures
        res_ok(r, p_and_tail(toks_view(t@), l@, i as int, json::entries_view(ctx@))),
        r is Some ==> i <= r.unwrap().1 <= t.len(),
    decreases t.len() - i, 0int,
{
    if punct_at(t, i, &ExprToken::AndAnd) {
        match parse_equality(t, i + 1, ctx) {
            None => None,
            Some((r, j)) => {
                let b = json::value_truthy(&l) && json::value_truthy(&r);
                parse_and_tail(t, JsonValue::Bool(b), j, ctx)
            },
        }
    } else {
        Some((l, i))
    }
}

fn parse_equality(t: &Vec<ExprToken>, i: usize, ctx: &Vec<(String, JsonValue)>) -> (r: Option<(JsonValue, usize)>)
    requires
        i <= t.len(),
    ensures
        res_ok(r, p_eq(toks_view(t@), i as int, json::entries_view(ctx@))),
        r is Some ==> i < r.unwrap().1 <= t.len(),
    decreases t.len() - i, 2int,
{
    match parse_unary(t, i, ctx) {
        None => None,
        Some((l, j)) => parse_equality_tail(t, l, j, ctx),
    }
}

fn parse_equality_tail(t: &Vec<ExprToken>, l: JsonValue, i: usize, ctx: &Vec<(String, JsonValue)>) -> (r:
    Option<(JsonValue, usize)>)
    requires
        i <= t.len(),
    ensures
        res_ok(r, p_eq_tail(toks_view(t@), l@, i as int, json::entries_view(ctx@))),
        r is Some ==> i <= r.unwrap().1 <= t.len(),
    decreases t.len() - i, 0int,
{
    let is_eq = punct_at(t, i, &ExprToken::EqEq);
    let is_ne = punct_at(t, i, &ExprToken::BangEq);
    if is_eq || is_ne {
        match parse_unary(t, i + 1, ctx) {
            None => None,
            Some((r, j)) => {
                let e = json::json_values_equal(&l, &r);
                let b = if is_ne {
                    !e
                } else {
                    e
                };
                parse_equality_tail(t, JsonValue::Bool(b), j, ctx)
            },
        }
    } else {
        Some((l, i))
    }
}

fn parse_unary(t: &Vec<ExprToken>, i: usize, ctx: &Vec<(String, JsonValue)>) -> (r: Option<(JsonValue, usize)>)
    requires
        i <= t.len(),
    ensures
        res_ok(r, p_unary(toks_view(t@), i as int, json::entries_view(ctx@))),
        r is Some ==> i < r.unwrap().1 <= t.len(),
    decreases t.len() - i, 1int,
{
    if punct_at(t, i, &ExprToken::Bang) {
        match parse_unary(t, i + 1, ctx) {
            None => None,
            Some((v, j)) => Some((JsonValue::Bool(!json::value_truthy(&v)), j)),
        }
    } else {
        parse_primary(t, i, ctx)
    }
}

fn parse_primary(t: &Vec<ExprToken>, i: usize, ctx: &Vec<(String, JsonValue)>) -> (r: Option<(JsonValue, usize)>)
    requires
        i <= t.len(),
    ensures
        res_ok(r, p_primary(toks_view(t@), i as int, json::entries_view(ctx@))),
        r is Some ==> i < r.unwrap().1 <= t.len(),
    decreases t.len() - i, 0int,
{
    if i >= t.len() {
        return None;
    }
    assert(toks_view(t@)[i as int] == t@[i as int]@);
    match &t[i] {
        ExprToken::LParen => match parse_or(t, i + 1, ctx) {
            None => None,
            Some((v, j)) => {
                if punct_at(t, j, &ExprToken::RParen) {
                    Some((v, j + 1))
                } else {
                    None
                }
            },
        },
        ExprToken::Bool(b) => Some((JsonValue::Bool(*b), i + 1)),
        ExprToken::Num(n) => Some((JsonValue::Number(*n), i + 1)),
        ExprToken::Str(v) => Some((JsonValue::String(text::chars_to_string(v)), i + 1)),
        ExprToken::Ident(name) => {
            if punct_at(t, i + 1, &ExprToken::ColonColon) {
                parse_rust_path_literal(t, name, i + 1)
            } else {
                let cur = ctx_lookup(ctx, name);
                parse_identifier_chain(t, cur, i + 1, ctx)
            }
        },
        _ => None,
    }
}

fn parse_rust_path_literal(t: &Vec<ExprToken>, last: &Vec<char>, i: usize) -> (r: Option<(JsonValue, usize)>)
    requires
        i <= t.len(),
    ensures
        res_ok(r, p_path(toks_view(t@), last@, i as int)),
        r is Some ==> i <= r.unwrap().1 <= t.len(),
    decreases t.len() - i,
{
    if punct_at(t, i, &ExprToken::ColonColon) {
        if i + 1 < t.len() {
            assert(toks_view(t@)[i + 1] == t@[i + 1]@);
            match &t[i + 1] {
                ExprToken::Ident(name) => parse_rust_path_literal(t, name, i + 2),
                _ => None,
            }
        } else {
            None
        }
    } else {
        Some((JsonValue::String(text::chars_to_string(last)), i))
    }
}

fn parse_identifier_chain(t: &Vec<ExprToken>, cur: JsonValue, i: usize, ctx: &Vec<(String, JsonValue)>) -> (r:
    Option<(JsonValue, usize)>)
    requires
        i <= t.len(),
    ensures
        res_ok(r, chain_tail(toks_view(t@), cur@, i as int, json::entries_view(ctx@))),
        r is Some ==> i <= r.unwrap().1 <= t.len(),
    decreases t.len() - i, 0int,
{
    if punct_at(t, i, &ExprToken::Dot) {
        if i + 1 < t.len() {
            assert(toks_view(t@)[i + 1] == t@[i + 1]@);
            match &t[i + 1] {
                ExprToken::Ident(name) => {
                    if punct_at(t, i + 2, &ExprToken::LParen) {
                        match parse_call_arguments(t, i + 3, ctx) {
                            None => None,
                            Some((args, k)) => {
                                let v = json::evaluate_value_method(&cur, name, &args);
                                parse_identifier_chain(t, v, k, ctx)
                            },
                        }
                    } else {
                        let v = json::resolve_json_property(&cur, name);
                        parse_identifier_chain(t, v, i + 2, ctx)
                    }
                },
                _ => None,
            }
        } else {
            None
        }
    } else if punct_at(t, i, &ExprToken::LBracket) {
        if i + 1 < t.len() {
            assert(toks_view(t@)[i + 1] == t@[i + 1]@);
            let idx: Option<JsonValue> = match &t[i + 1] {
                ExprToken::Num(n) => Some(JsonValue::Number(*n)),
                ExprToken::Str(v) => Some(JsonValue::String(text::chars_to_string(v))),
                ExprToken::Ident(v) => Some(ctx_lookup(ctx, v)),
                _ => None,
            };
            match idx {
                None => None,
                Some(x) => {
                    if punct_at(t, i + 2, &ExprToken::RBracket) {
                        let v = json::resolve_json_index(&cur, &x);
                        parse_identifier_chain(t, v, i + 3, ctx)
                    } else {
                        None
                    }
                },
            }
        } else {
            None
        }
    } else {
        Some((cur, i))
    }
}

fn parse_call_arguments(t: &Vec<ExprToken>, i: usize, ctx: &Vec<(String, JsonValue)>) -> (r: Option<
    (Vec<JsonValue>, usize),
>)
    requires
        i <= t.len(),
    ensures
        match p_args(toks_view(t@), i as int, json::entries_view(ctx@)) {
            Some((a, j)) => r is Some && json::values_view(r.unwrap().0@) == a && r.unwrap().1 as int == j,
            None => r is None,
        },
        r is Some ==> i < r.unwrap().1 <= t.len(),
    decreases t.len() - i, 6int,
{
    if punct_at(t, i, &ExprToken::RParen) {
        let v: Vec<JsonValue> = Vec::new();
        assert(json::values_view(v@) =~= Seq::<JsonV>::empty());
        Some((v, i + 1))
    } else {
        let v: Vec<JsonValue> = Vec::new();
        assert(json::values_view(v@) =~= Seq::<JsonV>::empty());
        parse_call_arguments_rest(t, i, v, ctx)
    }
}

fn parse_call_arguments_rest(t: &Vec<ExprToken>, i: usize, acc: Vec<JsonValue>, ctx: &Vec<(String, JsonValue)>) -> (r:
    Option<(Vec<JsonValue>, usize)>)
    requires
        i <= t.len(),
    ensures
        match args_loop(
            toks_view(t@),
            i as int,
            json::values_view(acc@),
            json::entries_view(ctx@),
        ) {
            Some((a, j)) => r is Some && json::values_view(r.unwrap().0@) == a && r.unwrap().1 as int == j,
            None => r is None,
        },
        r is Some ==> i < r.unwrap().1 <= t.len(),
    decreases t.len() - i, 5int,
{
    match parse_or(t, i, ctx) {
        None => None,
        Some((a, j)) => {
            let mut acc = acc;
            let ghost av = a@;
            let ghost old_acc = json::values_view(acc@);
            acc.push(a);
            assert(json::values_view(acc@) =~= old_acc.push(av));
            if punct_at(t, j, &ExprToken::Comma) {
                parse_call_arguments_rest(t, j + 1, acc, ctx)
            } else if punct_at(t, j, &ExprToken::RParen) {
                Some((acc, j + 1))
            } else {
                None
            }
        },
    }
}

/// The value of an expression (`evaluate`).
pub fn evaluate_expression(s: &Vec<char>, ctx: &Vec<(String, JsonValue)>) -> (r: Option<JsonValue>)
    ensures
        match evaluate(s@, json::entries_view(ctx@)) {
            Some(v) => r is Some && r->0@ == v,
            None => r is None,
        },
{
    let toks = match tokenize_expression(s) {
        None => return None,
        Some(t) => t,
    };
    match parse_or(&toks, 0, ctx) {
        None => None,
        Some((v, j)) => {
            if j == toks.len() {
                Some(v)
            } else {
                None
            }
        },
    }
}

} // verus!

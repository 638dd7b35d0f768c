//! The lexical scanner: turns source text into a token sequence ending in
//! an end-of-stream sentinel.
//!
//! An unrecognized character and an oversized number literal are non-fatal:
//! each is reported as a diagnostic and scanning continues. An unterminated
//! string literal is fatal: it is reported and the scan stops at once.
//!
//! The whole behaviour of the scanner is specified by the ghost scanner
//! [`scan_from`], and [`scan_tokens`] is proved to implement it.

use vstd::prelude::*;

use crate::diagnostics::{DiagV, Diagnostic};
use crate::numbers::LoxNum;
use crate::text::push_char;
use crate::tokens::{keyword_of, spec_keyword, Token, TokenType, TokenTypeV, TokenV};

verus! {

/// A decimal digit.
pub open spec fn is_digit(c: char) -> bool {
    48 <= c as int <= 57
}

/// A letter or underscore: the characters identifiers are made of.
pub open spec fn is_ident_char(c: char) -> bool {
    (97 <= c as int <= 122) || (65 <= c as int <= 90) || c as int == 95
}

/// The first position at or after `i` that does not hold a digit.
pub open spec fn digits_end(src: Seq<char>, i: int) -> int
    decreases src.len() - i
        when 0 <= i <= src.len()
{
    if i < src.len() && is_digit(src[i]) {
        digits_end(src, i + 1)
    } else {
        i
    }
}

/// The first position at or after `i` that does not hold an identifier
/// character.
pub open spec fn ident_end(src: Seq<char>, i: int) -> int
    decreases src.len() - i
        when 0 <= i <= src.len()
{
    if i < src.len() && is_ident_char(src[i]) {
        ident_end(src, i + 1)
    } else {
        i
    }
}

/// The first position at or after `i` holding a line break, or the end of
/// the input: where a line comment stops.
pub open spec fn comment_end(src: Seq<char>, i: int) -> int
    decreases src.len() - i
        when 0 <= i <= src.len()
{
    if i < src.len() && src[i] != '\n' {
        comment_end(src, i + 1)
    } else {
        i
    }
}

/// The first position at or after `i` holding a closing double quote, or
/// the end of the input.
pub open spec fn string_end(src: Seq<char>, i: int) -> int
    decreases src.len() - i
        when 0 <= i <= src.len()
{
    if i < src.len() && src[i] != '"' {
        string_end(src, i + 1)
    } else {
        i
    }
}

/// The number of line breaks in `src[i..j)`.
pub open spec fn newline_count(src: Seq<char>, i: int, j: int) -> int
    decreases j - i
        when i <= j
{
    if i < j {
        (if 0 <= i < src.len() && src[i] == '\n' {
            1int
        } else {
            0int
        }) + newline_count(src, i + 1, j)
    } else {
        0
    }
}

/// The value of the digits of `s` appended to an accumulator `acc`.
pub open spec fn digits_value(acc: int, s: Seq<char>) -> int
    decreases s.len(),
{
    if s.len() == 0 {
        acc
    } else {
        digits_value(acc * 10 + (s[0] as int - 48), s.drop_first())
    }
}

/// The `k`-th power of ten.
pub open spec fn pow10(k: nat) -> int
    decreases k,
{
    if k == 0 {
        1
    } else {
        10 * pow10((k - 1) as nat)
    }
}

pub proof fn lemma_digits_end_bounds(src: Seq<char>, i: int)
    requires
        0 <= i <= src.len(),
    ensures
        i <= digits_end(src, i) <= src.len(),
    decreases src.len() - i,
{
    if i < src.len() && is_digit(src[i]) {
        lemma_digits_end_bounds(src, i + 1);
    }
}

pub proof fn lemma_ident_end_bounds(src: Seq<char>, i: int)
    requires
        0 <= i <= src.len(),
    ensures
        i <= ident_end(src, i) <= src.len(),
    decreases src.len() - i,
{
    if i < src.len() && is_ident_char(src[i]) {
        lemma_ident_end_bounds(src, i + 1);
    }
}

pub proof fn lemma_comment_end_bounds(src: Seq<char>, i: int)
    requires
        0 <= i <= src.len(),
    ensures
        i <= comment_end(src, i) <= src.len(),
    decreases src.len() - i,
{
    if i < src.len() && src[i] != '\n' {
        lemma_comment_end_bounds(src, i + 1);
    }
}

pub proof fn lemma_string_end_bounds(src: Seq<char>, i: int)
    requires
        0 <= i <= src.len(),
    ensures
        i <= string_end(src, i) <= src.len(),
    decreases src.len() - i,
{
    if i < src.len() && src[i] != '"' {
        lemma_string_end_bounds(src, i + 1);
    }
}

/// What a scan yields: the tokens, the diagnostics, and whether scanning
/// ran to completion (`false` exactly on an unterminated string literal).
pub struct ScanSpec {
    pub tokens: Seq<TokenV>,
    pub diags: Seq<DiagV>,
    pub ok: bool,
}

/// Prepends one token to a scan result.
pub open spec fn scan_cons(t: TokenTypeV, line: int, rest: ScanSpec) -> ScanSpec {
    ScanSpec {
        tokens: seq![TokenV { token_type: t, line }] + rest.tokens,
        diags: rest.diags,
        ok: rest.ok,
    }
}

/// Prepends one diagnostic to a scan result.
pub open spec fn scan_warn(line: int, message: Seq<char>, rest: ScanSpec) -> ScanSpec {
    ScanSpec { tokens: rest.tokens, diags: seq![DiagV { line, message }] + rest.diags, ok: rest.ok }
}

/// The message reporting an unrecognized character.
pub open spec fn unexpected_char_message(c: char) -> Seq<char> {
    "Unexpected character '"@ + seq![c] + "'."@
}

/// The ghost scanner: the tokens and diagnostics produced from position
/// `i` onward, with `line` the current source line.
pub open spec fn scan_from(src: Seq<char>, i: int, line: int) -> ScanSpec
    decreases src.len() - i
        when 0 <= i <= src.len()
        via scan_from_dec
{
    if i >= src.len() {
        ScanSpec {
            tokens: seq![TokenV { token_type: TokenTypeV::EOF, line }],
            diags: Seq::empty(),
            ok: true,
        }
    } else {
        let c = src[i];
        if c == ' ' || c == '\t' || c == '\r' {
            scan_from(src, i + 1, line)
        } else if c == '\n' {
            scan_from(src, i + 1, line + 1)
        } else if c == '(' {
            scan_cons(TokenTypeV::LEFT_PAREN, line, scan_from(src, i + 1, line))
        } else if c == ')' {
            scan_cons(TokenTypeV::RIGHT_PAREN, line, scan_from(src, i + 1, line))
        } else if c == '{' {
            scan_cons(TokenTypeV::LEFT_BRACE, line, scan_from(src, i + 1, line))
        } else if c == '}' {
            scan_cons(TokenTypeV::RIGHT_BRACE, line, scan_from(src, i + 1, line))
        } else if c == ',' {
            scan_cons(TokenTypeV::COMMA, line, scan_from(src, i + 1, line))
        } else if c == '.' {
            scan_cons(TokenTypeV::DOT, line, scan_from(src, i + 1, line))
        } else if c == '-' {
            scan_cons(TokenTypeV::MINUS, line, scan_from(src, i + 1, line))
        } else if c == '+' {
            scan_cons(TokenTypeV::PLUS, line, scan_from(src, i + 1, line))
        } else if c == ';' {
            scan_cons(TokenTypeV::SEMICOLON, line, scan_from(src, i + 1, line))
        } else if c == '*' {
            scan_cons(TokenTypeV::STAR, line, scan_from(src, i + 1, line))
        } else if c == '!' {
            if i + 1 < src.len() && src[i + 1] == '=' {
                scan_cons(TokenTypeV::BANG_EQUAL, line, scan_from(src, i + 2, line))
            } else {
                scan_cons(TokenTypeV::BANG, line, scan_from(src, i + 1, line))
            }
        } else if c == '=' {
            if i + 1 < src.len() && src[i + 1] == '=' {
                scan_cons(TokenTypeV::EQUAL_EQUAL, line, scan_from(src, i + 2, line))
            } else {
                scan_cons(TokenTypeV::EQUAL, line, scan_from(src, i + 1, line))
            }
        } else if c == '<' {
            if i + 1 < src.len() && src[i + 1] == '=' {
                scan_cons(TokenTypeV::LESS_EQUAL, line, scan_from(src, i + 2, line))
            } else {
                scan_cons(TokenTypeV::LESS, line, scan_from(src, i + 1, line))
            }
        } else if c == '>' {
            if i + 1 < src.len() && src[i + 1] == '=' {
                scan_cons(TokenTypeV::GREATER_EQUAL, line, scan_from(src, i + 2, line))
            } else {
                scan_cons(TokenTypeV::GREATER, line, scan_from(src, i + 1, line))
            }
        } else if c == '/' {
            if i + 1 < src.len() && src[i + 1] == '/' {
                scan_from(src, comment_end(src, i + 1), line)
            } else {
                scan_cons(TokenTypeV::SLASH, line, scan_from(src, i + 1, line))
            }
        } else if c == '"' {
            let e = string_end(src, i + 1);
            let l2 = line + newline_count(src, i + 1, e);
            if e >= src.len() {
                ScanSpec {
                    tokens: Seq::empty(),
                    diags: seq![DiagV { line: l2, message: "Unterminated string."@ }],
                    ok: false,
                }
            } else {
                scan_cons(
                    TokenTypeV::STRING(src.subrange(i + 1, e)),
                    l2,
                    scan_from(src, e + 1, l2),
                )
            }
        } else if is_digit(c) {
            let ie = digits_end(src, i);
            let frac = ie < src.len() && src[ie] == '.' && ie + 1 < src.len() && is_digit(
                src[ie + 1],
            );
            let fe = if frac {
                digits_end(src, ie + 1)
            } else {
                ie
            };
            let ds = if frac {
                src.subrange(i, ie) + src.subrange(ie + 1, fe)
            } else {
                src.subrange(i, ie)
            };
            let k: nat = if frac {
                (fe - ie - 1) as nat
            } else {
                0
            };
            let nv = digits_value(0, ds);
            let dv = pow10(k);
            if nv <= i64::MAX && dv <= i64::MAX {
                scan_cons(
                    TokenTypeV::NUMBER(LoxNum { num: nv as i64, den: dv as i64 }),
                    line,
                    scan_from(src, fe, line),
                )
            } else {
                scan_warn(line, "Number literal too large."@, scan_from(src, fe, line))
            }
        } else if is_ident_char(c) {
            let e = ident_end(src, i);
            let w = src.subrange(i, e);
            let t = match spec_keyword(w) {
                Some(k) => k,
                None => TokenTypeV::IDENTIFIER(w),
            };
            scan_cons(t, line, scan_from(src, e, line))
        } else {
            scan_warn(line, unexpected_char_message(c), scan_from(src, i + 1, line))
        }
    }
}

#[via_fn]
proof fn scan_from_dec(src: Seq<char>, i: int, line: int) {
    if 0 <= i < src.len() {
        lemma_comment_end_bounds(src, i + 1);
        lemma_string_end_bounds(src, i + 1);
        lemma_digits_end_bounds(src, i);
        lemma_ident_end_bounds(src, i);
        if is_digit(src[i]) {
            let ie = digits_end(src, i);
            assert(digits_end(src, i) == digits_end(src, i + 1));
            lemma_digits_end_bounds(src, i + 1);
            if ie < src.len() && ie + 1 <= src.len() {
                lemma_digits_end_bounds(src, ie + 1);
            }
        }
        if is_ident_char(src[i]) {
            assert(ident_end(src, i) == ident_end(src, i + 1));
            lemma_ident_end_bounds(src, i + 1);
        }
        if src[i] == '/' && i + 1 < src.len() && src[i + 1] == '/' {
            assert(comment_end(src, i + 1) == comment_end(src, i + 2));
            lemma_comment_end_bounds(src, i + 2);
        }
    }
}


/// The sequence of token views of a token vector.
pub open spec fn view_tokens(ts: Seq<Token>) -> Seq<TokenV> {
    ts.map_values(|t: Token| t@)
}

/// The sequence of diagnostic views of a diagnostic vector.
pub open spec fn view_diags(ds: Seq<Diagnostic>) -> Seq<DiagV> {
    ds.map_values(|d: Diagnostic| d@)
}

proof fn lemma_view_tokens_push(a: Seq<Token>, x: Token)
    ensures
        view_tokens(a.push(x)) == view_tokens(a).push(x@),
{
    assert(view_tokens(a.push(x)) =~= view_tokens(a).push(x@));
}

pub proof fn lemma_view_diags_push(a: Seq<Diagnostic>, x: Diagnostic)
    ensures
        view_diags(a.push(x)) == view_diags(a).push(x@),
{
    assert(view_diags(a.push(x)) =~= view_diags(a).push(x@));
}

/// Every character before `digits_end` is a digit.
proof fn lemma_digits_end_chars(src: Seq<char>, i: int)
    requires
        0 <= i <= src.len(),
    ensures
        forall|k: int| i <= k < digits_end(src, i) ==> is_digit(src[k]),
    decreases src.len() - i,
{
    lemma_digits_end_bounds(src, i);
    if i < src.len() && is_digit(src[i]) {
        lemma_digits_end_chars(src, i + 1);
    }
}

/// Digits never shrink the accumulated value.
proof fn lemma_digits_value_ge(acc: int, s: Seq<char>)
    requires
        acc >= 0,
        forall|k: int| 0 <= k < s.len() ==> is_digit(#[trigger] s[k]),
    ensures
        digits_value(acc, s) >= acc,
    decreases s.len(),
{
    if s.len() > 0 {
        assert(is_digit(s[0]));
        lemma_digits_value_ge(acc * 10 + (s[0] as int - 48), s.drop_first());
    }
}

/// Accumulating over a concatenation accumulates over each part in turn.
proof fn lemma_digits_value_concat(acc: int, s: Seq<char>, t: Seq<char>)
    ensures
        digits_value(acc, s + t) == digits_value(digits_value(acc, s), t),
    decreases s.len(),
{
    if s.len() == 0 {
        assert(s + t =~= t);
    } else {
        assert((s + t).drop_first() =~= s.drop_first() + t);
        lemma_digits_value_concat(acc * 10 + (s[0] as int - 48), s.drop_first(), t);
    }
}

/// Powers of ten are positive.
proof fn lemma_pow10_pos(k: nat)
    ensures
        pow10(k) >= 1,
    decreases k,
{
    if k > 0 {
        lemma_pow10_pos((k - 1) as nat);
    }
}

/// Powers of ten are nondecreasing.
proof fn lemma_pow10_mono(a: nat, b: nat)
    requires
        a <= b,
    ensures
        1 <= pow10(a) <= pow10(b),
    decreases b,
{
    lemma_pow10_pos(a);
    if a < b {
        lemma_pow10_mono(a, (b - 1) as nat);
    }
}

/// There are no more line breaks in a range than characters.
proof fn lemma_newline_count_bounds(src: Seq<char>, i: int, j: int)
    requires
        i <= j,
    ensures
        0 <= newline_count(src, i, j) <= j - i,
    decreases j - i,
{
    if i < j {
        lemma_newline_count_bounds(src, i + 1, j);
    }
}

/// Decides [`is_digit`].
fn is_digit_char(c: char) -> (r: bool)
    ensures
        r == is_digit(c),
{
    let u = c as u32;
    48 <= u && u <= 57
}

/// Decides [`is_ident_char`].
fn is_ident_char_exec(c: char) -> (r: bool)
    ensures
        r == is_ident_char(c),
{
    let u = c as u32;
    (97 <= u && u <= 122) || (65 <= u && u <= 90) || u == 95
}

/// Finds [`digits_end`].
fn find_digits_end(src: &Vec<char>, start: usize) -> (e: usize)
    requires
        start <= src@.len(),
    ensures
        e as int == digits_end(src@, start as int),
        start <= e <= src@.len(),
{
    let mut j = start;
    while j < src.len() && is_digit_char(src[j as usize])
        invariant
            start <= j <= src@.len(),
            digits_end(src@, start as int) == digits_end(src@, j as int),
        decreases src@.len() - j,
    {
        j = j + 1;
    }
    j
}

/// Finds [`ident_end`].
fn find_ident_end(src: &Vec<char>, start: usize) -> (e: usize)
    requires
        start <= src@.len(),
    ensures
        e as int == ident_end(src@, start as int),
        start <= e <= src@.len(),
{
    let mut j = start;
    while j < src.len() && is_ident_char_exec(src[j as usize])
        invariant
            start <= j <= src@.len(),
            ident_end(src@, start as int) == ident_end(src@, j as int),
        decreases src@.len() - j,
    {
        j = j + 1;
    }
    j
}

/// Finds [`comment_end`].
fn find_comment_end(src: &Vec<char>, start: usize) -> (e: usize)
    requires
        start <= src@.len(),
    ensures
        e as int == comment_end(src@, start as int),
        start <= e <= src@.len(),
{
    let mut j = start;
    while j < src.len() && src[j as usize] != '\n'
        invariant
            start <= j <= src@.len(),
            comment_end(src@, start as int) == comment_end(src@, j as int),
        decreases src@.len() - j,
    {
        j = j + 1;
    }
    j
}

/// Finds [`string_end`].
fn find_string_end(src: &Vec<char>, start: usize) -> (e: usize)
    requires
        start <= src@.len(),
    ensures
        e as int == string_end(src@, start as int),
        start <= e <= src@.len(),
{
    let mut j = start;
    while j < src.len() && src[j as usize] != '"'
        invariant
            start <= j <= src@.len(),
            string_end(src@, start as int) == string_end(src@, j as int),
        decreases src@.len() - j,
    {
        j = j + 1;
    }
    j
}

/// Counts the line breaks in `src[from..to)`.
fn count_newlines(src: &Vec<char>, from: usize, to: usize) -> (n: usize)
    requires
        from <= to <= src@.len(),
    ensures
        n as int == newline_count(src@, from as int, to as int),
        n <= to - from,
{
    proof {
        lemma_newline_count_bounds(src@, from as int, to as int);
    }
    let mut j = from;
    let mut n: usize = 0;
    while j < to
        invariant
            from <= j <= to <= src@.len(),
            n <= j - from,
            newline_count(src@, from as int, to as int) == n + newline_count(
                src@,
                j as int,
                to as int,
            ),
        decreases to - j,
    {
        proof {
            lemma_newline_count_bounds(src@, j + 1, to as int);
        }
        if src[j] == '\n' {
            n = n + 1;
        }
        j = j + 1;
    }
    n
}

/// The value of the digits `src[from..to)` appended to `acc`, when it does
/// not exceed `i64::MAX`.
fn digits_accum(src: &Vec<char>, from: usize, to: usize, acc: u64) -> (r: Option<u64>)
    requires
        from <= to <= src@.len(),
        acc <= i64::MAX as u64,
        forall|k: int| from <= k < to ==> is_digit(#[trigger] src@[k]),
    ensures
        match r {
            Some(v) => v as int == digits_value(
                acc as int,
                src@.subrange(from as int, to as int),
            ) && v <= i64::MAX as u64,
            None => digits_value(acc as int, src@.subrange(from as int, to as int)) > i64::MAX,
        },
    decreases to - from,
{
    let ghost s = src@.subrange(from as int, to as int);
    if from == to {
        proof {
            assert(s.len() == 0);
        }
        Some(acc)
    } else {
        let d: u64 = (src[from] as u32 - 48) as u64;
        proof {
            assert(is_digit(src@[from as int]));
            assert(s[0] == src@[from as int]);
            assert(s.drop_first() =~= src@.subrange(from as int + 1, to as int));
        }
        if acc > (0x7fff_ffff_ffff_ffffu64 - d) / 10 {
            proof {
                assert(acc * 10 + d > i64::MAX) by (nonlinear_arith)
                    requires
                        acc > (0x7fff_ffff_ffff_ffffu64 - d) / 10,
                        d <= 9,
                ;
                lemma_digits_value_ge(
                    acc as int * 10 + d,
                    src@.subrange(from as int + 1, to as int),
                );
            }
            None
        } else {
            proof {
                assert(acc * 10 + d <= i64::MAX) by (nonlinear_arith)
                    requires
                        acc <= (0x7fff_ffff_ffff_ffffu64 - d) / 10,
                        d <= 9,
                ;
            }
            let acc2: u64 = acc * 10 + d;
            digits_accum(src, from + 1, to, acc2)
        }
    }
}

/// The `k`-th power of ten, when it does not exceed `i64::MAX`.
fn pow10_checked(k: usize) -> (r: Option<u64>)
    ensures
        match r {
            Some(v) => v as int == pow10(k as nat) && v <= i64::MAX as u64,
            None => pow10(k as nat) > i64::MAX,
        },
{
    let mut d: u64 = 1;
    let mut j: usize = 0;
    while j < k
        invariant
            0 <= j <= k,
            d as int == pow10(j as nat),
            d <= i64::MAX as u64,
        decreases k - j,
    {
        if d > 0x7fff_ffff_ffff_ffffu64 / 10 {
            proof {
                lemma_pow10_mono((j + 1) as nat, k as nat);
            }
            return None;
        }
        d = d * 10;
        j = j + 1;
    }
    Some(d)
}

/// What scanning a source text produced.
pub struct ScanOutput {
    pub tokens: Vec<Token>,
    pub diagnostics: Vec<Diagnostic>,
    pub ok: bool,
}


/// One token was scanned: shifts it from the pending side of the split to
/// the collected side.
proof fn lemma_consume_token(
    full: ScanSpec,
    tks0: Seq<Token>,
    dgs0: Seq<Diagnostic>,
    rest0: ScanSpec,
    t: Token,
    rest1: ScanSpec,
)
    requires
        full.tokens == view_tokens(tks0) + rest0.tokens,
        full.diags == view_diags(dgs0) + rest0.diags,
        full.ok == rest0.ok,
        rest0 == scan_cons(t@.token_type, t@.line, rest1),
    ensures
        full.tokens == view_tokens(tks0.push(t)) + rest1.tokens,
        full.diags == view_diags(dgs0) + rest1.diags,
        full.ok == rest1.ok,
{
    lemma_view_tokens_push(tks0, t);
    assert(full.tokens =~= view_tokens(tks0.push(t)) + rest1.tokens);
}

/// One diagnostic was reported: shifts it from the pending side of the
/// split to the collected side.
proof fn lemma_consume_diag(
    full: ScanSpec,
    tks0: Seq<Token>,
    dgs0: Seq<Diagnostic>,
    rest0: ScanSpec,
    d: Diagnostic,
    rest1: ScanSpec,
)
    requires
        full.tokens == view_tokens(tks0) + rest0.tokens,
        full.diags == view_diags(dgs0) + rest0.diags,
        full.ok == rest0.ok,
        rest0 == scan_warn(d@.line, d@.message, rest1),
    ensures
        full.tokens == view_tokens(tks0) + rest1.tokens,
        full.diags == view_diags(dgs0.push(d)) + rest1.diags,
        full.ok == rest1.ok,
{
    lemma_view_diags_push(dgs0, d);
    assert(full.diags =~= view_diags(dgs0.push(d)) + rest1.diags);
}

/// Scans a source text into tokens.
///
/// Whitespace is skipped, `//` comments run to the end of the line, and
/// line breaks advance the line counter. Unrecognized characters and
/// oversized number literals are reported and skipped; an unterminated
/// string literal stops the scan with `ok == false`. On success the token
/// sequence ends in an end-of-stream sentinel.
pub fn scan_tokens(source: &str) -> (r: ScanOutput)
    requires
        source@.len() < 0x7fff_0000,
    ensures
        ({
            let s = scan_from(source@, 0, 1);
            &&& view_tokens(r.tokens@) == s.tokens
            &&& view_diags(r.diagnostics@) == s.diags
            &&& r.ok == s.ok
        }),
        forall|k: int| 0 <= k < r.tokens@.len() ==> (#[trigger] r.tokens@[k]).wf(),
{
    let src = crate::text::str_to_chars(source);
    let ghost full = scan_from(source@, 0, 1);
    let n = src.len();
    let mut tokens: Vec<Token> = Vec::new();
    let mut diagnostics: Vec<Diagnostic> = Vec::new();
    let mut i: usize = 0;
    let mut line: i32 = 1;
    while i < n
        invariant
            src@ == source@,
            n == src@.len(),
            n < 0x7fff_0000,
            i <= n,
            1 <= line as int <= 1 + i as int,
            full == scan_from(source@, 0, 1),
            ({
                let rest = scan_from(src@, i as int, line as int);
                &&& full.tokens == view_tokens(tokens@) + rest.tokens
                &&& full.diags == view_diags(diagnostics@) + rest.diags
                &&& full.ok == rest.ok
            }),
            forall|k: int| 0 <= k < tokens@.len() ==> (#[trigger] tokens@[k]).wf(),
        decreases n - i,
    {
        let ghost i0 = i as int;
        let ghost line0 = line as int;
        let ghost rest0 = scan_from(src@, i0, line0);
        let c = src[i];
        if c == ' ' || c == '\t' || c == '\r' {
            i = i + 1;
        } else if c == '\n' {
            i = i + 1;
            line = line + 1;
        } else if c == '(' {
            let ghost tks0 = tokens@;
            tokens.push(Token { token_type: TokenType::LEFT_PAREN, line });
            i = i + 1;
            proof {
                lemma_consume_token(
                    full,
                    tks0,
                    diagnostics@,
                    rest0,
                    Token { token_type: TokenType::LEFT_PAREN, line },
                    scan_from(src@, i as int, line as int),
                );
            }
        } else if c == ')' {
            let ghost tks0 = tokens@;
            tokens.push(Token { token_type: TokenType::RIGHT_PAREN, line });
            i = i + 1;
            proof {
                lemma_consume_token(
                    full,
                    tks0,
                    diagnostics@,
                    rest0,
                    Token { token_type: TokenType::RIGHT_PAREN, line },
                    scan_from(src@, i as int, line as int),
                );
            }
        } else if c == '{' {
            let ghost tks0 = tokens@;
            tokens.push(Token { token_type: TokenType::LEFT_BRACE, line });
            i = i + 1;
            proof {
                lemma_consume_token(
                    full,
                    tks0,
                    diagnostics@,
                    rest0,
                    Token { token_type: TokenType::LEFT_BRACE, line },
                    scan_from(src@, i as int, line as int),
                );
            }
        } else if c == '}' {
            let ghost tks0 = tokens@;
            tokens.push(Token { token_type: TokenType::RIGHT_BRACE, line });
            i = i + 1;
            proof {
                lemma_consume_token(
                    full,
                    tks0,
                    diagnostics@,
                    rest0,
                    Token { token_type: TokenType::RIGHT_BRACE, line },
                    scan_from(src@, i as int, line as int),
                );
            }
        } else if c == ',' {
            let ghost tks0 = tokens@;
            tokens.push(Token { token_type: TokenType::COMMA, line });
            i = i + 1;
            proof {
                lemma_consume_token(
                    full,
                    tks0,
                    diagnostics@,
                    rest0,
                    Token { token_type: TokenType::COMMA, line },
                    scan_from(src@, i as int, line as int),
                );
            }
        } else if c == '.' {
            let ghost tks0 = tokens@;
            tokens.push(Token { token_type: TokenType::DOT, line });
            i = i + 1;
            proof {
                lemma_consume_token(
                    full,
                    tks0,
                    diagnostics@,
                    rest0,
                    Token { token_type: TokenType::DOT, line },
                    scan_from(src@, i as int, line as int),
                );
            }
        } else if c == '-' {
            let ghost tks0 = tokens@;
            tokens.push(Token { token_type: TokenType::MINUS, line });
            i = i + 1;
            proof {
                lemma_consume_token(
                    full,
                    tks0,
                    diagnostics@,
                    rest0,
                    Token { token_type: TokenType::MINUS, line },
                    scan_from(src@, i as int, line as int),
                );
            }
        } else if c == '+' {
            let ghost tks0 = tokens@;
            tokens.push(Token { token_type: TokenType::PLUS, line });
            i = i + 1;
            proof {
                lemma_consume_token(
                    full,
                    tks0,
                    diagnostics@,
                    rest0,
                    Token { token_type: TokenType::PLUS, line },
                    scan_from(src@, i as int, line as int),
                );
            }
        } else if c == ';' {
            let ghost tks0 = tokens@;
            tokens.push(Token { token_type: TokenType::SEMICOLON, line });
            i = i + 1;
            proof {
                lemma_consume_token(
                    full,
                    tks0,
                    diagnostics@,
                    rest0,
                    Token { token_type: TokenType::SEMICOLON, line },
                    scan_from(src@, i as int, line as int),
                );
            }
        } else if c == '*' {
            let ghost tks0 = tokens@;
            tokens.push(Token { token_type: TokenType::STAR, line });
            i = i + 1;
            proof {
                lemma_consume_token(
                    full,
                    tks0,
                    diagnostics@,
                    rest0,
                    Token { token_type: TokenType::STAR, line },
                    scan_from(src@, i as int, line as int),
                );
            }
        } else if c == '!' {
            let ghost tks0 = tokens@;
            let two = i + 1 < n && src[i + 1] == '=';
            let tt = if two {
                TokenType::BANG_EQUAL
            } else {
                TokenType::BANG
            };
            let tok = Token { token_type: tt, line };
            let ghost tokg = tok;
            tokens.push(tok);
            i = if two {
                i + 2
            } else {
                i + 1
            };
            proof {
                lemma_consume_token(
                    full,
                    tks0,
                    diagnostics@,
                    rest0,
                    tokg,
                    scan_from(src@, i as int, line as int),
                );
            }
        } else if c == '=' {
            let ghost tks0 = tokens@;
            let two = i + 1 < n && src[i + 1] == '=';
            let tt = if two {
                TokenType::EQUAL_EQUAL
            } else {
                TokenType::EQUAL
            };
            let tok = Token { token_type: tt, line };
            let ghost tokg = tok;
            tokens.push(tok);
            i = if two {
                i + 2
            } else {
                i + 1
            };
            proof {
                lemma_consume_token(
                    full,
                    tks0,
                    diagnostics@,
                    rest0,
                    tokg,
                    scan_from(src@, i as int, line as int),
                );
            }
        } else if c == '<' {
            let ghost tks0 = tokens@;
            let two = i + 1 < n && src[i + 1] == '=';
            let tt = if two {
                TokenType::LESS_EQUAL
            } else {
                TokenType::LESS
            };
            let tok = Token { token_type: tt, line };
            let ghost tokg = tok;
            tokens.push(tok);
            i = if two {
                i + 2
            } else {
                i + 1
            };
            proof {
                lemma_consume_token(
                    full,
                    tks0,
                    diagnostics@,
                    rest0,
                    tokg,
                    scan_from(src@, i as int, line as int),
                );
            }
        } else if c == '>' {
            let ghost tks0 = tokens@;
            let two = i + 1 < n && src[i + 1] == '=';
            let tt = if two {
                TokenType::GREATER_EQUAL
            } else {
                TokenType::GREATER
            };
            let tok = Token { token_type: tt, line };
            let ghost tokg = tok;
            tokens.push(tok);
            i = if two {
                i + 2
            } else {
                i + 1
            };
            proof {
                lemma_consume_token(
                    full,
                    tks0,
                    diagnostics@,
                    rest0,
                    tokg,
                    scan_from(src@, i as int, line as int),
                );
            }
        } else if c == '/' {
            if i + 1 < n && src[i + 1] == '/' {
                i = find_comment_end(&src, i + 1);
            } else {
                let ghost tks0 = tokens@;
                tokens.push(Token { token_type: TokenType::SLASH, line });
                i = i + 1;
                proof {
                    lemma_consume_token(
                        full,
                        tks0,
                        diagnostics@,
                        rest0,
                        Token { token_type: TokenType::SLASH, line },
                        scan_from(src@, i as int, line as int),
                    );
                }
            }
        } else if c == '"' {
            let e = find_string_end(&src, i + 1);
            let nc = count_newlines(&src, i + 1, e);
            let l2: i32 = line + nc as i32;
            if e >= n {
                let ghost dgs0 = diagnostics@;
                let d = Diagnostic::new(l2, String::from_str("Unterminated string."));
                let ghost dg = d;
                diagnostics.push(d);
                proof {
                    lemma_view_diags_push(dgs0, dg);
                    assert(full.tokens =~= view_tokens(tokens@));
                    assert(full.diags =~= view_diags(diagnostics@));
                }
                return ScanOutput { tokens, diagnostics, ok: false };
            }
            let ghost tks0 = tokens@;
            let w = crate::text::vec_range(&src, i + 1, e);
            let tok = Token {
                token_type: TokenType::STRING(crate::text::chars_to_string(&w)),
                line: l2,
            };
            let ghost tokg = tok;
            tokens.push(tok);
            line = l2;
            i = e + 1;
            proof {
                lemma_consume_token(
                    full,
                    tks0,
                    diagnostics@,
                    rest0,
                    tokg,
                    scan_from(src@, i as int, line as int),
                );
            }
        } else if is_digit_char(c) {
            let ie = find_digits_end(&src, i);
            proof {
                lemma_digits_end_chars(src@, i as int);
            }
            let mut frac = false;
            let mut fe = ie;
            if ie < n && src[ie] == '.' && ie + 1 < n && is_digit_char(src[ie + 1]) {
                frac = true;
                fe = find_digits_end(&src, ie + 1);
                proof {
                    lemma_digits_end_chars(src@, ie as int + 1);
                }
            }
            let ghost s1 = src@.subrange(i as int, ie as int);
            let ghost s2 = src@.subrange(ie as int + 1, fe as int);
            let ghost ds = if frac {
                s1 + s2
            } else {
                s1
            };
            proof {
                if frac {
                    lemma_digits_value_concat(0, s1, s2);
                    lemma_digits_value_ge(0, s1);
                }
            }
            let v1 = digits_accum(&src, i, ie, 0);
            let mut value: Option<u64> = None;
            match v1 {
                Some(a) => {
                    if frac {
                        value = digits_accum(&src, ie + 1, fe, a);
                    } else {
                        value = Some(a);
                    }
                },
                None => {
                    proof {
                        if frac {
                            lemma_digits_value_ge(digits_value(0, s1), s2);
                        }
                    }
                },
            }
            let den: Option<u64> = if frac {
                pow10_checked(fe - (ie + 1))
            } else {
                Some(1u64)
            };
            match (value, den) {
                (Some(nv), Some(dv)) => {
                    proof {
                        lemma_pow10_pos(if frac {
                            (fe - ie - 1) as nat
                        } else {
                            0
                        });
                    }
                    let ghost tks0 = tokens@;
                    let tok = Token {
                        token_type: TokenType::NUMBER(
                            crate::numbers::LoxNum::new(nv as i64, dv as i64),
                        ),
                        line,
                    };
                    let ghost tokg = tok;
                    tokens.push(tok);
                    i = fe;
                    proof {
                        lemma_consume_token(
                            full,
                            tks0,
                            diagnostics@,
                            rest0,
                            tokg,
                            scan_from(src@, i as int, line as int),
                        );
                    }
                },
                _ => {
                    let ghost dgs0 = diagnostics@;
                    let d = Diagnostic::new(line, String::from_str("Number literal too large."));
                    let ghost dg = d;
                    diagnostics.push(d);
                    i = fe;
                    proof {
                        lemma_consume_diag(
                            full,
                            tokens@,
                            dgs0,
                            rest0,
                            dg,
                            scan_from(src@, i as int, line as int),
                        );
                    }
                },
            }
        } else if is_ident_char_exec(c) {
            let e = find_ident_end(&src, i);
            let ghost tks0 = tokens@;
            let w = crate::text::vec_range(&src, i, e);
            let tt: TokenType = match keyword_of(&w) {
                Some(k) => k,
                None => TokenType::IDENTIFIER(crate::text::chars_to_string(&w)),
            };
            let tok = Token { token_type: tt, line };
            let ghost tokg = tok;
            tokens.push(tok);
            i = e;
            proof {
                lemma_consume_token(
                    full,
                    tks0,
                    diagnostics@,
                    rest0,
                    tokg,
                    scan_from(src@, i as int, line as int),
                );
            }
        } else {
            let ghost dgs0 = diagnostics@;
            let mut msg = String::from_str("Unexpected character '");
            push_char(&mut msg, c);
            msg.append("'.");
            proof {
                assert(msg@ =~= unexpected_char_message(c));
            }
            let d = Diagnostic::new(line, msg);
            let ghost dg = d;
            diagnostics.push(d);
            i = i + 1;
            proof {
                lemma_consume_diag(
                    full,
                    tokens@,
                    dgs0,
                    rest0,
                    dg,
                    scan_from(src@, i as int, line as int),
                );
            }
        }
    }
    let ghost tks0 = tokens@;
    tokens.push(Token { token_type: TokenType::EOF, line });
    proof {
        lemma_view_tokens_push(tks0, Token { token_type: TokenType::EOF, line });
        assert(full.tokens =~= view_tokens(tokens@));
        assert(full.diags =~= view_diags(diagnostics@));
    }
    ScanOutput { tokens, diagnostics, ok: true }
}

} // verus!



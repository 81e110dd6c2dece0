//! The mathematical model of the scan.
//!
//! Everything here is specification: given the input as a sequence of
//! characters and a cursor, these functions say where the next token starts,
//! where it ends, and which token it is.  The executable lexer is proved to
//! follow this model call by call.

use vstd::prelude::*;

use crate::chars::{alphabetic, alphanumeric, ascii_digit, digit_val, numeric, whitespace};

verus! {

/// One lexical unit, as the model speaks of it: identifier spellings are
/// character sequences and integer values are unbounded.
pub enum TokenModel {
    Illegal,
    Ident(Seq<char>),
    Int(int),
    Assign,
    Plus,
    Minus,
    Bang,
    Asterisk,
    Slash,
    Lt,
    Gt,
    Eq,
    NotEq,
    Comma,
    Semicolon,
    LParen,
    RParen,
    LBrace,
    RBrace,
    Function,
    Let,
    True,
    False,
    If,
    Else,
    Return,
}

/// The first index at or after `i` that does not hold whitespace; the
/// cursor after skipping whitespace from `i`.
pub open spec fn ws_end(s: Seq<char>, i: int) -> int
    recommends
        0 <= i <= s.len(),
    decreases s.len() - i,
{
    if i < 0 || i >= s.len() {
        i
    } else if whitespace(s[i]) {
        ws_end(s, i + 1)
    } else {
        i
    }
}

/// The first index at or after `i` that does not continue an identifier.
pub open spec fn alnum_end(s: Seq<char>, i: int) -> int
    recommends
        0 <= i <= s.len(),
    decreases s.len() - i,
{
    if i < 0 || i >= s.len() {
        i
    } else if alphanumeric(s[i]) {
        alnum_end(s, i + 1)
    } else {
        i
    }
}

/// The first index at or after `i` that does not continue a numeric run.
pub open spec fn num_end(s: Seq<char>, i: int) -> int
    recommends
        0 <= i <= s.len(),
    decreases s.len() - i,
{
    if i < 0 || i >= s.len() {
        i
    } else if numeric(s[i]) {
        num_end(s, i + 1)
    } else {
        i
    }
}

/// Whether every character of `w` is an ASCII decimal digit.
pub open spec fn digit_seq(w: Seq<char>) -> bool {
    forall|k: int| 0 <= k < w.len() ==> ascii_digit(#[trigger] w[k])
}

/// The value of a string of ASCII decimal digits, read in base ten.
pub open spec fn digits_val(w: Seq<char>) -> int
    recommends
        digit_seq(w),
    decreases w.len(),
{
    if w.len() == 0 {
        0
    } else {
        10 * digits_val(w.drop_last()) + digit_val(w.last())
    }
}

/// The token an identifier-shaped spelling stands for: the reserved word
/// where the spelling matches one exactly, else an identifier.  Keyword
/// matching is exact-string and case-sensitive.
pub open spec fn word_token(w: Seq<char>) -> TokenModel {
    if w == "fn"@ {
        TokenModel::Function
    } else if w == "let"@ {
        TokenModel::Let
    } else if w == "true"@ {
        TokenModel::True
    } else if w == "false"@ {
        TokenModel::False
    } else if w == "if"@ {
        TokenModel::If
    } else if w == "else"@ {
        TokenModel::Else
    } else if w == "return"@ {
        TokenModel::Return
    } else {
        TokenModel::Ident(w)
    }
}

/// The token a numeric run stands for: its value, when the run is made of
/// ASCII decimal digits and fits a signed 64-bit integer; `Illegal`
/// otherwise, so that a malformed literal never aborts the scan.
pub open spec fn int_token(w: Seq<char>) -> TokenModel {
    if digit_seq(w) && digits_val(w) <= i64::MAX {
        TokenModel::Int(digits_val(w))
    } else {
        TokenModel::Illegal
    }
}

/// Where the token whose lead character stands at `j` ends.  `=` and `!`
/// look one character ahead for `=`; an alphabetic lead takes the maximal
/// alphanumeric run; a numeric lead takes the maximal numeric run; every
/// other character is consumed alone.
pub open spec fn token_end(s: Seq<char>, j: int) -> int
    recommends
        0 <= j < s.len(),
{
    let c = s[j];
    if c == '=' || c == '!' {
        if j + 1 < s.len() && s[j + 1] == '=' {
            j + 2
        } else {
            j + 1
        }
    } else if c == ';' || c == '(' || c == ')' || c == ',' || c == '+' || c == '{' || c == '}'
        || c == '-' || c == '*' || c == '/' || c == '<' || c == '>' {
        j + 1
    } else if alphabetic(c) {
        alnum_end(s, j + 1)
    } else if numeric(c) {
        num_end(s, j + 1)
    } else {
        j + 1
    }
}

/// The token whose lead character stands at `j`.  The branches are tried in
/// the same order as `token_end` takes them, so the two always agree on what
/// was consumed.
pub open spec fn token_at(s: Seq<char>, j: int) -> TokenModel
    recommends
        0 <= j < s.len(),
{
    let c = s[j];
    if c == '=' {
        if j + 1 < s.len() && s[j + 1] == '=' {
            TokenModel::Eq
        } else {
            TokenModel::Assign
        }
    } else if c == ';' {
        TokenModel::Semicolon
    } else if c == '(' {
        TokenModel::LParen
    } else if c == ')' {
        TokenModel::RParen
    } else if c == ',' {
        TokenModel::Comma
    } else if c == '+' {
        TokenModel::Plus
    } else if c == '{' {
        TokenModel::LBrace
    } else if c == '}' {
        TokenModel::RBrace
    } else if c == '-' {
        TokenModel::Minus
    } else if c == '!' {
        if j + 1 < s.len() && s[j + 1] == '=' {
            TokenModel::NotEq
        } else {
            TokenModel::Bang
        }
    } else if c == '*' {
        TokenModel::Asterisk
    } else if c == '/' {
        TokenModel::Slash
    } else if c == '<' {
        TokenModel::Lt
    } else if c == '>' {
        TokenModel::Gt
    } else if alphabetic(c) {
        word_token(s.subrange(j, alnum_end(s, j + 1)))
    } else if numeric(c) {
        int_token(s.subrange(j, num_end(s, j + 1)))
    } else {
        TokenModel::Illegal
    }
}

/// What one call to the lexer does from cursor `i`: `None` when only
/// whitespace remains, else the token found after the whitespace and the
/// cursor past it.
pub open spec fn next_token_spec(s: Seq<char>, i: int) -> Option<(TokenModel, int)>
    recommends
        0 <= i <= s.len(),
{
    let j = ws_end(s, i);
    if j >= s.len() {
        None
    } else {
        Some((token_at(s, j), token_end(s, j)))
    }
}

pub proof fn lemma_ws_end_bounds(s: Seq<char>, i: int)
    requires
        0 <= i <= s.len(),
    ensures
        i <= ws_end(s, i) <= s.len(),
    decreases s.len() - i,
{
    if i < s.len() && whitespace(s[i]) {
        lemma_ws_end_bounds(s, i + 1);
    }
}

pub proof fn lemma_alnum_end_bounds(s: Seq<char>, i: int)
    requires
        0 <= i <= s.len(),
    ensures
        i <= alnum_end(s, i) <= s.len(),
    decreases s.len() - i,
{
    if i < s.len() && alphanumeric(s[i]) {
        lemma_alnum_end_bounds(s, i + 1);
    }
}

pub proof fn lemma_num_end_bounds(s: Seq<char>, i: int)
    requires
        0 <= i <= s.len(),
    ensures
        i <= num_end(s, i) <= s.len(),
    decreases s.len() - i,
{
    if i < s.len() && numeric(s[i]) {
        lemma_num_end_bounds(s, i + 1);
    }
}

/// Every token starts at its lead character and ends after it, within the
/// input: a token always consumes a non-empty span.
pub proof fn lemma_token_end_bounds(s: Seq<char>, j: int)
    requires
        0 <= j < s.len(),
    ensures
        j < token_end(s, j) <= s.len(),
{
    lemma_alnum_end_bounds(s, j + 1);
    lemma_num_end_bounds(s, j + 1);
}

/// `alnum_end` is the one index `e` past a run of alphanumeric characters
/// from `i` that stops at the end of the input or at a character that does
/// not continue the run.
pub proof fn lemma_alnum_end_is(s: Seq<char>, i: int, e: int)
    requires
        0 <= i <= e <= s.len(),
        forall|k: int| i <= k < e ==> alphanumeric(#[trigger] s[k]),
        e == s.len() || !alphanumeric(s[e]),
    ensures
        alnum_end(s, i) == e,
    decreases e - i,
{
    if i < e {
        lemma_alnum_end_is(s, i + 1, e);
    }
}

/// `num_end` characterised the same way, for numeric runs.
pub proof fn lemma_num_end_is(s: Seq<char>, i: int, e: int)
    requires
        0 <= i <= e <= s.len(),
        forall|k: int| i <= k < e ==> numeric(#[trigger] s[k]),
        e == s.len() || !numeric(s[e]),
    ensures
        num_end(s, i) == e,
    decreases e - i,
{
    if i < e {
        lemma_num_end_is(s, i + 1, e);
    }
}

/// Appending a digit multiplies the value by ten and adds the digit.
pub proof fn lemma_digits_val_push(x: Seq<char>, c: char)
    ensures
        digits_val(x.push(c)) == 10 * digits_val(x) + digit_val(c),
{
    assert(x.push(c).drop_last() =~= x);
    assert(x.push(c).last() == c);
}

/// All tokens the scan produces from cursor `i` to exhaustion, in order.
pub open spec fn spec_tokens(s: Seq<char>, i: int) -> Seq<TokenModel>
    decreases s.len() - i
        when 0 <= i <= s.len()
        via spec_tokens_dec
{
    let j = ws_end(s, i);
    if j >= s.len() {
        Seq::empty()
    } else {
        seq![token_at(s, j)] + spec_tokens(s, token_end(s, j))
    }
}

#[via_fn]
proof fn spec_tokens_dec(s: Seq<char>, i: int) {
    lemma_ws_end_bounds(s, i);
    if ws_end(s, i) < s.len() {
        lemma_token_end_bounds(s, ws_end(s, i));
    }
}

/// The spans the scan consumes from cursor `i`, as the substrings they
/// cover: one span per produced token (its leading whitespace included),
/// and one final span for the whitespace left before the end of the input.
pub open spec fn spec_chunks(s: Seq<char>, i: int) -> Seq<Seq<char>>
    decreases s.len() - i
        when 0 <= i <= s.len()
        via spec_chunks_dec
{
    let j = ws_end(s, i);
    if j >= s.len() {
        seq![s.subrange(i, s.len() as int)]
    } else {
        seq![s.subrange(i, token_end(s, j))] + spec_chunks(s, token_end(s, j))
    }
}

#[via_fn]
proof fn spec_chunks_dec(s: Seq<char>, i: int) {
    lemma_ws_end_bounds(s, i);
    if ws_end(s, i) < s.len() {
        lemma_token_end_bounds(s, ws_end(s, i));
    }
}

/// Totality: a finite input yields finitely many tokens, at most one per
/// remaining character, so repeated calls reach the end-of-input signal in
/// a number of calls bounded by the input length.
pub proof fn lemma_totality(s: Seq<char>, i: int)
    requires
        0 <= i <= s.len(),
    ensures
        spec_tokens(s, i).len() <= s.len() - i,
    decreases s.len() - i,
{
    lemma_ws_end_bounds(s, i);
    let j = ws_end(s, i);
    if j < s.len() {
        lemma_token_end_bounds(s, j);
        lemma_totality(s, token_end(s, j));
    }
}

/// Span coverage: concatenating the exact substrings consumed to produce
/// each token, together with the trailing whitespace, reconstructs the
/// part of the input from cursor `i` onward.
pub proof fn lemma_span_coverage(s: Seq<char>, i: int)
    requires
        0 <= i <= s.len(),
    ensures
        spec_chunks(s, i).flatten() == s.subrange(i, s.len() as int),
    decreases s.len() - i,
{
    lemma_ws_end_bounds(s, i);
    let j = ws_end(s, i);
    if j >= s.len() {
        let chunks = spec_chunks(s, i);
        chunks.lemma_flatten_one_element();
        assert(chunks.first() == s.subrange(i, s.len() as int));
    } else {
        lemma_token_end_bounds(s, j);
        let e = token_end(s, j);
        lemma_span_coverage(s, e);
        let chunks = spec_chunks(s, i);
        assert(chunks.first() == s.subrange(i, e));
        assert(chunks.drop_first() =~= spec_chunks(s, e));
        assert(chunks.flatten() =~= s.subrange(i, s.len() as int));
    }
}

/// Span coverage over the whole input: the consumed substrings, in order,
/// concatenate back to the input exactly.
pub proof fn lemma_spans_reconstruct_input(s: Seq<char>)
    ensures
        spec_chunks(s, 0).flatten() == s,
{
    lemma_span_coverage(s, 0);
    assert(s.subrange(0, s.len() as int) =~= s);
}

/// Idempotent end state: once the cursor stands at the end of the input,
/// the scan signals end-of-input, and does so on every further call.
pub proof fn lemma_end_idempotent(s: Seq<char>)
    ensures
        next_token_spec(s, s.len() as int) is None,
{
}

/// The value of a digit string is never negative.
pub proof fn lemma_digits_val_nonneg(w: Seq<char>)
    requires
        digit_seq(w),
    ensures
        digits_val(w) >= 0,
    decreases w.len(),
{
    if w.len() > 0 {
        assert forall|k: int| 0 <= k < w.drop_last().len() implies ascii_digit(
            #[trigger] w.drop_last()[k],
        ) by {
            assert(w.drop_last()[k] == w[k]);
        }
        lemma_digits_val_nonneg(w.drop_last());
    }
}

} // verus!

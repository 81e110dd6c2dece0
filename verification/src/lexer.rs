//! The tokenizer: a pull-based scanner over one input string.
//!
//! A [`Lexer`] is created per input and owns a cursor that only moves
//! forward.  Each call to [`Lexer::next_token`] skips whitespace, consumes
//! one token and returns it, or returns `None` once only whitespace remains.
//! The terminal state is idempotent: after exhaustion every further call
//! returns `None` again.

use vstd::prelude::*;

use crate::chars;
use crate::scan::{
    alnum_end, int_token, lemma_alnum_end_is, lemma_digits_val_nonneg, lemma_digits_val_push,
    lemma_num_end_is, next_token_spec, num_end, spec_tokens, word_token, ws_end, TokenModel,
};

verus! {

/// One lexical unit of the language.
///
/// `Ident` carries the exact spelling; `Int` the value of a decimal integer
/// literal.  `Illegal` marks a character no rule matched, or a numeric run
/// that is not a valid signed 64-bit integer.
#[derive(Debug, PartialEq, Clone)]
pub enum Token {
    Illegal,
    // Identifiers + literals
    Ident(String),
    Int(i64),
    // Operators
    Assign,
    Plus,
    Minus,
    Bang,
    Asterisk,
    Slash,
    Lt,
    Gt,
    Eq,
    NotEq,
    // Delimiters
    Comma,
    Semicolon,
    LParen,
    RParen,
    LBrace,
    RBrace,
    // Keywords
    Function,
    Let,
    True,
    False,
    If,
    Else,
    Return,
}

impl View for Token {
    type V = TokenModel;

    open spec fn view(&self) -> TokenModel {
        match self {
            Token::Illegal => TokenModel::Illegal,
            Token::Ident(s) => TokenModel::Ident(s@),
            Token::Int(v) => TokenModel::Int(*v as int),
            Token::Assign => TokenModel::Assign,
            Token::Plus => TokenModel::Plus,
            Token::Minus => TokenModel::Minus,
            Token::Bang => TokenModel::Bang,
            Token::Asterisk => TokenModel::Asterisk,
            Token::Slash => TokenModel::Slash,
            Token::Lt => TokenModel::Lt,
            Token::Gt => TokenModel::Gt,
            Token::Eq => TokenModel::Eq,
            Token::NotEq => TokenModel::NotEq,
            Token::Comma => TokenModel::Comma,
            Token::Semicolon => TokenModel::Semicolon,
            Token::LParen => TokenModel::LParen,
            Token::RParen => TokenModel::RParen,
            Token::LBrace => TokenModel::LBrace,
            Token::RBrace => TokenModel::RBrace,
            Token::Function => TokenModel::Function,
            Token::Let => TokenModel::Let,
            Token::True => TokenModel::True,
            Token::False => TokenModel::False,
            Token::If => TokenModel::If,
            Token::Else => TokenModel::Else,
            Token::Return => TokenModel::Return,
        }
    }
}

/// The scanning engine: the input and a forward-only cursor over it,
/// measured in characters.
pub struct Lexer<'a> {
    input: &'a str,
    len: usize,
    pos: usize,
}

impl<'a> Lexer<'a> {
    /// The input being scanned, as a sequence of characters.
    pub closed spec fn input_seq(&self) -> Seq<char> {
        self.input@
    }

    /// The cursor: how many characters have been consumed so far.
    pub closed spec fn cursor(&self) -> int {
        self.pos as int
    }

    /// The cursor lies within the input and the cached length is the
    /// character count of the input.
    pub closed spec fn wf(&self) -> bool {
        self.len as nat == self.input@.len() && self.pos <= self.len
    }

    /// Makes a lexer over `input` with the cursor at the first character.
    /// Never fails.
    pub fn new(input: &'a str) -> (l: Lexer<'a>)
        ensures
            l.wf(),
            l.input_seq() == input@,
            l.cursor() == 0,
    {
        let n = input.unicode_len();
        Lexer { input, len: n, pos: 0 }
    }

    /// How many characters of the input have been consumed so far.
    pub fn position(&self) -> (p: usize)
        ensures
            p as int == self.cursor(),
    {
        self.pos
    }

    /// Skips whitespace, then consumes and returns the next token, or
    /// returns `None` once only whitespace remains; in that case the cursor
    /// stands at the end of the input, where every further call returns
    /// `None` again.  A call that returns a token always moves the cursor
    /// forward, so a finite input is exhausted in finitely many calls.
    pub fn next_token(&mut self) -> (t: Option<Token>)
        requires
            old(self).wf(),
        ensures
            final(self).wf(),
            final(self).input_seq() == old(self).input_seq(),
            (match next_token_spec(old(self).input_seq(), old(self).cursor()) {
                None => t is None && final(self).cursor() == old(self).input_seq().len(),
                Some(pair) => ({
                    &&& (t matches Some(tok) && tok@ == pair.0)
                    &&& final(self).cursor() == pair.1
                }),
            }),
            t is Some ==> old(self).cursor() < final(self).cursor(),
    {
        let inp = self.input;
        let n = self.len;
        let ghost s = inp@;
        let ghost i0 = self.pos as int;

        // Skip whitespace without emitting tokens.
        let mut i: usize = self.pos;
        loop
            invariant
                i0 <= i as int <= n as int,
                n as nat == s.len(),
                s == inp@,
                ws_end(s, i0) == ws_end(s, i as int),
            ensures
                i0 <= i as int <= n as int,
                ws_end(s, i0) == i as int,
            decreases n - i,
        {
            if i >= n {
                break;
            }
            let c = inp.get_char(i);
            if !chars::char_is_whitespace(c) {
                break;
            }
            i += 1;
        }
        let ghost j = i as int;
        if i >= n {
            self.pos = i;
            return None;
        }

        // Classify by the lead character.
        let c = inp.get_char(i);
        if c == '=' {
            if i + 1 < n && inp.get_char(i + 1) == '=' {
                self.pos = i + 2;
                return Some(Token::Eq);
            }
            self.pos = i + 1;
            return Some(Token::Assign);
        }
        if c == ';' {
            self.pos = i + 1;
            return Some(Token::Semicolon);
        }
        if c == '(' {
            self.pos = i + 1;
            return Some(Token::LParen);
        }
        if c == ')' {
            self.pos = i + 1;
            return Some(Token::RParen);
        }
        if c == ',' {
            self.pos = i + 1;
            return Some(Token::Comma);
        }
        if c == '+' {
            self.pos = i + 1;
            return Some(Token::Plus);
        }
        if c == '{' {
            self.pos = i + 1;
            return Some(Token::LBrace);
        }
        if c == '}' {
            self.pos = i + 1;
            return Some(Token::RBrace);
        }
        if c == '-' {
            self.pos = i + 1;
            return Some(Token::Minus);
        }
        if c == '!' {
            if i + 1 < n && inp.get_char(i + 1) == '=' {
                self.pos = i + 2;
                return Some(Token::NotEq);
            }
            self.pos = i + 1;
            return Some(Token::Bang);
        }
        if c == '*' {
            self.pos = i + 1;
            return Some(Token::Asterisk);
        }
        if c == '/' {
            self.pos = i + 1;
            return Some(Token::Slash);
        }
        if c == '<' {
            self.pos = i + 1;
            return Some(Token::Lt);
        }
        if c == '>' {
            self.pos = i + 1;
            return Some(Token::Gt);
        }
        if chars::char_is_alphabetic(c) {
            let e = find_alnum_end(inp, i + 1, n);
            let w = inp.substring_char(i, e);
            let tok = classify_word(w);
            self.pos = e;
            return Some(tok);
        }
        if chars::char_is_numeric(c) {
            let e = find_num_end(inp, i + 1, n);
            let tok = scan_number(inp, i, e);
            self.pos = e;
            return Some(tok);
        }
        self.pos = i + 1;
        Some(Token::Illegal)
    }
}

/// The tokens of a token list, as the model speaks of them.
pub open spec fn views_of(ts: Seq<Token>) -> Seq<TokenModel> {
    ts.map_values(|t: Token| t@)
}

/// Scans `input` whole: every token the scan produces, in order.  The
/// totality law bounds the number of pulls, so the loop terminates on any
/// finite input.
pub fn tokenize(input: &str) -> (r: Vec<Token>)
    ensures
        views_of(r@) == spec_tokens(input@, 0),
{
    let ghost s = input@;
    let mut lx = Lexer::new(input);
    let mut toks: Vec<Token> = Vec::new();
    loop
        invariant
            lx.wf(),
            lx.input_seq() == s,
            s == input@,
            0 <= lx.cursor() <= s.len(),
            views_of(toks@) + spec_tokens(s, lx.cursor()) == spec_tokens(s, 0),
        ensures
            views_of(toks@) == spec_tokens(s, 0),
        decreases s.len() - lx.cursor(),
    {
        let ghost c0 = lx.cursor();
        let ghost done = views_of(toks@);
        match lx.next_token() {
            Some(tok) => {
                proof {
                    assert(views_of(toks@.push(tok)) =~= done.push(tok@));
                    assert(done.push(tok@) + spec_tokens(s, lx.cursor()) =~= done + (seq![
                        tok@,
                    ] + spec_tokens(s, lx.cursor())));
                }
                toks.push(tok);
            },
            None => {
                proof {
                    assert(spec_tokens(s, c0) =~= Seq::<TokenModel>::empty());
                    assert(done + spec_tokens(s, c0) =~= done);
                }
                break;
            },
        }
    }
    toks
}

/// Character-by-character equality of two strings.
fn str_eq(a: &str, b: &str) -> (r: bool)
    ensures
        r == (a@ == b@),
{
    let an = a.unicode_len();
    let bn = b.unicode_len();
    if an != bn {
        return false;
    }
    let mut k: usize = 0;
    while k < an
        invariant
            k <= an,
            an as nat == a@.len(),
            bn as nat == b@.len(),
            an == bn,
            forall|m: int| 0 <= m < k as int ==> a@[m] == b@[m],
        decreases an - k,
    {
        let ca = a.get_char(k);
        let cb = b.get_char(k);
        if ca != cb {
            return false;
        }
        k += 1;
    }
    proof {
        assert(a@ =~= b@);
    }
    true
}

/// The keyword table: classifies a complete identifier spelling, yielding
/// the reserved-word token on an exact, case-sensitive match and an
/// `Ident` with that spelling otherwise.
pub fn classify_word(w: &str) -> (t: Token)
    ensures
        t@ == word_token(w@),
{
    if str_eq(w, "fn") {
        Token::Function
    } else if str_eq(w, "let") {
        Token::Let
    } else if str_eq(w, "true") {
        Token::True
    } else if str_eq(w, "false") {
        Token::False
    } else if str_eq(w, "if") {
        Token::If
    } else if str_eq(w, "else") {
        Token::Else
    } else if str_eq(w, "return") {
        Token::Return
    } else {
        Token::Ident(String::from_str(w))
    }
}

/// Finds the end of the maximal alphanumeric run beginning at `i`.
fn find_alnum_end(inp: &str, i: usize, n: usize) -> (e: usize)
    requires
        n as nat == inp@.len(),
        i <= n,
    ensures
        i <= e <= n,
        e as int == alnum_end(inp@, i as int),
{
    let ghost s = inp@;
    let mut e: usize = i;
    loop
        invariant
            i <= e <= n,
            n as nat == s.len(),
            s == inp@,
            forall|k: int| i as int <= k < e as int ==> chars::alphanumeric(#[trigger] s[k]),
        ensures
            i <= e <= n,
            e == n || !chars::alphanumeric(s[e as int]),
            forall|k: int| i as int <= k < e as int ==> chars::alphanumeric(#[trigger] s[k]),
        decreases n - e,
    {
        if e >= n {
            break;
        }
        let c = inp.get_char(e);
        if !(chars::char_is_alphabetic(c) || chars::char_is_numeric(c)) {
            break;
        }
        e += 1;
    }
    proof {
        lemma_alnum_end_is(s, i as int, e as int);
    }
    e
}

/// Finds the end of the maximal numeric run beginning at `i`.
fn find_num_end(inp: &str, i: usize, n: usize) -> (e: usize)
    requires
        n as nat == inp@.len(),
        i <= n,
    ensures
        i <= e <= n,
        e as int == num_end(inp@, i as int),
{
    let ghost s = inp@;
    let mut e: usize = i;
    loop
        invariant
            i <= e <= n,
            n as nat == s.len(),
            s == inp@,
            forall|k: int| i as int <= k < e as int ==> chars::numeric(#[trigger] s[k]),
        ensures
            i <= e <= n,
            e == n || !chars::numeric(s[e as int]),
            forall|k: int| i as int <= k < e as int ==> chars::numeric(#[trigger] s[k]),
        decreases n - e,
    {
        if e >= n {
            break;
        }
        let c = inp.get_char(e);
        if !chars::char_is_numeric(c) {
            break;
        }
        e += 1;
    }
    proof {
        lemma_num_end_is(s, i as int, e as int);
    }
    e
}

/// Reads the numeric run `[j, e)` of the input and classifies it: an `Int`
/// with its value when the run is all ASCII decimal digits and the value
/// fits a signed 64-bit integer, else `Illegal`.  A malformed or
/// overflowing literal therefore degrades to one `Illegal` token instead
/// of stopping the scan.
#[verifier::loop_isolation(false)]
fn scan_number(inp: &str, j: usize, e: usize) -> (t: Token)
    requires
        j < e,
        e as nat <= inp@.len(),
    ensures
        t@ == int_token(inp@.subrange(j as int, e as int)),
{
    let ghost s = inp@;
    let ghost w = s.subrange(j as int, e as int);
    let mut k: usize = j;
    let mut val: u64 = 0;
    let mut ok: bool = true;
    let mut over: bool = false;
    while k < e
        invariant
            j <= k <= e,
            ok ==> forall|m: int| j as int <= m < k as int ==> chars::ascii_digit(
                #[trigger] s[m],
            ),
            !ok ==> exists|m: int|
                j as int <= m < k as int && !chars::ascii_digit(#[trigger] s[m]),
            ok && !over ==> val == crate::scan::digits_val(s.subrange(j as int, k as int))
                && val <= i64::MAX as u64,
            ok && over ==> crate::scan::digits_val(s.subrange(j as int, k as int)) > i64::MAX,
        decreases e - k,
    {
        let c = inp.get_char(k);
        let ghost prefix = s.subrange(j as int, k as int);
        proof {
            assert(s.subrange(j as int, k as int + 1) =~= prefix.push(s[k as int]));
            lemma_digits_val_push(prefix, s[k as int]);
        }
        let u = c as u32;
        if u < 48 || u > 57 {
            ok = false;
        } else if ok && !over {
            proof {
                lemma_digits_val_nonneg(prefix);
            }
            let d = (u - 48) as u64;
            if val > (9_223_372_036_854_775_807u64 - d) / 10 {
                over = true;
            } else {
                val = val * 10 + d;
            }
        }
        k += 1;
    }
    if ok && !over {
        proof {
            assert forall|m: int| 0 <= m < w.len() implies chars::ascii_digit(
                #[trigger] w[m],
            ) by {
                assert(w[m] == s[j as int + m]);
            }
        }
        Token::Int(val as i64)
    } else {
        proof {
            if !ok {
                let m = choose|m: int|
                    j as int <= m < e as int && !chars::ascii_digit(#[trigger] s[m]);
                assert(w[m - j as int] == s[m]);
            }
        }
        Token::Illegal
    }
}

} // verus!

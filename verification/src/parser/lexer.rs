use vstd::prelude::*;
use vstd::string::StrSliceExecFns;
use crate::error::ParseError;
use crate::text::{
    digit_char, ident_char, ident_start_char, is_digit_char, is_ident_char, is_ident_start_char,
    is_space_char, space_char,
};

verus! {

/// One lexical unit of the dialect: punctuation, a comparison operator
/// lexeme, a bare word (identifier or keyword), a run of digits with an
/// optional leading minus, a quoted string (quotes included), or the body of
/// a line or block comment.
#[derive(Debug, Clone, PartialEq, Eq)]
pub enum Token {
    LParen,
    RParen,
    Comma,
    Semi,
    Star,
    Cmp(String),
    Word(String),
    Num(String),
    Quoted(String),
    LineNote(String),
    BlockNote(String),
}

/// The mathematical image of a token: the same shape with the text as a
/// sequence of characters.
pub enum TokenV {
    LParen,
    RParen,
    Comma,
    Semi,
    Star,
    Cmp(Seq<char>),
    Word(Seq<char>),
    Num(Seq<char>),
    Quoted(Seq<char>),
    LineNote(Seq<char>),
    BlockNote(Seq<char>),
}

impl DeepView for Token {
    type V = TokenV;

    open spec fn deep_view(&self) -> TokenV {
        match self {
            Token::LParen => TokenV::LParen,
            Token::RParen => TokenV::RParen,
            Token::Comma => TokenV::Comma,
            Token::Semi => TokenV::Semi,
            Token::Star => TokenV::Star,
            Token::Cmp(t) => TokenV::Cmp(t@),
            Token::Word(t) => TokenV::Word(t@),
            Token::Num(t) => TokenV::Num(t@),
            Token::Quoted(t) => TokenV::Quoted(t@),
            Token::LineNote(t) => TokenV::LineNote(t@),
            Token::BlockNote(t) => TokenV::BlockNote(t@),
        }
    }
}

/// The first position at or after `p` that holds a newline, or the end.
pub open spec fn line_end(cs: Seq<char>, p: int) -> int
    decreases cs.len() - p
    when 0 <= p <= cs.len()
{
    if p >= cs.len() || cs[p] == '\n' {
        p
    } else {
        line_end(cs, p + 1)
    }
}

/// The first position at or after `p` that holds no digit, or the end.
pub open spec fn digits_end(cs: Seq<char>, p: int) -> int
    decreases cs.len() - p
    when 0 <= p <= cs.len()
{
    if p >= cs.len() || !is_digit_char(cs[p]) {
        p
    } else {
        digits_end(cs, p + 1)
    }
}

/// The first position at or after `p` that holds no identifier character,
/// or the end.
pub open spec fn word_end(cs: Seq<char>, p: int) -> int
    decreases cs.len() - p
    when 0 <= p <= cs.len()
{
    if p >= cs.len() || !is_ident_char(cs[p]) {
        p
    } else {
        word_end(cs, p + 1)
    }
}

/// The first position at or after `p` that holds a single quote, if any.
pub open spec fn quote_end(cs: Seq<char>, p: int) -> Option<int>
    decreases cs.len() - p
    when 0 <= p <= cs.len()
{
    if p >= cs.len() {
        None
    } else if cs[p] == '\'' {
        Some(p)
    } else {
        quote_end(cs, p + 1)
    }
}

/// The first position `e` at or after `p` with `*` at `e` and `/` right
/// after it, if any.
pub open spec fn block_end(cs: Seq<char>, p: int) -> Option<int>
    decreases cs.len() - p
    when 0 <= p <= cs.len()
{
    if p + 1 >= cs.len() {
        None
    } else if cs[p] == '*' && cs[p + 1] == '/' {
        Some(p)
    } else {
        block_end(cs, p + 1)
    }
}

pub proof fn lemma_line_end(cs: Seq<char>, p: int)
    requires
        0 <= p <= cs.len(),
    ensures
        p <= line_end(cs, p) <= cs.len(),
        forall|j: int| p <= j < line_end(cs, p) ==> cs[j] != '\n',
        line_end(cs, p) < cs.len() ==> cs[line_end(cs, p)] == '\n',
    decreases cs.len() - p,
{
    if p < cs.len() && cs[p] != '\n' {
        lemma_line_end(cs, p + 1);
    }
}

pub proof fn lemma_digits_end(cs: Seq<char>, p: int)
    requires
        0 <= p <= cs.len(),
    ensures
        p <= digits_end(cs, p) <= cs.len(),
        forall|j: int| p <= j < digits_end(cs, p) ==> is_digit_char(cs[j]),
        digits_end(cs, p) < cs.len() ==> !is_digit_char(cs[digits_end(cs, p)]),
    decreases cs.len() - p,
{
    if p < cs.len() && is_digit_char(cs[p]) {
        lemma_digits_end(cs, p + 1);
    }
}

pub proof fn lemma_word_end(cs: Seq<char>, p: int)
    requires
        0 <= p <= cs.len(),
    ensures
        p <= word_end(cs, p) <= cs.len(),
        forall|j: int| p <= j < word_end(cs, p) ==> is_ident_char(cs[j]),
        word_end(cs, p) < cs.len() ==> !is_ident_char(cs[word_end(cs, p)]),
    decreases cs.len() - p,
{
    if p < cs.len() && is_ident_char(cs[p]) {
        lemma_word_end(cs, p + 1);
    }
}

pub proof fn lemma_quote_end(cs: Seq<char>, p: int)
    requires
        0 <= p <= cs.len(),
    ensures
        quote_end(cs, p) matches Some(e) ==> p <= e < cs.len() && cs[e] == '\'' && forall|j: int|
            p <= j < e ==> cs[j] != '\'',
    decreases cs.len() - p,
{
    if p < cs.len() && cs[p] != '\'' {
        lemma_quote_end(cs, p + 1);
    }
}

pub proof fn lemma_block_end(cs: Seq<char>, p: int)
    requires
        0 <= p <= cs.len(),
    ensures
        block_end(cs, p) matches Some(e) ==> p <= e && e + 1 < cs.len() && cs[e] == '*' && cs[e
            + 1] == '/',
    decreases cs.len() - p,
{
    if p + 1 < cs.len() && !(cs[p] == '*' && cs[p + 1] == '/') {
        lemma_block_end(cs, p + 1);
    }
}

/// Prefix one token to a tokenization outcome.
pub open spec fn lex_cons(t: TokenV, rest: Option<Seq<TokenV>>) -> Option<Seq<TokenV>> {
    match rest {
        Some(r) => Some(seq![t] + r),
        None => None,
    }
}

/// Prefix already-lexed tokens to a tokenization outcome.
pub open spec fn lex_prepend(pre: Seq<TokenV>, rest: Option<Seq<TokenV>>) -> Option<
    Seq<TokenV>,
> {
    match rest {
        Some(r) => Some(pre + r),
        None => None,
    }
}

/// The tokens of `cs` from position `pos` on, or `None` where the text is
/// lexically malformed: a lone `!`, a lone `-` before neither `-` nor a
/// digit, an unterminated string or block comment, or a character outside
/// the dialect's alphabet. Whitespace separates tokens and is dropped;
/// comment bodies are kept as tokens of their own.
pub open spec fn lex(cs: Seq<char>, pos: int) -> Option<Seq<TokenV>>
    decreases cs.len() - pos
    when 0 <= pos <= cs.len()
    via lex_dec
{
    if pos >= cs.len() {
        Some(Seq::empty())
    } else {
        let c = cs[pos];
        if is_space_char(c) {
            lex(cs, pos + 1)
        } else if c == '(' {
            lex_cons(TokenV::LParen, lex(cs, pos + 1))
        } else if c == ')' {
            lex_cons(TokenV::RParen, lex(cs, pos + 1))
        } else if c == ',' {
            lex_cons(TokenV::Comma, lex(cs, pos + 1))
        } else if c == ';' {
            lex_cons(TokenV::Semi, lex(cs, pos + 1))
        } else if c == '*' {
            lex_cons(TokenV::Star, lex(cs, pos + 1))
        } else if c == '=' {
            lex_cons(TokenV::Cmp(cs.subrange(pos, pos + 1)), lex(cs, pos + 1))
        } else if c == '<' {
            if pos + 1 < cs.len() && (cs[pos + 1] == '=' || cs[pos + 1] == '>') {
                lex_cons(TokenV::Cmp(cs.subrange(pos, pos + 2)), lex(cs, pos + 2))
            } else {
                lex_cons(TokenV::Cmp(cs.subrange(pos, pos + 1)), lex(cs, pos + 1))
            }
        } else if c == '>' {
            if pos + 1 < cs.len() && cs[pos + 1] == '=' {
                lex_cons(TokenV::Cmp(cs.subrange(pos, pos + 2)), lex(cs, pos + 2))
            } else {
                lex_cons(TokenV::Cmp(cs.subrange(pos, pos + 1)), lex(cs, pos + 1))
            }
        } else if c == '!' {
            if pos + 1 < cs.len() && cs[pos + 1] == '=' {
                lex_cons(TokenV::Cmp(cs.subrange(pos, pos + 2)), lex(cs, pos + 2))
            } else {
                None
            }
        } else if c == '-' {
            if pos + 1 < cs.len() && cs[pos + 1] == '-' {
                lex_cons(
                    TokenV::LineNote(cs.subrange(pos + 2, line_end(cs, pos + 2))),
                    lex(cs, line_end(cs, pos + 2)),
                )
            } else if pos + 1 < cs.len() && is_digit_char(cs[pos + 1]) {
                lex_cons(
                    TokenV::Num(cs.subrange(pos, digits_end(cs, pos + 1))),
                    lex(cs, digits_end(cs, pos + 1)),
                )
            } else {
                None
            }
        } else if c == '/' {
            if pos + 1 < cs.len() && cs[pos + 1] == '*' {
                match block_end(cs, pos + 2) {
                    Some(e) => lex_cons(
                        TokenV::BlockNote(cs.subrange(pos + 2, e)),
                        lex(cs, e + 2),
                    ),
                    None => None,
                }
            } else {
                None
            }
        } else if c == '\'' {
            match quote_end(cs, pos + 1) {
                Some(e) => lex_cons(TokenV::Quoted(cs.subrange(pos, e + 1)), lex(cs, e + 1)),
                None => None,
            }
        } else if is_digit_char(c) {
            lex_cons(TokenV::Num(cs.subrange(pos, digits_end(cs, pos))), lex(cs, digits_end(cs, pos)))
        } else if is_ident_start_char(c) {
            lex_cons(TokenV::Word(cs.subrange(pos, word_end(cs, pos))), lex(cs, word_end(cs, pos)))
        } else {
            None
        }
    }
}

#[via_fn]
proof fn lex_dec(cs: Seq<char>, pos: int) {
    if 0 <= pos && pos < cs.len() {
        lemma_digits_end(cs, pos);
        lemma_word_end(cs, pos);
        if pos + 1 <= cs.len() {
            lemma_digits_end(cs, pos + 1);
            lemma_quote_end(cs, pos + 1);
        }
        if pos + 2 <= cs.len() {
            lemma_line_end(cs, pos + 2);
            lemma_block_end(cs, pos + 2);
        }
    }
}

proof fn lemma_prepend_cons(pre: Seq<TokenV>, t: TokenV, rest: Option<Seq<TokenV>>)
    ensures
        lex_prepend(pre, lex_cons(t, rest)) == lex_prepend(pre + seq![t], rest),
{
    match rest {
        Some(r) => {
            assert((pre + seq![t]) + r =~= pre + (seq![t] + r));
        },
        None => {},
    }
}

/// Push one token and account for it in the deep view.
fn push_tok(toks: &mut Vec<Token>, t: Token)
    ensures
        final(toks).deep_view() == old(toks).deep_view() + seq![t.deep_view()],
{
    let ghost pre = toks.deep_view();
    let ghost tv = t.deep_view();
    toks.push(t);
    proof {
        assert(toks.deep_view() =~= pre + seq![tv]);
    }
}

fn scan_line_end(s: &str, from: usize, n: usize) -> (e: usize)
    requires
        n == s@.len(),
        from <= n,
    ensures
        e == line_end(s@, from as int),
        from <= e <= n,
{
    let mut e: usize = from;
    while e < n && s.get_char(e) != '\n'
        invariant
            n == s@.len(),
            from <= e <= n,
            line_end(s@, from as int) == line_end(s@, e as int),
        decreases n - e,
    {
        e = e + 1;
    }
    e
}

fn scan_digits_end(s: &str, from: usize, n: usize) -> (e: usize)
    requires
        n == s@.len(),
        from <= n,
    ensures
        e == digits_end(s@, from as int),
        from <= e <= n,
{
    let mut e: usize = from;
    while e < n && digit_char(s.get_char(e))
        invariant
            n == s@.len(),
            from <= e <= n,
            digits_end(s@, from as int) == digits_end(s@, e as int),
        decreases n - e,
    {
        e = e + 1;
    }
    e
}

fn scan_word_end(s: &str, from: usize, n: usize) -> (e: usize)
    requires
        n == s@.len(),
        from <= n,
    ensures
        e == word_end(s@, from as int),
        from <= e <= n,
{
    let mut e: usize = from;
    while e < n && ident_char(s.get_char(e))
        invariant
            n == s@.len(),
            from <= e <= n,
            word_end(s@, from as int) == word_end(s@, e as int),
        decreases n - e,
    {
        e = e + 1;
    }
    e
}

fn scan_quote_end(s: &str, from: usize, n: usize) -> (r: Option<usize>)
    requires
        n == s@.len(),
        from <= n,
    ensures
        match r {
            Some(e) => quote_end(s@, from as int) == Some(e as int) && from <= e < n,
            None => quote_end(s@, from as int) is None,
        },
{
    let mut e: usize = from;
    while e < n
        invariant
            n == s@.len(),
            from <= e <= n,
            quote_end(s@, from as int) == quote_end(s@, e as int),
        decreases n - e,
    {
        if s.get_char(e) == '\'' {
            return Some(e);
        }
        e = e + 1;
    }
    None
}

fn scan_block_end(s: &str, from: usize, n: usize) -> (r: Option<usize>)
    requires
        n == s@.len(),
        from <= n,
    ensures
        match r {
            Some(e) => block_end(s@, from as int) == Some(e as int) && from <= e && e + 1 < n,
            None => block_end(s@, from as int) is None,
        },
{
    let mut e: usize = from;
    while e < n
        invariant
            n == s@.len(),
            from <= e <= n,
            block_end(s@, from as int) == block_end(s@, e as int),
        decreases n - e,
    {
        if e + 1 < n && s.get_char(e) == '*' && s.get_char(e + 1) == '/' {
            return Some(e);
        }
        if e + 1 >= n {
            return None;
        }
        e = e + 1;
    }
    None
}

/// Cut the piece `[from, to)` out of `s` as an owned string.
fn piece(s: &str, from: usize, to: usize) -> (r: String)
    requires
        from <= to <= s@.len(),
    ensures
        r@ == s@.subrange(from as int, to as int),
{
    s.substring_char(from, to).to_owned()
}

/// Split `s` into the tokens of the dialect. Succeeds with exactly the
/// tokens that `lex` gives, and fails exactly where `lex` gives none.
pub fn tokenize(s: &str) -> (r: Result<Vec<Token>, ParseError>)
    ensures
        match r {
            Ok(ts) => lex(s@, 0) == Some(ts.deep_view()),
            Err(_) => lex(s@, 0) is None,
        },
{
    let n: usize = s.unicode_len();
    let mut toks: Vec<Token> = Vec::new();
    let mut pos: usize = 0;
    proof {
        assert(toks.deep_view() =~= Seq::<TokenV>::empty());
    }
    while pos < n
        invariant
            n == s@.len(),
            pos <= n,
            lex(s@, 0) == lex_prepend(toks.deep_view(), lex(s@, pos as int)),
        decreases n - pos,
    {
        let ghost pre = toks.deep_view();
        let ghost p = pos as int;
        let c = s.get_char(pos);
        if space_char(c) {
            proof {
                assert(lex(s@, p) == lex(s@, p + 1));
            }
            pos = pos + 1;
        } else if c == '(' {
            proof {
                lemma_prepend_cons(pre, TokenV::LParen, lex(s@, p + 1));
            }
            push_tok(&mut toks, Token::LParen);
            pos = pos + 1;
        } else if c == ')' {
            proof {
                lemma_prepend_cons(pre, TokenV::RParen, lex(s@, p + 1));
            }
            push_tok(&mut toks, Token::RParen);
            pos = pos + 1;
        } else if c == ',' {
            proof {
                lemma_prepend_cons(pre, TokenV::Comma, lex(s@, p + 1));
            }
            push_tok(&mut toks, Token::Comma);
            pos = pos + 1;
        } else if c == ';' {
            proof {
                lemma_prepend_cons(pre, TokenV::Semi, lex(s@, p + 1));
            }
            push_tok(&mut toks, Token::Semi);
            pos = pos + 1;
        } else if c == '*' {
            proof {
                lemma_prepend_cons(pre, TokenV::Star, lex(s@, p + 1));
            }
            push_tok(&mut toks, Token::Star);
            pos = pos + 1;
        } else if c == '=' {
            let t = piece(s, pos, pos + 1);
            proof {
                lemma_prepend_cons(pre, TokenV::Cmp(t@), lex(s@, p + 1));
            }
            push_tok(&mut toks, Token::Cmp(t));
            pos = pos + 1;
        } else if c == '<' {
            if pos + 1 < n && (s.get_char(pos + 1) == '=' || s.get_char(pos + 1) == '>') {
                let t = piece(s, pos, pos + 2);
                proof {
                    lemma_prepend_cons(pre, TokenV::Cmp(t@), lex(s@, p + 2));
                }
                push_tok(&mut toks, Token::Cmp(t));
                pos = pos + 2;
            } else {
                let t = piece(s, pos, pos + 1);
                proof {
                    lemma_prepend_cons(pre, TokenV::Cmp(t@), lex(s@, p + 1));
                }
                push_tok(&mut toks, Token::Cmp(t));
                pos = pos + 1;
            }
        } else if c == '>' {
            if pos + 1 < n && s.get_char(pos + 1) == '=' {
                let t = piece(s, pos, pos + 2);
                proof {
                    lemma_prepend_cons(pre, TokenV::Cmp(t@), lex(s@, p + 2));
                }
                push_tok(&mut toks, Token::Cmp(t));
                pos = pos + 2;
            } else {
                let t = piece(s, pos, pos + 1);
                proof {
                    lemma_prepend_cons(pre, TokenV::Cmp(t@), lex(s@, p + 1));
                }
                push_tok(&mut toks, Token::Cmp(t));
                pos = pos + 1;
            }
        } else if c == '!' {
            if pos + 1 < n && s.get_char(pos + 1) == '=' {
                let t = piece(s, pos, pos + 2);
                proof {
                    lemma_prepend_cons(pre, TokenV::Cmp(t@), lex(s@, p + 2));
                }
                push_tok(&mut toks, Token::Cmp(t));
                pos = pos + 2;
            } else {
                return Err(ParseError::LoneBang);
            }
        } else if c == '-' {
            if pos + 1 < n && s.get_char(pos + 1) == '-' {
                let e = scan_line_end(s, pos + 2, n);
                let t = piece(s, pos + 2, e);
                proof {
                    lemma_prepend_cons(pre, TokenV::LineNote(t@), lex(s@, e as int));
                }
                push_tok(&mut toks, Token::LineNote(t));
                pos = e;
            } else if pos + 1 < n && digit_char(s.get_char(pos + 1)) {
                let e = scan_digits_end(s, pos + 1, n);
                let t = piece(s, pos, e);
                proof {
                    lemma_prepend_cons(pre, TokenV::Num(t@), lex(s@, e as int));
                }
                push_tok(&mut toks, Token::Num(t));
                pos = e;
            } else {
                return Err(ParseError::UnexpectedChar);
            }
        } else if c == '/' {
            if pos + 1 < n && s.get_char(pos + 1) == '*' {
                match scan_block_end(s, pos + 2, n) {
                    Some(e) => {
                        let t = piece(s, pos + 2, e);
                        proof {
                            lemma_prepend_cons(pre, TokenV::BlockNote(t@), lex(s@, e + 2));
                        }
                        push_tok(&mut toks, Token::BlockNote(t));
                        pos = e + 2;
                    },
                    None => {
                        return Err(ParseError::UnterminatedComment);
                    },
                }
            } else {
                return Err(ParseError::UnexpectedChar);
            }
        } else if c == '\'' {
            match scan_quote_end(s, pos + 1, n) {
                Some(e) => {
                    let t = piece(s, pos, e + 1);
                    proof {
                        lemma_prepend_cons(pre, TokenV::Quoted(t@), lex(s@, e + 1));
                    }
                    push_tok(&mut toks, Token::Quoted(t));
                    pos = e + 1;
                },
                None => {
                    return Err(ParseError::UnterminatedString);
                },
            }
        } else if digit_char(c) {
            let e = scan_digits_end(s, pos, n);
            let t = piece(s, pos, e);
            proof {
                lemma_digits_end(s@, p + 1);
                assert(digits_end(s@, p) == digits_end(s@, p + 1));
                lemma_prepend_cons(pre, TokenV::Num(t@), lex(s@, e as int));
            }
            push_tok(&mut toks, Token::Num(t));
            pos = e;
        } else if ident_start_char(c) {
            let e = scan_word_end(s, pos, n);
            let t = piece(s, pos, e);
            proof {
                lemma_word_end(s@, p + 1);
                assert(word_end(s@, p) == word_end(s@, p + 1));
                lemma_prepend_cons(pre, TokenV::Word(t@), lex(s@, e as int));
            }
            push_tok(&mut toks, Token::Word(t));
            pos = e;
        } else {
            return Err(ParseError::UnexpectedChar);
        }
    }
    proof {
        assert(toks.deep_view() + Seq::<TokenV>::empty() =~= toks.deep_view());
    }
    Ok(toks)
}

} // verus!

use vstd::prelude::*;
use vstd::string::StrSliceExecFns;
use crate::error::ParseError;
use crate::parser::lexer::{Token, TokenV};
use crate::text::{int_of, parse_i64, str_eq};

verus! {

/// A literal value: a signed 64-bit integer, a piece of text, or a boolean.
#[derive(Debug, Clone, PartialEq, Eq)]
pub enum Nutrients {
    Int(i64),
    Str(String),
    Bool(bool),
}

/// `TRUE` in any capitalization.
pub open spec fn is_true_word(w: Seq<char>) -> bool {
    w.len() == 4 && (w[0] == 'T' || w[0] == 't') && (w[1] == 'R' || w[1] == 'r') && (w[2] == 'U'
        || w[2] == 'u') && (w[3] == 'E' || w[3] == 'e')
}

/// `FALSE` in any capitalization.
pub open spec fn is_false_word(w: Seq<char>) -> bool {
    w.len() == 5 && (w[0] == 'F' || w[0] == 'f') && (w[1] == 'A' || w[1] == 'a') && (w[2] == 'L'
        || w[2] == 'l') && (w[3] == 'S' || w[3] == 's') && (w[4] == 'E' || w[4] == 'e')
}

/// The boolean denoted by a word, if any: `TRUE` and `FALSE` are read
/// without regard to case; every other word denotes none.
pub open spec fn bool_of(w: Seq<char>) -> Option<bool> {
    if is_true_word(w) {
        Some(true)
    } else if is_false_word(w) {
        Some(false)
    } else {
        None
    }
}

fn word_is_true(s: &str) -> (r: bool)
    ensures
        r == is_true_word(s@),
{
    if s.unicode_len() != 4 {
        return false;
    }
    let c0 = s.get_char(0);
    let c1 = s.get_char(1);
    let c2 = s.get_char(2);
    let c3 = s.get_char(3);
    (c0 == 'T' || c0 == 't') && (c1 == 'R' || c1 == 'r') && (c2 == 'U' || c2 == 'u') && (c3 == 'E'
        || c3 == 'e')
}

fn word_is_false(s: &str) -> (r: bool)
    ensures
        r == is_false_word(s@),
{
    if s.unicode_len() != 5 {
        return false;
    }
    let c0 = s.get_char(0);
    let c1 = s.get_char(1);
    let c2 = s.get_char(2);
    let c3 = s.get_char(3);
    let c4 = s.get_char(4);
    (c0 == 'F' || c0 == 'f') && (c1 == 'A' || c1 == 'a') && (c2 == 'L' || c2 == 'l') && (c3 == 'S'
        || c3 == 's') && (c4 == 'E' || c4 == 'e')
}

/// The literal that a single token denotes: a digit run denotes the integer
/// it spells, a quoted token denotes its text with exactly the first and
/// last characters (the quotes) stripped, and a boolean word denotes its
/// truth value.
pub open spec fn nutrient_tok(v: Nutrients, t: TokenV) -> bool {
    match v {
        Nutrients::Int(n) => t matches TokenV::Num(x) && int_of(x) == Some(n as int),
        Nutrients::Str(s) => t matches TokenV::Quoted(x) && x.len() >= 2 && s@ == x.subrange(
            1,
            x.len() - 1,
        ),
        Nutrients::Bool(b) => t matches TokenV::Word(w) && bool_of(w) == Some(b),
    }
}

/// A token of one of the literal kinds: a digit run, a quoted text, or a
/// bare word.
pub open spec fn lit_kind(t: TokenV) -> bool {
    match t {
        TokenV::Num(_) => true,
        TokenV::Quoted(_) => true,
        TokenV::Word(_) => true,
        _ => false,
    }
}

/// Whether a token denotes a literal at all: a digit run whose value fits
/// in 64 signed bits, a quoted text of at least the two quotes, or a
/// boolean word.
pub open spec fn tok_denotes(t: TokenV) -> bool {
    match t {
        TokenV::Num(x) => int_of(x) matches Some(v) && -0x8000000000000000 <= v
            <= 0x7fffffffffffffff,
        TokenV::Quoted(x) => x.len() >= 2,
        TokenV::Word(w) => bool_of(w) is Some,
        _ => false,
    }
}

impl Nutrients {
    /// The literal denoted by one token; fails exactly when the token
    /// denotes no literal (wrong token kind, an out-of-range integer, or a
    /// word that is no boolean).
    pub fn from_token(t: &Token) -> (r: Result<Nutrients, ParseError>)
        ensures
            match r {
                Ok(v) => nutrient_tok(v, t.deep_view()),
                Err(_) => forall|v: Nutrients| !nutrient_tok(v, t.deep_view()),
            },
            r is Ok <==> tok_denotes(t.deep_view()),
    {
        match t {
            Token::Num(x) => {
                match parse_i64(x.as_str()) {
                    Ok(v) => Ok(Nutrients::Int(v)),
                    Err(e) => Err(e),
                }
            },
            Token::Quoted(x) => {
                let n: usize = x.as_str().unicode_len();
                if n >= 2 {
                    let body = x.as_str().substring_char(1, n - 1).to_owned();
                    Ok(Nutrients::Str(body))
                } else {
                    Err(ParseError::UnexpectedToken)
                }
            },
            Token::Word(w) => {
                if word_is_true(w.as_str()) {
                    Ok(Nutrients::Bool(true))
                } else if word_is_false(w.as_str()) {
                    Ok(Nutrients::Bool(false))
                } else {
                    Err(ParseError::UnexpectedToken)
                }
            },
            _ => Err(ParseError::UnexpectedToken),
        }
    }
}

/// Two literals denote the same value: equal integers, equal booleans, or
/// text of equal characters.
pub open spec fn nutrient_eq(a: Nutrients, b: Nutrients) -> bool {
    match (a, b) {
        (Nutrients::Int(x), Nutrients::Int(y)) => x == y,
        (Nutrients::Str(x), Nutrients::Str(y)) => x@ == y@,
        (Nutrients::Bool(x), Nutrients::Bool(y)) => x == y,
        _ => false,
    }
}

/// One token denotes exactly one literal value.
pub proof fn lemma_nutrient_tok_deterministic(a: Nutrients, b: Nutrients, t: TokenV)
    requires
        nutrient_tok(a, t),
        nutrient_tok(b, t),
    ensures
        nutrient_eq(a, b),
{
}

/// Comma-separated bare names, one `Word` token each.
pub open spec fn piths_toks(ps: Seq<String>, ts: Seq<TokenV>) -> bool
    decreases ps.len(),
{
    if ps.len() == 0 {
        ts.len() == 0
    } else if ps.len() == 1 {
        ts.len() == 1 && ts[0] == TokenV::Word(ps[0]@)
    } else {
        ts.len() >= 3 && ts[ts.len() - 1] == TokenV::Word(ps.last()@) && ts[ts.len() - 2]
            == TokenV::Comma && piths_toks(ps.drop_last(), ts.subrange(0, ts.len() - 2))
    }
}

/// A run of name tokens spells exactly one name list: two lists that stand
/// for the same tokens hold the same names, in the same order. So a
/// projection or column list is exactly the written names.
pub proof fn lemma_piths_deterministic(p1: Seq<String>, p2: Seq<String>, ts: Seq<TokenV>)
    requires
        piths_toks(p1, ts),
        piths_toks(p2, ts),
    ensures
        p1.len() == p2.len(),
        forall|i: int| 0 <= i < p1.len() ==> p1[i]@ == p2[i]@,
    decreases p1.len(),
{
    if p1.len() <= 1 || p2.len() <= 1 {
    } else {
        lemma_piths_deterministic(p1.drop_last(), p2.drop_last(), ts.subrange(0, ts.len() - 2));
        assert forall|i: int| 0 <= i < p1.len() implies p1[i]@ == p2[i]@ by {
            if i < p1.len() - 1 {
                assert(p1[i] == p1.drop_last()[i]);
                assert(p2[i] == p2.drop_last()[i]);
            }
        }
    }
}

/// Comma-separated literals, one token each.
pub open spec fn nutrients_toks(vs: Seq<Nutrients>, ts: Seq<TokenV>) -> bool
    decreases vs.len(),
{
    if vs.len() == 0 {
        ts.len() == 0
    } else if vs.len() == 1 {
        ts.len() == 1 && nutrient_tok(vs[0], ts[0])
    } else {
        ts.len() >= 3 && nutrient_tok(vs.last(), ts[ts.len() - 1]) && ts[ts.len() - 2]
            == TokenV::Comma && nutrients_toks(vs.drop_last(), ts.subrange(0, ts.len() - 2))
    }
}

/// A run of literal tokens spells exactly one value list: two lists that
/// stand for the same tokens denote the same values, in the same order.
pub proof fn lemma_nutrients_deterministic(v1: Seq<Nutrients>, v2: Seq<Nutrients>, ts: Seq<TokenV>)
    requires
        nutrients_toks(v1, ts),
        nutrients_toks(v2, ts),
    ensures
        v1.len() == v2.len(),
        forall|i: int| 0 <= i < v1.len() ==> nutrient_eq(v1[i], v2[i]),
    decreases v1.len(),
{
    if v1.len() <= 1 || v2.len() <= 1 {
        if v1.len() == 1 && v2.len() == 1 {
            lemma_nutrient_tok_deterministic(v1[0], v2[0], ts[0]);
        }
    } else {
        lemma_nutrients_deterministic(v1.drop_last(), v2.drop_last(), ts.subrange(0, ts.len() - 2));
        lemma_nutrient_tok_deterministic(v1.last(), v2.last(), ts[ts.len() - 1]);
        assert forall|i: int| 0 <= i < v1.len() implies nutrient_eq(v1[i], v2[i]) by {
            if i < v1.len() - 1 {
                assert(v1[i] == v1.drop_last()[i]);
                assert(v2[i] == v2.drop_last()[i]);
            }
        }
    }
}

/// Where a comma-separated run of name tokens that started before `p`
/// continues: `p` itself ends the list unless it is a comma followed by a
/// name; a comma followed by anything else is malformed.
pub open spec fn ident_list_tail(ts: Seq<TokenV>, p: int) -> Option<int>
    decreases ts.len() - p
    when 0 <= p <= ts.len()
{
    if p >= ts.len() || ts[p] != TokenV::Comma {
        Some(p)
    } else if p + 1 < ts.len() && (ts[p + 1] matches TokenV::Word(_)) {
        ident_list_tail(ts, p + 2)
    } else {
        None
    }
}

/// Where the comma-separated name list starting at `pos` ends, or `None`
/// where it is malformed. A position that starts with no name token is the
/// empty list, ending where it began.
pub open spec fn ident_list_end(ts: Seq<TokenV>, pos: int) -> Option<int> {
    if pos >= ts.len() || !(ts[pos] matches TokenV::Word(_)) {
        Some(pos)
    } else {
        ident_list_tail(ts, pos + 1)
    }
}

/// Where a comma-separated run of literal tokens that started before `p`
/// continues.
pub open spec fn nutrient_list_tail(ts: Seq<TokenV>, p: int) -> Option<int>
    decreases ts.len() - p
    when 0 <= p <= ts.len()
{
    if p >= ts.len() || ts[p] != TokenV::Comma {
        Some(p)
    } else if p + 1 < ts.len() && tok_denotes(ts[p + 1]) {
        nutrient_list_tail(ts, p + 2)
    } else {
        None
    }
}

/// Where the comma-separated literal list starting at `pos` ends, or
/// `None` where it is malformed (a bad first literal, or a comma followed
/// by no literal).
pub open spec fn nutrient_list_end(ts: Seq<TokenV>, pos: int) -> Option<int> {
    if pos >= ts.len() || !lit_kind(ts[pos]) {
        Some(pos)
    } else if tok_denotes(ts[pos]) {
        nutrient_list_tail(ts, pos + 1)
    } else {
        None
    }
}

/// Parse a possibly empty comma-separated list of bare names. Consumes
/// nothing when the list is empty (the next token is no `Word`). Succeeds
/// exactly where `ident_list_end` gives an end, and consumes exactly up to
/// it.
pub(crate) fn parse_ident_list(ts: &Vec<Token>, pos: usize) -> (r: Result<
    (Vec<String>, usize),
    ParseError,
>)
    requires
        pos <= ts@.len(),
    ensures
        r matches Ok((ns, q)) ==> pos <= q <= ts@.len() && ident_list_end(
            ts.deep_view(),
            pos as int,
        ) == Some(q as int) && piths_toks(
            ns@,
            ts.deep_view().subrange(pos as int, q as int),
        ) && (ns@.len() == 0 ==> q == pos),
        r is Err ==> ident_list_end(ts.deep_view(), pos as int) is None,
{
    let ghost dv = ts.deep_view();
    let n: usize = ts.len();
    let mut names: Vec<String> = Vec::new();
    let mut q: usize = pos;
    if q == n {
        proof {
            assert(dv.subrange(pos as int, pos as int) =~= Seq::<TokenV>::empty());
        }
        return Ok((names, q));
    }
    match &ts[q] {
        Token::Word(w) => {
            names.push(w.clone());
            q = q + 1;
            proof {
                assert(dv.subrange(pos as int, q as int) =~= seq![dv[pos as int]]);
            }
        },
        _ => {
            proof {
                assert(dv.subrange(pos as int, pos as int) =~= Seq::<TokenV>::empty());
            }
            return Ok((names, q));
        },
    }
    loop
        invariant
            n == ts@.len(),
            dv == ts.deep_view(),
            pos < q <= n,
            names@.len() >= 1,
            ident_list_end(dv, pos as int) == ident_list_tail(dv, q as int),
            piths_toks(names@, dv.subrange(pos as int, q as int)),
        ensures
            q >= n || dv[q as int] != TokenV::Comma,
        decreases n - q,
    {
        if q >= n {
            break;
        }
        let is_comma = match &ts[q] {
            Token::Comma => true,
            _ => false,
        };
        if !is_comma {
            break;
        }
        if q + 1 >= n {
            return Err(ParseError::UnexpectedEnd);
        }
        let ghost old_names = names@;
        match &ts[q + 1] {
            Token::Word(w) => {
                names.push(w.clone());
                proof {
                    let ns2 = dv.subrange(pos as int, q as int + 2);
                    assert(ns2.subrange(0, ns2.len() - 2) =~= dv.subrange(pos as int, q as int));
                    assert(names@.drop_last() =~= old_names);
                    assert(ns2[ns2.len() - 1] == dv[q as int + 1]);
                    assert(ns2[ns2.len() - 2] == dv[q as int]);
                }
                q = q + 2;
            },
            _ => {
                return Err(ParseError::UnexpectedToken);
            },
        }
    }
    Ok((names, q))
}

/// Parse a possibly empty comma-separated list of literals. Consumes
/// nothing when the list is empty (the next token denotes no literal).
pub(crate) fn parse_nutrient_list(ts: &Vec<Token>, pos: usize) -> (r: Result<
    (Vec<Nutrients>, usize),
    ParseError,
>)
    requires
        pos <= ts@.len(),
    ensures
        r matches Ok((vs, q)) ==> pos <= q <= ts@.len() && nutrient_list_end(
            ts.deep_view(),
            pos as int,
        ) == Some(q as int) && nutrients_toks(
            vs@,
            ts.deep_view().subrange(pos as int, q as int),
        ) && (vs@.len() == 0 ==> q == pos),
        r is Err ==> nutrient_list_end(ts.deep_view(), pos as int) is None,
{
    let ghost dv = ts.deep_view();
    let n: usize = ts.len();
    let mut vals: Vec<Nutrients> = Vec::new();
    let mut q: usize = pos;
    if q == n {
        proof {
            assert(dv.subrange(pos as int, pos as int) =~= Seq::<TokenV>::empty());
        }
        return Ok((vals, q));
    }
    let starts_literal = match &ts[q] {
        Token::Num(_) => true,
        Token::Quoted(_) => true,
        Token::Word(_) => true,
        _ => false,
    };
    if !starts_literal {
        proof {
            assert(dv.subrange(pos as int, pos as int) =~= Seq::<TokenV>::empty());
        }
        return Ok((vals, q));
    }
    match Nutrients::from_token(&ts[q]) {
        Ok(v) => {
            vals.push(v);
            q = q + 1;
            proof {
                assert(dv.subrange(pos as int, q as int) =~= seq![dv[pos as int]]);
            }
        },
        Err(e) => {
            return Err(e);
        },
    }
    loop
        invariant
            n == ts@.len(),
            dv == ts.deep_view(),
            pos < q <= n,
            vals@.len() >= 1,
            nutrient_list_end(dv, pos as int) == nutrient_list_tail(dv, q as int),
            nutrients_toks(vals@, dv.subrange(pos as int, q as int)),
        ensures
            q >= n || dv[q as int] != TokenV::Comma,
        decreases n - q,
    {
        if q >= n {
            break;
        }
        let is_comma = match &ts[q] {
            Token::Comma => true,
            _ => false,
        };
        if !is_comma {
            break;
        }
        if q + 1 >= n {
            return Err(ParseError::UnexpectedEnd);
        }
        let ghost old_vals = vals@;
        match Nutrients::from_token(&ts[q + 1]) {
            Ok(v) => {
                vals.push(v);
                proof {
                    let ns2 = dv.subrange(pos as int, q as int + 2);
                    assert(ns2.subrange(0, ns2.len() - 2) =~= dv.subrange(pos as int, q as int));
                    assert(vals@.drop_last() =~= old_vals);
                    assert(ns2[ns2.len() - 1] == dv[q as int + 1]);
                    assert(ns2[ns2.len() - 2] == dv[q as int]);
                }
                q = q + 2;
            },
            Err(e) => {
                return Err(e);
            },
        }
    }
    Ok((vals, q))
}

/// Every token of a name list is a bare word or a comma.
pub proof fn lemma_piths_words_commas(ps: Seq<String>, ts: Seq<TokenV>)
    requires
        piths_toks(ps, ts),
    ensures
        forall|j: int|
            0 <= j < ts.len() ==> ((#[trigger] ts[j]) matches TokenV::Word(_) || ts[j]
                == TokenV::Comma),
    decreases ps.len(),
{
    if ps.len() >= 2 {
        lemma_piths_words_commas(ps.drop_last(), ts.subrange(0, ts.len() - 2));
        assert forall|j: int|
            0 <= j < ts.len() implies ((#[trigger] ts[j]) matches TokenV::Word(_) || ts[j]
            == TokenV::Comma) by {
            if j < ts.len() - 2 {
                assert(ts[j] == ts.subrange(0, ts.len() - 2)[j]);
            }
        }
    }
}

/// A row insertion: a table name, the named columns, and the supplied
/// values. The two lists are collected independently; no correspondence
/// between their lengths is enforced here, a downstream consumer must check
/// it.
#[derive(Debug, Clone, PartialEq, Eq)]
pub struct Sow {
    pub bud: String,
    pub piths: Vec<String>,
    pub nutrients: Vec<Nutrients>,
}

/// The token shape of a row insertion:
/// `INSERT INTO <table> ( <names> ) VALUES ( <literals> )`.
pub open spec fn sow_toks(sw: Sow, ts: Seq<TokenV>) -> bool {
    ts.len() >= 8 && ts[0] == TokenV::Word("INSERT"@) && ts[1] == TokenV::Word("INTO"@) && ts[2]
        == TokenV::Word(sw.bud@) && ts[3] == TokenV::LParen && ts[ts.len() - 1] == TokenV::RParen
        && exists|k: int|
        4 <= k && k + 3 <= ts.len() - 1 && ts[k] == TokenV::RParen && ts[k + 1] == TokenV::Word(
            "VALUES"@,
        ) && ts[k + 2] == TokenV::LParen && piths_toks(sw.piths@, ts.subrange(4, k))
            && nutrients_toks(sw.nutrients@, ts.subrange(k + 3, ts.len() - 1))
}

/// Where the row insertion starting at `pos` ends, or `None` where none
/// begins there: `INSERT INTO <name> (` must open it, the two lists must
/// be well formed, and `) VALUES (` and the closing `)` must stand between
/// and after them.
pub open spec fn sow_end(ts: Seq<TokenV>, pos: int) -> Option<int> {
    if pos + 4 <= ts.len() && ts[pos] == TokenV::Word("INSERT"@) && ts[pos + 1] == TokenV::Word(
        "INTO"@,
    ) && (ts[pos + 2] matches TokenV::Word(_)) && ts[pos + 3] == TokenV::LParen {
        match ident_list_end(ts, pos + 4) {
            Some(k) => if k + 3 <= ts.len() && ts[k] == TokenV::RParen && ts[k + 1]
                == TokenV::Word("VALUES"@) && ts[k + 2] == TokenV::LParen {
                match nutrient_list_end(ts, k + 3) {
                    Some(m) => if m < ts.len() && ts[m] == TokenV::RParen {
                        Some(m + 1)
                    } else {
                        None
                    },
                    None => None,
                }
            } else {
                None
            },
            None => None,
        }
    } else {
        None
    }
}

/// A token stretch spells exactly one row insertion: the table name, the
/// column names and the values are all pinned by the tokens.
pub proof fn lemma_sow_deterministic(w1: Sow, w2: Sow, ts: Seq<TokenV>)
    requires
        sow_toks(w1, ts),
        sow_toks(w2, ts),
    ensures
        w1.bud@ == w2.bud@,
        w1.piths@.len() == w2.piths@.len(),
        forall|i: int| 0 <= i < w1.piths@.len() ==> w1.piths@[i]@ == w2.piths@[i]@,
        w1.nutrients@.len() == w2.nutrients@.len(),
        forall|i: int|
            0 <= i < w1.nutrients@.len() ==> nutrient_eq(w1.nutrients@[i], w2.nutrients@[i]),
{
    let k1 = choose|k1: int|
        4 <= k1 && k1 + 3 <= ts.len() - 1 && ts[k1] == TokenV::RParen && ts[k1 + 1]
            == TokenV::Word("VALUES"@) && ts[k1 + 2] == TokenV::LParen && piths_toks(
            w1.piths@,
            ts.subrange(4, k1),
        ) && nutrients_toks(w1.nutrients@, ts.subrange(k1 + 3, ts.len() - 1));
    let k2 = choose|k2: int|
        4 <= k2 && k2 + 3 <= ts.len() - 1 && ts[k2] == TokenV::RParen && ts[k2 + 1]
            == TokenV::Word("VALUES"@) && ts[k2 + 2] == TokenV::LParen && piths_toks(
            w2.piths@,
            ts.subrange(4, k2),
        ) && nutrients_toks(w2.nutrients@, ts.subrange(k2 + 3, ts.len() - 1));
    if k1 < k2 {
        lemma_piths_words_commas(w2.piths@, ts.subrange(4, k2));
        assert(ts.subrange(4, k2)[k1 - 4] == ts[k1]);
        assert(false);
    }
    if k2 < k1 {
        lemma_piths_words_commas(w1.piths@, ts.subrange(4, k1));
        assert(ts.subrange(4, k1)[k2 - 4] == ts[k2]);
        assert(false);
    }
    lemma_piths_deterministic(w1.piths@, w2.piths@, ts.subrange(4, k1));
    lemma_nutrients_deterministic(w1.nutrients@, w2.nutrients@, ts.subrange(k1 + 3, ts.len() - 1));
}

impl Sow {
    /// Parse a row insertion beginning at `pos`. Succeeds exactly where
    /// `sow_end` gives an end, and consumes exactly up to it.
    pub fn from_tokens(ts: &Vec<Token>, pos: usize) -> (r: Result<(Sow, usize), ParseError>)
        requires
            pos <= ts@.len(),
        ensures
            r matches Ok((sw, q)) ==> pos < q <= ts@.len() && sow_end(
                ts.deep_view(),
                pos as int,
            ) == Some(q as int) && sow_toks(
                sw,
                ts.deep_view().subrange(pos as int, q as int),
            ),
            r is Err ==> sow_end(ts.deep_view(), pos as int) is None,
    {
        let ghost dv = ts.deep_view();
        let n: usize = ts.len();
        if n - pos < 4 {
            return Err(ParseError::UnexpectedEnd);
        }
        match &ts[pos] {
            Token::Word(w) => {
                if !str_eq(w.as_str(), "INSERT") {
                    return Err(ParseError::UnexpectedToken);
                }
            },
            _ => {
                return Err(ParseError::UnexpectedToken);
            },
        }
        match &ts[pos + 1] {
            Token::Word(w) => {
                if !str_eq(w.as_str(), "INTO") {
                    return Err(ParseError::UnexpectedToken);
                }
            },
            _ => {
                return Err(ParseError::UnexpectedToken);
            },
        }
        let bud: String = match &ts[pos + 2] {
            Token::Word(w) => w.clone(),
            _ => {
                return Err(ParseError::UnexpectedToken);
            },
        };
        match &ts[pos + 3] {
            Token::LParen => {},
            _ => {
                return Err(ParseError::UnexpectedToken);
            },
        }
        let (piths, k) = match parse_ident_list(ts, pos + 4) {
            Ok(p) => p,
            Err(e) => {
                return Err(e);
            },
        };
        if n - k < 3 {
            return Err(ParseError::UnexpectedEnd);
        }
        match &ts[k] {
            Token::RParen => {},
            _ => {
                return Err(ParseError::UnexpectedToken);
            },
        }
        match &ts[k + 1] {
            Token::Word(w) => {
                if !str_eq(w.as_str(), "VALUES") {
                    return Err(ParseError::UnexpectedToken);
                }
            },
            _ => {
                return Err(ParseError::UnexpectedToken);
            },
        }
        match &ts[k + 2] {
            Token::LParen => {},
            _ => {
                return Err(ParseError::UnexpectedToken);
            },
        }
        let (nutrients, m) = match parse_nutrient_list(ts, k + 3) {
            Ok(p) => p,
            Err(e) => {
                return Err(e);
            },
        };
        if m >= n {
            return Err(ParseError::UnexpectedEnd);
        }
        match &ts[m] {
            Token::RParen => {},
            _ => {
                return Err(ParseError::UnexpectedToken);
            },
        }
        let q: usize = m + 1;
        let sw = Sow { bud, piths, nutrients };
        proof {
            let sub = dv.subrange(pos as int, q as int);
            assert(sub[sub.len() - 1] == dv[m as int]);
            assert(sub.subrange(4, k - pos) =~= dv.subrange(pos + 4, k as int));
            assert(sub.subrange(k - pos + 3, sub.len() - 1) =~= dv.subrange(k + 3, m as int));
            assert(sub[k - pos] == dv[k as int]);
            assert(sub[k - pos + 1] == dv[k as int + 1]);
            assert(sub[k - pos + 2] == dv[k as int + 2]);
            assert(sow_toks(sw, sub)) by {
                assert(4 <= k - pos && (k - pos) + 3 <= sub.len() - 1 && sub[k - pos]
                    == TokenV::RParen && sub[k - pos + 1] == TokenV::Word("VALUES"@) && sub[k - pos
                    + 2] == TokenV::LParen && piths_toks(sw.piths@, sub.subrange(4, k - pos))
                    && nutrients_toks(sw.nutrients@, sub.subrange(k - pos + 3, sub.len() - 1)));
            }
        }
        Ok((sw, q))
    }
}

/// A data-manipulation statement: for now, only a row insertion.
#[derive(Debug, Clone, PartialEq, Eq)]
pub enum DML {
    Sow(Sow),
}

/// The token shape of a data-manipulation statement.
pub open spec fn dml_toks(d: DML, ts: Seq<TokenV>) -> bool {
    match d {
        DML::Sow(sw) => sow_toks(sw, ts),
    }
}

impl DML {
    /// Parse a data-manipulation statement beginning at `pos`. Succeeds
    /// exactly where `sow_end` gives an end, and consumes exactly up to
    /// it.
    pub fn from_tokens(ts: &Vec<Token>, pos: usize) -> (r: Result<(DML, usize), ParseError>)
        requires
            pos <= ts@.len(),
        ensures
            r matches Ok((d, q)) ==> pos < q <= ts@.len() && sow_end(
                ts.deep_view(),
                pos as int,
            ) == Some(q as int) && dml_toks(
                d,
                ts.deep_view().subrange(pos as int, q as int),
            ),
            r is Err ==> sow_end(ts.deep_view(), pos as int) is None,
    {
        match Sow::from_tokens(ts, pos) {
            Ok((sw, q)) => Ok((DML::Sow(sw), q)),
            Err(e) => Err(e),
        }
    }
}

} // verus!

use vstd::prelude::*;
use crate::ast::dml::{bool_of, nutrient_tok, parse_ident_list, piths_toks, tok_denotes, Nutrients};
use crate::error::ParseError;
use crate::parser::lexer::{Token, TokenV};
use crate::text::str_eq;

verus! {

/// A comparison operator of a filter expression. Non-chaining: a comparison
/// relates exactly one left and one right operand.
#[derive(Debug, Clone, Copy, PartialEq, Eq, Structural)]
pub enum Op {
    Eq,
    Neq,
    Lt,
    Lte,
    Gt,
    Gte,
}

/// The operator denoted by a lexeme, if any: `=`, `<>` or `!=`, `<`, `<=`,
/// `>`, `>=`; every other lexeme denotes none.
pub open spec fn op_of(s: Seq<char>) -> Option<Op> {
    if s == "="@ {
        Some(Op::Eq)
    } else if s == "<>"@ || s == "!="@ {
        Some(Op::Neq)
    } else if s == "<"@ {
        Some(Op::Lt)
    } else if s == "<="@ {
        Some(Op::Lte)
    } else if s == ">"@ {
        Some(Op::Gt)
    } else if s == ">="@ {
        Some(Op::Gte)
    } else {
        None
    }
}

impl Op {
    /// The operator denoted by `s`, which must be one of the six lexemes.
    pub fn from_input(s: &str) -> (r: Self)
        requires
            op_of(s@) is Some,
        ensures
            Some(r) == op_of(s@),
    {
        Self::try_from_input(s).unwrap()
    }

    /// The operator denoted by `s`, or `None` exactly when `s` is not one of
    /// the six lexemes.
    pub fn try_from_input(s: &str) -> (r: Option<Self>)
        ensures
            r == op_of(s@),
    {
        if str_eq(s, "=") {
            Some(Op::Eq)
        } else if str_eq(s, "<>") || str_eq(s, "!=") {
            Some(Op::Neq)
        } else if str_eq(s, "<") {
            Some(Op::Lt)
        } else if str_eq(s, "<=") {
            Some(Op::Lte)
        } else if str_eq(s, ">") {
            Some(Op::Gt)
        } else if str_eq(s, ">=") {
            Some(Op::Gte)
        } else {
            None
        }
    }
}

/// A filter expression: a strictly tree-shaped predicate. Parentheses are
/// retained as `Paren` nodes, never collapsed, so `(a)` and `a` are
/// structurally distinct trees.
#[derive(Debug, PartialEq, Eq)]
pub enum Sift {
    Or(Box<Sift>, Box<Sift>),
    And(Box<Sift>, Box<Sift>),
    Comparison { left: Box<Sift>, op: Op, right: Box<Sift> },
    Ident(String),
    Literal(Nutrients),
    Paren(Box<Sift>),
}

/// The precedence discipline of parsed filters, by grammar level: 3 admits
/// everything, 2 rules out a bare `Or`, 1 also rules out a bare `And`, and
/// 0 admits only identifiers, literals and parenthesized subexpressions.
/// An `Or` keeps its right operand at the and-level (left-associativity),
/// an `And` keeps its right operand at the comparison level (`AND` binds
/// tighter than `OR`), and comparison operands are primaries
/// (non-chaining). Inside parentheses every level is admitted again.
pub open spec fn shape_at(f: Sift, level: int) -> bool
    decreases f,
{
    match f {
        Sift::Or(l, r) => level >= 3 && shape_at(*l, 3) && shape_at(*r, 2),
        Sift::And(l, r) => level >= 2 && shape_at(*l, 2) && shape_at(*r, 1),
        Sift::Comparison { left, op, right } => level >= 1 && shape_at(*left, 0) && shape_at(
            *right,
            0,
        ),
        Sift::Ident(_) => true,
        Sift::Literal(_) => true,
        Sift::Paren(inner) => shape_at(*inner, 3),
    }
}

/// A level admits everything that a stricter level admits.
pub proof fn lemma_shape_mono(f: Sift, a: int, b: int)
    requires
        shape_at(f, a),
        a <= b,
    ensures
        shape_at(f, b),
    decreases f,
{
}

/// `AND` binds tighter than `OR`: in a well-shaped filter, neither operand
/// of an `And` node is an `Or` node.
pub proof fn lemma_and_binds_tighter(f: Sift)
    requires
        shape_at(f, 3),
    ensures
        f matches Sift::And(l, r) ==> !((*l) matches Sift::Or(..)) && !((*r) matches Sift::Or(
            ..,
        )),
{
    match f {
        Sift::And(l, r) => {
            assert(shape_at(*l, 2));
            assert(shape_at(*r, 1));
        },
        _ => {},
    }
}

/// `OR` folds left-associatively: in a well-shaped filter, the right
/// operand of an `Or` node is never itself an `Or` node.
pub proof fn lemma_or_left_associative(f: Sift)
    requires
        shape_at(f, 3),
    ensures
        f matches Sift::Or(l, r) ==> !((*r) matches Sift::Or(..)),
{
    match f {
        Sift::Or(l, r) => {
            assert(shape_at(*r, 2));
        },
        _ => {},
    }
}

/// Comparisons do not chain: in a well-shaped filter, the operands of a
/// `Comparison` node are primaries, never comparisons or connectives.
pub proof fn lemma_comparison_not_chained(f: Sift)
    requires
        shape_at(f, 3),
    ensures
        f matches Sift::Comparison { left, op, right } ==> !((*left) matches Sift::Comparison { .. })
            && !((*right) matches Sift::Comparison { .. }) && !((*left) matches Sift::Or(..)) && !(
        (*right) matches Sift::Or(..)) && !((*left) matches Sift::And(..)) && !((*right) matches Sift::And(..)),
{
    match f {
        Sift::Comparison { left, op, right } => {
            assert(shape_at(*left, 0));
            assert(shape_at(*right, 0));
        },
        _ => {},
    }
}

/// The token shape of a filter expression: which token stretch a given
/// tree stands for. An `Or` or `And` splits its tokens at its keyword, a
/// comparison at its operator lexeme; identifiers and literals are single
/// tokens; a `Paren` node wraps its inner stretch in parentheses.
pub open spec fn sift_toks(f: Sift, ts: Seq<TokenV>) -> bool
    decreases f,
{
    match f {
        Sift::Or(l, r) => exists|k: int|
            0 <= k < ts.len() && ts[k] == TokenV::Word("OR"@) && sift_toks(*l, ts.subrange(0, k))
                && sift_toks(*r, ts.subrange(k + 1, ts.len() as int)),
        Sift::And(l, r) => exists|k: int|
            0 <= k < ts.len() && ts[k] == TokenV::Word("AND"@) && sift_toks(*l, ts.subrange(0, k))
                && sift_toks(*r, ts.subrange(k + 1, ts.len() as int)),
        Sift::Comparison { left, op, right } => exists|k: int, x: Seq<char>|
            0 <= k < ts.len() && ts[k] == TokenV::Cmp(x) && op_of(x) == Some(op) && sift_toks(
                *left,
                ts.subrange(0, k),
            ) && sift_toks(*right, ts.subrange(k + 1, ts.len() as int)),
        Sift::Ident(name) => ts.len() == 1 && ts[0] == TokenV::Word(name@) && bool_of(name@) is None,
        Sift::Literal(v) => ts.len() == 1 && nutrient_tok(v, ts[0]),
        Sift::Paren(inner) => ts.len() >= 2 && ts[0] == TokenV::LParen && ts[ts.len() - 1]
            == TokenV::RParen && sift_toks(*inner, ts.subrange(1, ts.len() - 1)),
    }
}

/// How many levels of parentheses a filter expression may nest.
pub const SIFT_DEPTH_LIMIT: usize = 64;

/// Where the primary starting at `pos` ends, or `None` where none begins
/// there: one identifier or literal token, or a parenthesized filter. A
/// further parenthesis level below depth zero is malformed.
pub open spec fn primary_end(ts: Seq<TokenV>, pos: int, depth: int) -> Option<int>
    decreases ts.len() - pos, 1int
    when 0 <= pos <= ts.len()
{
    if pos >= ts.len() {
        None
    } else {
        match ts[pos] {
            TokenV::Word(_) => Some(pos + 1),
            TokenV::Num(_) => if tok_denotes(ts[pos]) {
                Some(pos + 1)
            } else {
                None
            },
            TokenV::Quoted(_) => if tok_denotes(ts[pos]) {
                Some(pos + 1)
            } else {
                None
            },
            TokenV::LParen => if depth <= 0 {
                None
            } else {
                match or_end(ts, pos + 1, depth - 1) {
                    Some(q) => if q < ts.len() && ts[q] == TokenV::RParen {
                        Some(q + 1)
                    } else {
                        None
                    },
                    None => None,
                }
            },
            _ => None,
        }
    }
}

/// Where the comparison level starting at `pos` ends: one primary, and
/// one more primary where a comparison operator follows.
pub open spec fn cmp_end(ts: Seq<TokenV>, pos: int, depth: int) -> Option<int>
    decreases ts.len() - pos, 2int
    when 0 <= pos <= ts.len()
{
    match primary_end(ts, pos, depth) {
        Some(q) => if pos < q && q <= ts.len() {
            if q < ts.len() && (match ts[q] {
                TokenV::Cmp(x) => op_of(x) is Some,
                _ => false,
            }) {
                match primary_end(ts, q + 1, depth) {
                    Some(q2) => Some(q2),
                    None => None,
                }
            } else {
                Some(q)
            }
        } else {
            None
        },
        None => None,
    }
}

/// Where the fold of comparison-level operands separated by `AND`
/// continues after an operand ending at `p`.
pub open spec fn and_tail(ts: Seq<TokenV>, p: int, depth: int) -> Option<int>
    decreases ts.len() - p, 0int
    when 0 <= p <= ts.len()
{
    if p < ts.len() && ts[p] == TokenV::Word("AND"@) {
        match cmp_end(ts, p + 1, depth) {
            Some(q2) => if p < q2 && q2 <= ts.len() {
                and_tail(ts, q2, depth)
            } else {
                None
            },
            None => None,
        }
    } else {
        Some(p)
    }
}

/// Where the and-level expression starting at `pos` ends.
pub open spec fn and_end(ts: Seq<TokenV>, pos: int, depth: int) -> Option<int>
    decreases ts.len() - pos, 3int
    when 0 <= pos <= ts.len()
{
    match cmp_end(ts, pos, depth) {
        Some(q) => if pos < q && q <= ts.len() {
            and_tail(ts, q, depth)
        } else {
            None
        },
        None => None,
    }
}

/// Where the fold of and-level operands separated by `OR` continues after
/// an operand ending at `p`.
pub open spec fn or_tail(ts: Seq<TokenV>, p: int, depth: int) -> Option<int>
    decreases ts.len() - p, 5int
    when 0 <= p <= ts.len()
{
    if p < ts.len() && ts[p] == TokenV::Word("OR"@) {
        match and_end(ts, p + 1, depth) {
            Some(q2) => if p < q2 && q2 <= ts.len() {
                or_tail(ts, q2, depth)
            } else {
                None
            },
            None => None,
        }
    } else {
        Some(p)
    }
}

/// Where the whole filter expression starting at `pos` ends, or `None`
/// where none begins there. This is the success-and-consumption half of
/// the filter grammar: the parser succeeds exactly where this gives an
/// end, and consumes exactly up to it.
pub open spec fn or_end(ts: Seq<TokenV>, pos: int, depth: int) -> Option<int>
    decreases ts.len() - pos, 4int
    when 0 <= pos <= ts.len()
{
    match and_end(ts, pos, depth) {
        Some(q) => if pos < q && q <= ts.len() {
            or_tail(ts, q, depth)
        } else {
            None
        },
        None => None,
    }
}

impl Sift {
    /// Parse a filter expression beginning at `pos`: a left-associative
    /// fold of and-level operands separated by `OR`. Parenthesized
    /// subexpressions may nest at most `SIFT_DEPTH_LIMIT` levels deep;
    /// deeper input fails with `NestingTooDeep` instead of exhausting the
    /// call stack.
    pub fn from_tokens(ts: &Vec<Token>, pos: usize) -> (r: Result<(Sift, usize), ParseError>)
        requires
            pos <= ts@.len(),
        ensures
            r matches Ok((f, q)) ==> pos < q <= ts@.len() && or_end(
                ts.deep_view(),
                pos as int,
                SIFT_DEPTH_LIMIT as int,
            ) == Some(q as int) && shape_at(f, 3) && sift_toks(
                f,
                ts.deep_view().subrange(pos as int, q as int),
            ),
            r is Err ==> or_end(ts.deep_view(), pos as int, SIFT_DEPTH_LIMIT as int) is None,
    {
        Self::or_level(ts, pos, SIFT_DEPTH_LIMIT)
    }

    /// Parse a left-associative fold of and-level operands separated by
    /// `OR`. The first operand seeds the accumulator; each further operand
    /// `o` turns the accumulator `a` into `Or(a, o)`.
    fn or_level(ts: &Vec<Token>, pos: usize, depth: usize) -> (r: Result<
        (Sift, usize),
        ParseError,
    >)
        requires
            pos <= ts@.len(),
        ensures
            r matches Ok((f, q)) ==> pos < q <= ts@.len() && or_end(
                ts.deep_view(),
                pos as int,
                depth as int,
            ) == Some(q as int) && shape_at(f, 3) && sift_toks(
                f,
                ts.deep_view().subrange(pos as int, q as int),
            ),
            r is Err ==> or_end(ts.deep_view(), pos as int, depth as int) is None,
        decreases ts@.len() - pos, 4int,
    {
        let ghost dv = ts.deep_view();
        let n: usize = ts.len();
        let (first, q1) = match Self::and_level(ts, pos, depth) {
            Ok(p) => p,
            Err(e) => {
                return Err(e);
            },
        };
        let mut acc = first;
        let mut q = q1;
        proof {
            lemma_shape_mono(acc, 2, 3);
        }
        loop
            invariant
                n == ts@.len(),
                dv == ts.deep_view(),
                pos < q <= n,
                shape_at(acc, 3),
                or_end(dv, pos as int, depth as int) == or_tail(dv, q as int, depth as int),
                sift_toks(acc, dv.subrange(pos as int, q as int)),
            ensures
                q >= n || dv[q as int] != TokenV::Word("OR"@),
            decreases n - q,
        {
            if q >= n {
                break;
            }
            let keep = match &ts[q] {
                Token::Word(w) => str_eq(w.as_str(), "OR"),
                _ => false,
            };
            if !keep {
                break;
            }
            let (rhs, q2) = match Self::and_level(ts, q + 1, depth) {
                Ok(p) => p,
                Err(e) => {
                    return Err(e);
                },
            };
            acc = Sift::Or(Box::new(acc), Box::new(rhs));
            proof {
                let sub = dv.subrange(pos as int, q2 as int);
                let k = q as int - pos;
                assert(sub[k] == dv[q as int]);
                assert(sub.subrange(0, k) =~= dv.subrange(pos as int, q as int));
                assert(sub.subrange(k + 1, sub.len() as int) =~= dv.subrange(
                    q as int + 1,
                    q2 as int,
                ));
                assert(sift_toks(acc, sub));
            }
            q = q2;
        }
        Ok((acc, q))
    }

    /// Parse a left-associative fold of comparison-level operands
    /// separated by `AND`.
    fn and_level(ts: &Vec<Token>, pos: usize, depth: usize) -> (r: Result<
        (Sift, usize),
        ParseError,
    >)
        requires
            pos <= ts@.len(),
        ensures
            r matches Ok((f, q)) ==> pos < q <= ts@.len() && and_end(
                ts.deep_view(),
                pos as int,
                depth as int,
            ) == Some(q as int) && shape_at(f, 2) && sift_toks(
                f,
                ts.deep_view().subrange(pos as int, q as int),
            ),
            r is Err ==> and_end(ts.deep_view(), pos as int, depth as int) is None,
        decreases ts@.len() - pos, 3int,
    {
        let ghost dv = ts.deep_view();
        let n: usize = ts.len();
        let (first, q1) = match Self::cmp_level(ts, pos, depth) {
            Ok(p) => p,
            Err(e) => {
                return Err(e);
            },
        };
        let mut acc = first;
        let mut q = q1;
        proof {
            lemma_shape_mono(acc, 1, 2);
        }
        loop
            invariant
                n == ts@.len(),
                dv == ts.deep_view(),
                pos < q <= n,
                shape_at(acc, 2),
                and_end(dv, pos as int, depth as int) == and_tail(dv, q as int, depth as int),
                sift_toks(acc, dv.subrange(pos as int, q as int)),
            ensures
                q >= n || dv[q as int] != TokenV::Word("AND"@),
            decreases n - q,
        {
            if q >= n {
                break;
            }
            let keep = match &ts[q] {
                Token::Word(w) => str_eq(w.as_str(), "AND"),
                _ => false,
            };
            if !keep {
                break;
            }
            let (rhs, q2) = match Self::cmp_level(ts, q + 1, depth) {
                Ok(p) => p,
                Err(e) => {
                    return Err(e);
                },
            };
            acc = Sift::And(Box::new(acc), Box::new(rhs));
            proof {
                let sub = dv.subrange(pos as int, q2 as int);
                let k = q as int - pos;
                assert(sub[k] == dv[q as int]);
                assert(sub.subrange(0, k) =~= dv.subrange(pos as int, q as int));
                assert(sub.subrange(k + 1, sub.len() as int) =~= dv.subrange(
                    q as int + 1,
                    q2 as int,
                ));
                assert(sift_toks(acc, sub));
            }
            q = q2;
        }
        Ok((acc, q))
    }

    /// Parse exactly one primary; when a comparison operator follows,
    /// parse exactly one more primary and emit a single `Comparison` node,
    /// otherwise pass the primary through unchanged.
    fn cmp_level(ts: &Vec<Token>, pos: usize, depth: usize) -> (r: Result<
        (Sift, usize),
        ParseError,
    >)
        requires
            pos <= ts@.len(),
        ensures
            r matches Ok((f, q)) ==> pos < q <= ts@.len() && cmp_end(
                ts.deep_view(),
                pos as int,
                depth as int,
            ) == Some(q as int) && shape_at(f, 1) && sift_toks(
                f,
                ts.deep_view().subrange(pos as int, q as int),
            ),
            r is Err ==> cmp_end(ts.deep_view(), pos as int, depth as int) is None,
        decreases ts@.len() - pos, 2int,
    {
        let ghost dv = ts.deep_view();
        let n: usize = ts.len();
        let (l, q1) = match Self::primary_level(ts, pos, depth) {
            Ok(p) => p,
            Err(e) => {
                return Err(e);
            },
        };
        if q1 >= n {
            proof {
                lemma_shape_mono(l, 0, 1);
            }
            return Ok((l, q1));
        }
        let lexeme: Option<Op> = match &ts[q1] {
            Token::Cmp(x) => Op::try_from_input(x.as_str()),
            _ => None,
        };
        match lexeme {
            Some(op) => {
                let (r2, q2) = match Self::primary_level(ts, q1 + 1, depth) {
                    Ok(p) => p,
                    Err(e) => {
                        return Err(e);
                    },
                };
                let f = Sift::Comparison { left: Box::new(l), op, right: Box::new(r2) };
                proof {
                    let sub = dv.subrange(pos as int, q2 as int);
                    let k = q1 as int - pos;
                    assert(sub[k] == dv[q1 as int]);
                    assert(sub.subrange(0, k) =~= dv.subrange(pos as int, q1 as int));
                    assert(sub.subrange(k + 1, sub.len() as int) =~= dv.subrange(
                        q1 as int + 1,
                        q2 as int,
                    ));
                    assert(sift_toks(f, sub));
                }
                Ok((f, q2))
            },
            None => {
                proof {
                    lemma_shape_mono(l, 0, 1);
                }
                Ok((l, q1))
            },
        }
    }

    /// Parse one primary: an identifier, a literal, or a parenthesized
    /// subexpression, by the sole token's kind. A word that spells a
    /// boolean is a literal; every other word is an identifier.
    fn primary_level(ts: &Vec<Token>, pos: usize, depth: usize) -> (r: Result<
        (Sift, usize),
        ParseError,
    >)
        requires
            pos <= ts@.len(),
        ensures
            r matches Ok((f, q)) ==> pos < q <= ts@.len() && primary_end(
                ts.deep_view(),
                pos as int,
                depth as int,
            ) == Some(q as int) && shape_at(f, 0) && sift_toks(
                f,
                ts.deep_view().subrange(pos as int, q as int),
            ),
            r is Err ==> primary_end(ts.deep_view(), pos as int, depth as int) is None,
        decreases ts@.len() - pos, 1int,
    {
        let ghost dv = ts.deep_view();
        let n: usize = ts.len();
        if pos >= n {
            return Err(ParseError::UnexpectedEnd);
        }
        match &ts[pos] {
            Token::Word(w) => {
                match Nutrients::from_token(&ts[pos]) {
                    Ok(v) => {
                        proof {
                            assert(dv.subrange(pos as int, pos as int + 1) =~= seq![
                                dv[pos as int],
                            ]);
                        }
                        Ok((Sift::Literal(v), pos + 1))
                    },
                    Err(_) => {
                        proof {
                            assert(dv.subrange(pos as int, pos as int + 1) =~= seq![
                                dv[pos as int],
                            ]);
                            assert(!nutrient_tok(Nutrients::Bool(true), dv[pos as int]));
                            assert(!nutrient_tok(Nutrients::Bool(false), dv[pos as int]));
                        }
                        Ok((Sift::Ident(w.clone()), pos + 1))
                    },
                }
            },
            Token::Num(_) => {
                match Nutrients::from_token(&ts[pos]) {
                    Ok(v) => {
                        proof {
                            assert(dv.subrange(pos as int, pos as int + 1) =~= seq![
                                dv[pos as int],
                            ]);
                        }
                        Ok((Sift::Literal(v), pos + 1))
                    },
                    Err(e) => Err(e),
                }
            },
            Token::Quoted(_) => {
                match Nutrients::from_token(&ts[pos]) {
                    Ok(v) => {
                        proof {
                            assert(dv.subrange(pos as int, pos as int + 1) =~= seq![
                                dv[pos as int],
                            ]);
                        }
                        Ok((Sift::Literal(v), pos + 1))
                    },
                    Err(e) => Err(e),
                }
            },
            Token::LParen => {
                if depth == 0 {
                    return Err(ParseError::NestingTooDeep);
                }
                let (inner, q1) = match Sift::or_level(ts, pos + 1, depth - 1) {
                    Ok(p) => p,
                    Err(e) => {
                        return Err(e);
                    },
                };
                if q1 >= n {
                    return Err(ParseError::UnexpectedEnd);
                }
                match &ts[q1] {
                    Token::RParen => {
                        let f = Sift::Paren(Box::new(inner));
                        proof {
                            let sub = dv.subrange(pos as int, q1 as int + 1);
                            assert(sub[0] == dv[pos as int]);
                            assert(sub[sub.len() - 1] == dv[q1 as int]);
                            assert(sub.subrange(1, sub.len() - 1) =~= dv.subrange(
                                pos as int + 1,
                                q1 as int,
                            ));
                        }
                        Ok((f, q1 + 1))
                    },
                    _ => Err(ParseError::UnexpectedToken),
                }
            },
            _ => Err(ParseError::UnexpectedToken),
        }
    }
}

/// The projection of a retrieval: everything, or named columns in order,
/// duplicates kept.
#[derive(Debug, Clone, PartialEq, Eq)]
pub enum Twigs {
    All,
    Named(Vec<String>),
}

/// Where the projection starting at `pos` ends, or `None` where it is
/// malformed: a sole `*`, or a possibly empty comma-separated name list.
pub open spec fn twigs_end(ts: Seq<TokenV>, pos: int) -> Option<int> {
    if pos >= ts.len() {
        None
    } else if ts[pos] == TokenV::Star {
        Some(pos + 1)
    } else {
        crate::ast::dml::ident_list_end(ts, pos)
    }
}

/// The token shape of a projection: a sole `*`, or a comma-separated list
/// of bare names.
pub open spec fn twigs_toks(tw: Twigs, ts: Seq<TokenV>) -> bool {
    match tw {
        Twigs::All => ts.len() == 1 && ts[0] == TokenV::Star,
        Twigs::Named(ns) => piths_toks(ns@, ts),
    }
}

impl Twigs {
    /// Parse a projection beginning at `pos`: `*`, or a possibly empty
    /// list of names. Succeeds exactly where `twigs_end` gives an end, and
    /// consumes exactly up to it: a `*` yields `All` consuming one token,
    /// and a leading name starts a maximal name list.
    pub fn from_tokens(ts: &Vec<Token>, pos: usize) -> (r: Result<(Twigs, usize), ParseError>)
        requires
            pos <= ts@.len(),
        ensures
            r matches Ok((tw, q)) ==> pos <= q <= ts@.len() && twigs_end(
                ts.deep_view(),
                pos as int,
            ) == Some(q as int) && twigs_toks(
                tw,
                ts.deep_view().subrange(pos as int, q as int),
            ),
            r is Err ==> twigs_end(ts.deep_view(), pos as int) is None,
    {
        let ghost dv = ts.deep_view();
        let n: usize = ts.len();
        if pos >= n {
            return Err(ParseError::UnexpectedEnd);
        }
        let star = match &ts[pos] {
            Token::Star => true,
            _ => false,
        };
        if star {
            proof {
                assert(dv.subrange(pos as int, pos as int + 1) =~= seq![dv[pos as int]]);
            }
            return Ok((Twigs::All, pos + 1));
        }
        match parse_ident_list(ts, pos) {
            Ok((ns, q)) => Ok((Twigs::Named(ns), q)),
            Err(e) => Err(e),
        }
    }
}

/// A row retrieval: the table, the projection, and an optional filter.
#[derive(Debug, PartialEq, Eq)]
pub struct Sample {
    pub bud: String,
    pub piths: Twigs,
    pub gate: Option<Sift>,
}

/// Where the row retrieval starting at `pos` ends, or `None` where none
/// begins there: `SELECT`, a projection, `FROM`, a table name, and a
/// filter exactly where `WHERE` follows.
pub open spec fn sample_end(ts: Seq<TokenV>, pos: int) -> Option<int> {
    if pos < ts.len() && ts[pos] == TokenV::Word("SELECT"@) {
        match twigs_end(ts, pos + 1) {
            Some(k) => if k + 2 <= ts.len() && ts[k] == TokenV::Word("FROM"@) && (ts[k + 1]
                matches TokenV::Word(_)) {
                if k + 2 < ts.len() && ts[k + 2] == TokenV::Word("WHERE"@) {
                    match or_end(ts, k + 3, SIFT_DEPTH_LIMIT as int) {
                        Some(e) => Some(e),
                        None => None,
                    }
                } else {
                    Some(k + 2)
                }
            } else {
                None
            },
            None => None,
        }
    } else {
        None
    }
}

/// The token shape of a row retrieval:
/// `SELECT <projection> FROM <table>`, optionally followed by
/// `WHERE <filter>`.
pub open spec fn sample_toks(sp: Sample, ts: Seq<TokenV>) -> bool {
    ts.len() >= 3 && ts[0] == TokenV::Word("SELECT"@) && exists|k: int|
        1 <= k && k + 1 < ts.len() && twigs_toks(sp.piths, ts.subrange(1, k)) && ts[k]
            == TokenV::Word("FROM"@) && ts[k + 1] == TokenV::Word(sp.bud@) && (match sp.gate {
            None => ts.len() == k + 2,
            Some(f) => ts.len() > k + 3 && ts[k + 2] == TokenV::Word("WHERE"@) && sift_toks(
                f,
                ts.subrange(k + 3, ts.len() as int),
            ),
        })
}

impl Sample {
    /// Parse a row retrieval beginning at `pos`. Succeeds exactly where
    /// `sample_end` gives an end, and consumes exactly up to it — the
    /// filter included whenever `WHERE` follows the table name.
    #[verifier::rlimit(100)]
    pub fn from_tokens(ts: &Vec<Token>, pos: usize) -> (r: Result<(Sample, usize), ParseError>)
        requires
            pos <= ts@.len(),
        ensures
            r matches Ok((sp, q)) ==> pos < q <= ts@.len() && sample_end(
                ts.deep_view(),
                pos as int,
            ) == Some(q as int) && sample_toks(
                sp,
                ts.deep_view().subrange(pos as int, q as int),
            ),
            r is Err ==> sample_end(ts.deep_view(), pos as int) is None,
    {
        let ghost dv = ts.deep_view();
        let n: usize = ts.len();
        if pos >= n {
            return Err(ParseError::UnexpectedEnd);
        }
        match &ts[pos] {
            Token::Word(w) => {
                if !str_eq(w.as_str(), "SELECT") {
                    return Err(ParseError::UnexpectedToken);
                }
            },
            _ => {
                return Err(ParseError::UnexpectedToken);
            },
        }
        let (piths, qt) = match Twigs::from_tokens(ts, pos + 1) {
            Ok(p) => p,
            Err(e) => {
                return Err(e);
            },
        };
        if n - qt < 2 {
            return Err(ParseError::UnexpectedEnd);
        }
        match &ts[qt] {
            Token::Word(w) => {
                if !str_eq(w.as_str(), "FROM") {
                    return Err(ParseError::UnexpectedToken);
                }
            },
            _ => {
                return Err(ParseError::UnexpectedToken);
            },
        }
        let bud: String = match &ts[qt + 1] {
            Token::Word(w) => w.clone(),
            _ => {
                return Err(ParseError::UnexpectedToken);
            },
        };
        let ghost k = qt as int - pos;
        let q2: usize = qt + 2;
        let wants_gate = if q2 < n {
            match &ts[q2] {
                Token::Word(w) => str_eq(w.as_str(), "WHERE"),
                _ => false,
            }
        } else {
            false
        };
        if wants_gate {
            let (f, q3) = match Sift::from_tokens(ts, q2 + 1) {
                Ok(p) => p,
                Err(e) => {
                    return Err(e);
                },
            };
            let sp = Sample { bud, piths, gate: Some(f) };
            proof {
                let sub = dv.subrange(pos as int, q3 as int);
                assert(sub[0] == dv[pos as int]);
                assert(sub[k] == dv[qt as int]);
                assert(sub[k + 1] == dv[qt as int + 1]);
                assert(sub[k + 2] == dv[qt as int + 2]);
                assert(sub.subrange(1, k) =~= dv.subrange(pos as int + 1, qt as int));
                assert(sub.subrange(k + 3, sub.len() as int) =~= dv.subrange(
                    q2 as int + 1,
                    q3 as int,
                ));
                assert(sample_toks(sp, sub)) by {
                    assert(1 <= k && k + 1 < sub.len() && twigs_toks(sp.piths, sub.subrange(1, k))
                        && sub[k] == TokenV::Word("FROM"@) && sub[k + 1] == TokenV::Word(sp.bud@)
                        && sub.len() > k + 3 && sub[k + 2] == TokenV::Word("WHERE"@) && sift_toks(
                        f,
                        sub.subrange(k + 3, sub.len() as int),
                    ));
                }
            }
            Ok((sp, q3))
        } else {
            let sp = Sample { bud, piths, gate: None };
            proof {
                let sub = dv.subrange(pos as int, q2 as int);
                assert(sub[0] == dv[pos as int]);
                assert(sub[k] == dv[qt as int]);
                assert(sub[k + 1] == dv[qt as int + 1]);
                assert(sub.subrange(1, k) =~= dv.subrange(pos as int + 1, qt as int));
                assert(sample_toks(sp, sub)) by {
                    assert(1 <= k && k + 1 < sub.len() && twigs_toks(sp.piths, sub.subrange(1, k))
                        && sub[k] == TokenV::Word("FROM"@) && sub[k + 1] == TokenV::Word(sp.bud@)
                        && sub.len() == k + 2);
                }
            }
            Ok((sp, q2))
        }
    }
}

/// A data-query statement: for now, only a row retrieval.
#[derive(Debug, PartialEq, Eq)]
pub enum DQL {
    Sample(Sample),
}

/// The token shape of a data-query statement.
pub open spec fn dql_toks(d: DQL, ts: Seq<TokenV>) -> bool {
    match d {
        DQL::Sample(sp) => sample_toks(sp, ts),
    }
}

impl DQL {
    /// Parse a data-query statement beginning at `pos`. Succeeds exactly
    /// where `sample_end` gives an end, and consumes exactly up to it.
    pub fn from_tokens(ts: &Vec<Token>, pos: usize) -> (r: Result<(DQL, usize), ParseError>)
        requires
            pos <= ts@.len(),
        ensures
            r matches Ok((d, q)) ==> pos < q <= ts@.len() && sample_end(
                ts.deep_view(),
                pos as int,
            ) == Some(q as int) && dql_toks(
                d,
                ts.deep_view().subrange(pos as int, q as int),
            ),
            r is Err ==> sample_end(ts.deep_view(), pos as int) is None,
    {
        match Sample::from_tokens(ts, pos) {
            Ok((sp, q)) => Ok((DQL::Sample(sp), q)),
            Err(e) => Err(e),
        }
    }
}

} // verus!

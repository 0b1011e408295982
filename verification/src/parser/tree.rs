use vstd::prelude::*;
use crate::ast::sql::{sql_end, sql_toks, Sql};
use crate::error::ParseError;
use crate::parser::lexer::{lex, tokenize, Token, TokenV};

verus! {

/// A parsed document: the top-level statements in source order.
#[derive(Debug, PartialEq, Eq)]
pub struct Tree {
    pub sqls: Vec<Sql>,
}

/// The token shape of a whole document: the statements in order, with any
/// number of `;` tokens between, before and after them, and nothing else.
pub open spec fn doc_toks(ss: Seq<Sql>, ts: Seq<TokenV>) -> bool
    decreases ss.len(),
{
    if ss.len() == 0 {
        forall|j: int| 0 <= j < ts.len() ==> ts[j] == TokenV::Semi
    } else {
        exists|a: int, b: int|
            0 <= a < b <= ts.len() && (forall|j: int| 0 <= j < a ==> ts[j] == TokenV::Semi)
                && sql_toks(ss[0], ts.subrange(a, b)) && doc_toks(
                ss.skip(1),
                ts.subrange(b, ts.len() as int),
            )
    }
}

/// A leading `;` changes nothing about which statements a token stretch
/// holds.
proof fn lemma_doc_semi(ss: Seq<Sql>, ts: Seq<TokenV>)
    requires
        ts.len() > 0,
        ts[0] == TokenV::Semi,
        doc_toks(ss, ts.subrange(1, ts.len() as int)),
    ensures
        doc_toks(ss, ts),
{
    let tl = ts.subrange(1, ts.len() as int);
    if ss.len() == 0 {
        assert forall|j: int| 0 <= j < ts.len() implies ts[j] == TokenV::Semi by {
            if j > 0 {
                assert(ts[j] == tl[j - 1]);
            }
        }
    } else {
        let (a, b) = choose|a: int, b: int|
            0 <= a < b <= tl.len() && (forall|j: int| 0 <= j < a ==> tl[j] == TokenV::Semi)
                && sql_toks(ss[0], tl.subrange(a, b)) && doc_toks(
                ss.skip(1),
                tl.subrange(b, tl.len() as int),
            );
        assert(ts.subrange(a + 1, b + 1) =~= tl.subrange(a, b));
        assert(ts.subrange(b + 1, ts.len() as int) =~= tl.subrange(b, tl.len() as int));
        assert forall|j: int| 0 <= j < a + 1 implies ts[j] == TokenV::Semi by {
            if j > 0 {
                assert(ts[j] == tl[j - 1]);
            }
        }
        assert(0 <= a + 1 < b + 1 <= ts.len() && (forall|j: int|
            0 <= j < a + 1 ==> ts[j] == TokenV::Semi) && sql_toks(ss[0], ts.subrange(a + 1, b + 1))
            && doc_toks(ss.skip(1), ts.subrange(b + 1, ts.len() as int)));
    }
}

/// A statement at the front, then a document, is a document.
proof fn lemma_doc_stmt(s0: Sql, rest: Seq<Sql>, ts: Seq<TokenV>, b: int)
    requires
        0 < b <= ts.len(),
        sql_toks(s0, ts.subrange(0, b)),
        doc_toks(rest, ts.subrange(b, ts.len() as int)),
    ensures
        doc_toks(seq![s0] + rest, ts),
{
    let ss = seq![s0] + rest;
    assert(ss[0] == s0);
    assert(ss.skip(1) =~= rest);
    assert(0 <= 0 < b <= ts.len() && (forall|j: int| 0 <= j < 0 ==> ts[j] == TokenV::Semi)
        && sql_toks(ss[0], ts.subrange(0, b)) && doc_toks(
        ss.skip(1),
        ts.subrange(b, ts.len() as int),
    ));
}

/// Whether the tokens from `pos` on form a whole document: any number of
/// `;` tokens and well-formed statements, each ending where `sql_end`
/// says, up to the end of the tokens.
pub open spec fn doc_ok(ts: Seq<TokenV>, pos: int) -> bool
    decreases ts.len() - pos
    when 0 <= pos <= ts.len()
{
    if pos >= ts.len() {
        true
    } else if ts[pos] == TokenV::Semi {
        doc_ok(ts, pos + 1)
    } else {
        match sql_end(ts, pos) {
            Some(q) => if pos < q && q <= ts.len() {
                doc_ok(ts, q)
            } else {
                false
            },
            None => false,
        }
    }
}

impl Tree {
    /// Parse a whole document. The text is tokenized, then every top-level
    /// statement is classified and collected in source order; `;` tokens
    /// between statements are skipped. Anything else at the top level
    /// fails the parse: nothing is skipped silently, and no partial
    /// document is returned.
    #[verifier::rlimit(100)]
    pub fn parse(input: String) -> (r: Result<Tree, ParseError>)
        ensures
            r matches Ok(t) ==> (lex(input@, 0) matches Some(tsv) && doc_ok(tsv, 0) && doc_toks(
                t.sqls@,
                tsv,
            )),
            r is Err ==> lex(input@, 0) is None || (lex(input@, 0) matches Some(tsv) && !doc_ok(
                tsv,
                0,
            )),
    {
        let toks = match tokenize(input.as_str()) {
            Ok(t) => t,
            Err(e) => {
                return Err(e);
            },
        };
        let ghost dv = toks.deep_view();
        let n: usize = toks.len();
        let mut sqls: Vec<Sql> = Vec::new();
        let mut pos: usize = 0;
        proof {
            assert(sqls@ =~= Seq::<Sql>::empty());
            assert forall|rest: Seq<Sql>|
                doc_toks(rest, dv.subrange(0, n as int)) implies doc_toks(sqls@ + rest, dv) by {
                assert(sqls@ + rest =~= rest);
                assert(dv.subrange(0, n as int) =~= dv);
            }
        }
        while pos < n
            invariant
                n == toks@.len(),
                dv == toks.deep_view(),
                lex(input@, 0) == Some(dv),
                pos <= n,
                doc_ok(dv, 0) == doc_ok(dv, pos as int),
                forall|rest: Seq<Sql>|
                    doc_toks(rest, dv.subrange(pos as int, n as int)) ==> doc_toks(
                        sqls@ + rest,
                        dv,
                    ),
            decreases n - pos,
        {
            let ghost old_sqls = sqls@;
            let ghost p = pos as int;
            let semi = match &toks[pos] {
                Token::Semi => true,
                _ => false,
            };
            if semi {
                proof {
                    assert forall|rest: Seq<Sql>|
                        doc_toks(rest, dv.subrange(p + 1, n as int)) implies doc_toks(
                        old_sqls + rest,
                        dv,
                    ) by {
                        let tsub = dv.subrange(p, n as int);
                        assert(tsub.subrange(1, tsub.len() as int) =~= dv.subrange(
                            p + 1,
                            n as int,
                        ));
                        assert(tsub[0] == dv[p]);
                        lemma_doc_semi(rest, tsub);
                    }
                }
                pos = pos + 1;
            } else {
                let (s, q) = match Sql::from_tokens(&toks, pos) {
                    Ok(x) => x,
                    Err(e) => {
                        proof {
                            assert(dv[p] != TokenV::Semi);
                            assert(!doc_ok(dv, p));
                        }
                        return Err(e);
                    },
                };
                sqls.push(s);
                proof {
                    assert(sqls@ =~= old_sqls.push(s));
                    assert forall|rest: Seq<Sql>|
                        doc_toks(rest, dv.subrange(q as int, n as int)) implies doc_toks(
                        sqls@ + rest,
                        dv,
                    ) by {
                        let tsub = dv.subrange(p, n as int);
                        assert(tsub.subrange(0, q - p) =~= dv.subrange(p, q as int));
                        assert(tsub.subrange(q - p, tsub.len() as int) =~= dv.subrange(
                            q as int,
                            n as int,
                        ));
                        lemma_doc_stmt(s, rest, tsub, q - p);
                        assert(doc_toks(seq![s] + rest, tsub));
                        assert(old_sqls + (seq![s] + rest) =~= sqls@ + rest);
                        assert(doc_toks(old_sqls + (seq![s] + rest), dv));
                    }
                }
                pos = q;
            }
        }
        proof {
            assert(dv.subrange(n as int, n as int) =~= Seq::<TokenV>::empty());
            assert(doc_toks(Seq::<Sql>::empty(), dv.subrange(pos as int, n as int)));
            assert(sqls@ + Seq::<Sql>::empty() =~= sqls@);
            assert(doc_toks(sqls@, dv));
        }
        Ok(Tree { sqls })
    }
}

} // verus!

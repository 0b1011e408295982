use vstd::prelude::*;
use crate::ast::comment::Comment;
use crate::ast::ddl::{ddl_toks, seed_end, DDL};
use crate::ast::dml::{dml_toks, sow_end, DML};
use crate::ast::dql::{dql_toks, sample_end, DQL};
use crate::error::ParseError;
use crate::parser::lexer::{Token, TokenV};
use crate::text::str_eq;

verus! {

/// One top-level statement: a table definition, a row insertion, a row
/// retrieval, or a comment.
#[derive(Debug, PartialEq, Eq)]
pub enum Sql {
    DDL(DDL),
    DML(DML),
    DQL(DQL),
    Comment(Comment),
}

/// The token shape of one top-level statement. A comment is a single
/// comment token whose body the statement carries verbatim.
pub open spec fn sql_toks(s: Sql, ts: Seq<TokenV>) -> bool {
    match s {
        Sql::DDL(d) => ddl_toks(d, ts),
        Sql::DML(d) => dml_toks(d, ts),
        Sql::DQL(d) => dql_toks(d, ts),
        Sql::Comment(Comment::Line(x)) => ts.len() == 1 && ts[0] == TokenV::LineNote(x@),
        Sql::Comment(Comment::Block(x)) => ts.len() == 1 && ts[0] == TokenV::BlockNote(x@),
    }
}

/// Where the statement starting at `pos` ends, or `None` where none
/// begins there: `CREATE` opens a table definition, `INSERT` a row
/// insertion, `SELECT` a row retrieval, and a comment token stands alone;
/// every other token opens nothing.
pub open spec fn sql_end(ts: Seq<TokenV>, pos: int) -> Option<int> {
    if pos >= ts.len() {
        None
    } else {
        match ts[pos] {
            TokenV::Word(w) => if w == "CREATE"@ {
                seed_end(ts, pos)
            } else if w == "INSERT"@ {
                sow_end(ts, pos)
            } else if w == "SELECT"@ {
                sample_end(ts, pos)
            } else {
                None
            },
            TokenV::LineNote(_) => Some(pos + 1),
            TokenV::BlockNote(_) => Some(pos + 1),
            _ => None,
        }
    }
}

impl Sql {
    /// Classify and parse one statement beginning at `pos`, by its first
    /// token: `CREATE` opens a table definition, `INSERT` a row insertion,
    /// `SELECT` a row retrieval, and a comment token stands alone. Every
    /// other token fails the parse; nothing is skipped silently. Succeeds
    /// exactly where `sql_end` gives an end, and consumes exactly up to
    /// it.
    pub fn from_tokens(ts: &Vec<Token>, pos: usize) -> (r: Result<(Sql, usize), ParseError>)
        requires
            pos <= ts@.len(),
        ensures
            r matches Ok((s, q)) ==> pos < q <= ts@.len() && sql_end(
                ts.deep_view(),
                pos as int,
            ) == Some(q as int) && sql_toks(
                s,
                ts.deep_view().subrange(pos as int, q as int),
            ),
            r is Err ==> sql_end(ts.deep_view(), pos as int) is None,
    {
        let ghost dv = ts.deep_view();
        let n: usize = ts.len();
        if pos >= n {
            return Err(ParseError::UnexpectedEnd);
        }
        match &ts[pos] {
            Token::Word(w) => {
                if str_eq(w.as_str(), "CREATE") {
                    match DDL::from_tokens(ts, pos) {
                        Ok((d, q)) => Ok((Sql::DDL(d), q)),
                        Err(e) => Err(e),
                    }
                } else if str_eq(w.as_str(), "INSERT") {
                    match DML::from_tokens(ts, pos) {
                        Ok((d, q)) => Ok((Sql::DML(d), q)),
                        Err(e) => Err(e),
                    }
                } else if str_eq(w.as_str(), "SELECT") {
                    match DQL::from_tokens(ts, pos) {
                        Ok((d, q)) => Ok((Sql::DQL(d), q)),
                        Err(e) => Err(e),
                    }
                } else {
                    Err(ParseError::UnexpectedToken)
                }
            },
            Token::LineNote(x) => {
                proof {
                    assert(dv.subrange(pos as int, pos as int + 1) =~= seq![dv[pos as int]]);
                }
                Ok((Sql::Comment(Comment::Line(x.clone())), pos + 1))
            },
            Token::BlockNote(x) => {
                proof {
                    assert(dv.subrange(pos as int, pos as int + 1) =~= seq![dv[pos as int]]);
                }
                Ok((Sql::Comment(Comment::Block(x.clone())), pos + 1))
            },
            _ => Err(ParseError::UnexpectedToken),
        }
    }
}

} // verus!

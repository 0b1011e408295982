use vstd::prelude::*;
use vstd::string::StrSliceExecFns;
use crate::error::ParseError;
use crate::parser::lexer::{lex, Token, TokenV};
use crate::parser::lexer::tokenize;
use crate::text::str_eq;

verus! {

/// A column constraint.
#[derive(Debug, Clone, Copy, PartialEq, Eq, Structural)]
pub enum Anchor {
    /// `NOT NULL`
    Essence,
    /// `PRIMARY KEY`
    Nucleus,
    /// `UNIQUE`
    Axis,
}

/// The constraint denoted by a keyword, if any. The match is exact and
/// case-sensitive: `NOT NULL`, `PRIMARY KEY` (one space each) or `UNIQUE`;
/// every other text denotes none.
pub open spec fn anchor_of(s: Seq<char>) -> Option<Anchor> {
    if s == "NOT NULL"@ {
        Some(Anchor::Essence)
    } else if s == "PRIMARY KEY"@ {
        Some(Anchor::Nucleus)
    } else if s == "UNIQUE"@ {
        Some(Anchor::Axis)
    } else {
        None
    }
}

impl Anchor {
    /// The constraint denoted by `input`, which must be one of the three
    /// keywords.
    pub fn from_input(input: String) -> (r: Self)
        requires
            anchor_of(input@) is Some,
        ensures
            Some(r) == anchor_of(input@),
    {
        Self::try_from_input(input.as_str()).unwrap()
    }

    /// The constraint denoted by `input`, or `None` exactly when `input` is
    /// none of the three keywords.
    pub fn try_from_input(input: &str) -> (r: Option<Self>)
        ensures
            r == anchor_of(input@),
    {
        if str_eq(input, "NOT NULL") {
            Some(Anchor::Essence)
        } else if str_eq(input, "PRIMARY KEY") {
            Some(Anchor::Nucleus)
        } else if str_eq(input, "UNIQUE") {
            Some(Anchor::Axis)
        } else {
            None
        }
    }
}

/// A column's scalar type.
#[derive(Debug, Clone, Copy, PartialEq, Eq, Structural)]
pub enum Fauna {
    Int,
    Text,
    Bool,
}

/// The scalar type denoted by a keyword, if any. The match is exact and
/// case-sensitive: `INT`, `TEXT` or `BOOLEAN`; every other text denotes
/// none.
pub open spec fn fauna_of(s: Seq<char>) -> Option<Fauna> {
    if s == "INT"@ {
        Some(Fauna::Int)
    } else if s == "TEXT"@ {
        Some(Fauna::Text)
    } else if s == "BOOLEAN"@ {
        Some(Fauna::Bool)
    } else {
        None
    }
}

/// The keyword that names a scalar type.
pub open spec fn fauna_word(f: Fauna) -> Seq<char> {
    match f {
        Fauna::Int => "INT"@,
        Fauna::Text => "TEXT"@,
        Fauna::Bool => "BOOLEAN"@,
    }
}

impl Fauna {
    /// The scalar type denoted by `input`, which must be one of the three
    /// keywords.
    pub fn from_input(input: String) -> (r: Self)
        requires
            fauna_of(input@) is Some,
        ensures
            Some(r) == fauna_of(input@),
    {
        Self::try_from_input(input.as_str()).unwrap()
    }

    /// The scalar type denoted by `input`, or `None` exactly when `input`
    /// is none of the three keywords.
    pub fn try_from_input(input: &str) -> (r: Option<Self>)
        ensures
            r == fauna_of(input@),
    {
        if str_eq(input, "INT") {
            Some(Fauna::Int)
        } else if str_eq(input, "TEXT") {
            Some(Fauna::Text)
        } else if str_eq(input, "BOOLEAN") {
            Some(Fauna::Bool)
        } else {
            None
        }
    }
}

/// A keyword names exactly the type it denotes.
pub proof fn lemma_fauna_word_of(f: Fauna, s: Seq<char>)
    requires
        fauna_of(s) == Some(f),
    ensures
        fauna_word(f) == s,
{
}

/// The three type keywords are distinct and map back to their types:
/// reading the keyword of any type gives that type and no other.
pub proof fn lemma_fauna_round_trip(f: Fauna)
    ensures
        fauna_of(fauna_word(f)) == Some(f),
{
    reveal_strlit("INT");
    reveal_strlit("TEXT");
    reveal_strlit("BOOLEAN");
    assert("INT"@.len() == 3);
    assert("TEXT"@.len() == 4);
    assert("BOOLEAN"@.len() == 7);
    match f {
        Fauna::Int => {
            assert(fauna_of("INT"@) == Some(Fauna::Int));
        },
        Fauna::Text => {
            assert(fauna_of("TEXT"@) == Some(Fauna::Text));
        },
        Fauna::Bool => {
            assert(fauna_of("BOOLEAN"@) == Some(Fauna::Bool));
        },
    }
}

/// A column definition: a name, a scalar type, and its constraints in
/// declaration order. Duplicates are kept, nothing is reordered.
#[derive(Debug, Clone, PartialEq, Eq)]
pub struct Stem {
    pub vein: String,
    pub fauna: Fauna,
    pub anchors: Vec<Anchor>,
}

/// The token shape of a run of constraint keywords, in order: `NOT NULL`
/// and `PRIMARY KEY` take two words each, `UNIQUE` one.
pub open spec fn anchors_toks(ans: Seq<Anchor>, ts: Seq<TokenV>) -> bool
    decreases ans.len(),
{
    if ans.len() == 0 {
        ts.len() == 0
    } else {
        match ans.last() {
            Anchor::Essence => ts.len() >= 2 && ts[ts.len() - 2] == TokenV::Word("NOT"@)
                && ts[ts.len() - 1] == TokenV::Word("NULL"@) && anchors_toks(
                ans.drop_last(),
                ts.subrange(0, ts.len() - 2),
            ),
            Anchor::Nucleus => ts.len() >= 2 && ts[ts.len() - 2] == TokenV::Word("PRIMARY"@)
                && ts[ts.len() - 1] == TokenV::Word("KEY"@) && anchors_toks(
                ans.drop_last(),
                ts.subrange(0, ts.len() - 2),
            ),
            Anchor::Axis => ts.len() >= 1 && ts[ts.len() - 1] == TokenV::Word("UNIQUE"@)
                && anchors_toks(ans.drop_last(), ts.subrange(0, ts.len() - 1)),
        }
    }
}

/// Where the run of constraint keywords starting at `p` ends, or `None`
/// where a word stands there that starts no constraint (`NOT` without
/// `NULL`, `PRIMARY` without `KEY`, or an unknown keyword). The run ends
/// at the first token that is no word.
pub open spec fn anchors_end(ts: Seq<TokenV>, p: int) -> Option<int>
    decreases ts.len() - p
    when 0 <= p <= ts.len()
{
    if p >= ts.len() {
        Some(p)
    } else {
        match ts[p] {
            TokenV::Word(w) => if w == "NOT"@ {
                if p + 1 < ts.len() && ts[p + 1] == TokenV::Word("NULL"@) {
                    anchors_end(ts, p + 2)
                } else {
                    None
                }
            } else if w == "PRIMARY"@ {
                if p + 1 < ts.len() && ts[p + 1] == TokenV::Word("KEY"@) {
                    anchors_end(ts, p + 2)
                } else {
                    None
                }
            } else if w == "UNIQUE"@ {
                anchors_end(ts, p + 1)
            } else {
                None
            },
            _ => Some(p),
        }
    }
}

/// A run of constraint keywords spells exactly one constraint list: two
/// lists that stand for the same tokens are the same list. In particular a
/// column declared `PRIMARY KEY` alone carries exactly `[Nucleus]`, and a
/// column with no trailing keywords carries exactly `[]`.
pub proof fn lemma_anchors_deterministic(a1: Seq<Anchor>, a2: Seq<Anchor>, ts: Seq<TokenV>)
    requires
        anchors_toks(a1, ts),
        anchors_toks(a2, ts),
    ensures
        a1 == a2,
    decreases a1.len(),
{
    reveal_strlit("NULL");
    reveal_strlit("KEY");
    reveal_strlit("UNIQUE");
    if a1.len() == 0 {
        assert(ts.len() == 0);
        assert(a2.len() == 0);
        assert(a1 =~= a2);
    } else {
        assert(ts.len() >= 1);
        assert(a2.len() > 0);
        assert("NULL"@.len() == 4);
        assert("KEY"@.len() == 3);
        assert("UNIQUE"@.len() == 6);
        match (a1.last(), a2.last()) {
            (Anchor::Essence, Anchor::Essence) => {
                lemma_anchors_deterministic(
                    a1.drop_last(),
                    a2.drop_last(),
                    ts.subrange(0, ts.len() - 2),
                );
                assert(a1.len() == a2.len());
                assert forall|i: int| 0 <= i < a1.len() implies a1[i] == a2[i] by {
                    if i < a1.len() - 1 {
                        assert(a1[i] == a1.drop_last()[i]);
                        assert(a2[i] == a2.drop_last()[i]);
                    }
                }
                assert(a1 =~= a2);
            },
            (Anchor::Nucleus, Anchor::Nucleus) => {
                lemma_anchors_deterministic(
                    a1.drop_last(),
                    a2.drop_last(),
                    ts.subrange(0, ts.len() - 2),
                );
                assert(a1.len() == a2.len());
                assert forall|i: int| 0 <= i < a1.len() implies a1[i] == a2[i] by {
                    if i < a1.len() - 1 {
                        assert(a1[i] == a1.drop_last()[i]);
                        assert(a2[i] == a2.drop_last()[i]);
                    }
                }
                assert(a1 =~= a2);
            },
            (Anchor::Axis, Anchor::Axis) => {
                lemma_anchors_deterministic(
                    a1.drop_last(),
                    a2.drop_last(),
                    ts.subrange(0, ts.len() - 1),
                );
                assert(a1.len() == a2.len());
                assert forall|i: int| 0 <= i < a1.len() implies a1[i] == a2[i] by {
                    if i < a1.len() - 1 {
                        assert(a1[i] == a1.drop_last()[i]);
                        assert(a2[i] == a2.drop_last()[i]);
                    }
                }
                assert(a1 =~= a2);
            },
            (Anchor::Essence, Anchor::Nucleus) => {
                assert(ts[ts.len() - 1] == TokenV::Word("NULL"@));
                assert(ts[ts.len() - 1] == TokenV::Word("KEY"@));
                assert(false);
            },
            (Anchor::Nucleus, Anchor::Essence) => {
                assert(ts[ts.len() - 1] == TokenV::Word("KEY"@));
                assert(ts[ts.len() - 1] == TokenV::Word("NULL"@));
                assert(false);
            },
            (Anchor::Essence, Anchor::Axis) => {
                assert(ts[ts.len() - 1] == TokenV::Word("NULL"@));
                assert(ts[ts.len() - 1] == TokenV::Word("UNIQUE"@));
                assert(false);
            },
            (Anchor::Axis, Anchor::Essence) => {
                assert(ts[ts.len() - 1] == TokenV::Word("UNIQUE"@));
                assert(ts[ts.len() - 1] == TokenV::Word("NULL"@));
                assert(false);
            },
            (Anchor::Nucleus, Anchor::Axis) => {
                assert(ts[ts.len() - 1] == TokenV::Word("KEY"@));
                assert(ts[ts.len() - 1] == TokenV::Word("UNIQUE"@));
                assert(false);
            },
            (Anchor::Axis, Anchor::Nucleus) => {
                assert(ts[ts.len() - 1] == TokenV::Word("UNIQUE"@));
                assert(ts[ts.len() - 1] == TokenV::Word("KEY"@));
                assert(false);
            },
        }
    }
}

/// Every token of a constraint run is a bare word.
pub proof fn lemma_anchors_all_words(ans: Seq<Anchor>, ts: Seq<TokenV>)
    requires
        anchors_toks(ans, ts),
    ensures
        forall|j: int| 0 <= j < ts.len() ==> (#[trigger] ts[j]) matches TokenV::Word(_),
    decreases ans.len(),
{
    if ans.len() > 0 {
        match ans.last() {
            Anchor::Essence => {
                lemma_anchors_all_words(ans.drop_last(), ts.subrange(0, ts.len() - 2));
                assert forall|j: int| 0 <= j < ts.len() implies (#[trigger] ts[j]) matches TokenV::Word(_) by {
                    if j < ts.len() - 2 {
                        assert(ts[j] == ts.subrange(0, ts.len() - 2)[j]);
                    }
                }
            },
            Anchor::Nucleus => {
                lemma_anchors_all_words(ans.drop_last(), ts.subrange(0, ts.len() - 2));
                assert forall|j: int| 0 <= j < ts.len() implies (#[trigger] ts[j]) matches TokenV::Word(_) by {
                    if j < ts.len() - 2 {
                        assert(ts[j] == ts.subrange(0, ts.len() - 2)[j]);
                    }
                }
            },
            Anchor::Axis => {
                lemma_anchors_all_words(ans.drop_last(), ts.subrange(0, ts.len() - 1));
                assert forall|j: int| 0 <= j < ts.len() implies (#[trigger] ts[j]) matches TokenV::Word(_) by {
                    if j < ts.len() - 1 {
                        assert(ts[j] == ts.subrange(0, ts.len() - 1)[j]);
                    }
                }
            },
        }
    }
}

/// Where the column definition starting at `pos` ends, or `None` where
/// none begins there: a name word, a known type keyword, then the full
/// constraint run.
pub open spec fn stem_end(ts: Seq<TokenV>, pos: int) -> Option<int> {
    if pos + 2 <= ts.len() && (ts[pos] matches TokenV::Word(_)) && (match ts[pos + 1] {
        TokenV::Word(w) => fauna_of(w) is Some,
        _ => false,
    }) {
        anchors_end(ts, pos + 2)
    } else {
        None
    }
}

/// The token shape of a column definition: its name, its type keyword,
/// then its constraint keywords.
pub open spec fn stem_toks(st: Stem, ts: Seq<TokenV>) -> bool {
    ts.len() >= 2 && ts[0] == TokenV::Word(st.vein@) && ts[1] == TokenV::Word(
        fauna_word(st.fauna),
    ) && anchors_toks(st.anchors@, ts.subrange(2, ts.len() as int))
}

impl Stem {
    /// Parse one column definition beginning at `pos`: strictly a name,
    /// then a type keyword, then zero or more constraint keywords. A word
    /// that starts no known constraint fails the parse; the column ends at
    /// the first token that is no word. Succeeds exactly where `stem_end`
    /// gives an end, and consumes exactly up to it — the whole constraint
    /// run included.
    pub fn from_tokens(ts: &Vec<Token>, pos: usize) -> (r: Result<(Stem, usize), ParseError>)
        requires
            pos <= ts@.len(),
        ensures
            r matches Ok((st, q)) ==> pos < q <= ts@.len() && stem_end(
                ts.deep_view(),
                pos as int,
            ) == Some(q as int) && stem_toks(
                st,
                ts.deep_view().subrange(pos as int, q as int),
            ),
            r is Err ==> stem_end(ts.deep_view(), pos as int) is None,
    {
        let ghost dv = ts.deep_view();
        let n: usize = ts.len();
        if n - pos < 2 {
            return Err(ParseError::UnexpectedEnd);
        }
        let vein: String = match &ts[pos] {
            Token::Word(w) => w.clone(),
            _ => {
                return Err(ParseError::UnexpectedToken);
            },
        };
        let fauna: Fauna = match &ts[pos + 1] {
            Token::Word(w) => {
                match Fauna::try_from_input(w.as_str()) {
                    Some(f) => f,
                    None => {
                        return Err(ParseError::UnknownType);
                    },
                }
            },
            _ => {
                return Err(ParseError::UnknownType);
            },
        };
        let mut anchors: Vec<Anchor> = Vec::new();
        let mut q: usize = pos + 2;
        proof {
            assert(dv.subrange(pos as int + 2, q as int) =~= Seq::<TokenV>::empty());
        }
        loop
            invariant
                n == ts@.len(),
                dv == ts.deep_view(),
                pos + 2 <= q <= n,
                anchors_end(dv, pos as int + 2) == anchors_end(dv, q as int),
                anchors_toks(anchors@, dv.subrange(pos as int + 2, q as int)),
            ensures
                q >= n || !(dv[q as int] matches TokenV::Word(_)),
            decreases n - q,
        {
            if q >= n {
                break;
            }
            let ghost old_anchors = anchors@;
            match &ts[q] {
                Token::Word(w) => {
                    if str_eq(w.as_str(), "NOT") {
                        if n - q < 2 {
                            return Err(ParseError::UnknownConstraint);
                        }
                        match &ts[q + 1] {
                            Token::Word(w2) => {
                                if !str_eq(w2.as_str(), "NULL") {
                                    return Err(ParseError::UnknownConstraint);
                                }
                            },
                            _ => {
                                return Err(ParseError::UnknownConstraint);
                            },
                        }
                        anchors.push(Anchor::Essence);
                        proof {
                            let sub = dv.subrange(pos as int + 2, q as int + 2);
                            assert(sub.subrange(0, sub.len() - 2) =~= dv.subrange(
                                pos as int + 2,
                                q as int,
                            ));
                            assert(anchors@.drop_last() =~= old_anchors);
                            assert(sub[sub.len() - 2] == dv[q as int]);
                            assert(sub[sub.len() - 1] == dv[q as int + 1]);
                        }
                        q = q + 2;
                    } else if str_eq(w.as_str(), "PRIMARY") {
                        if n - q < 2 {
                            return Err(ParseError::UnknownConstraint);
                        }
                        match &ts[q + 1] {
                            Token::Word(w2) => {
                                if !str_eq(w2.as_str(), "KEY") {
                                    return Err(ParseError::UnknownConstraint);
                                }
                            },
                            _ => {
                                return Err(ParseError::UnknownConstraint);
                            },
                        }
                        anchors.push(Anchor::Nucleus);
                        proof {
                            let sub = dv.subrange(pos as int + 2, q as int + 2);
                            assert(sub.subrange(0, sub.len() - 2) =~= dv.subrange(
                                pos as int + 2,
                                q as int,
                            ));
                            assert(anchors@.drop_last() =~= old_anchors);
                            assert(sub[sub.len() - 2] == dv[q as int]);
                            assert(sub[sub.len() - 1] == dv[q as int + 1]);
                        }
                        q = q + 2;
                    } else if str_eq(w.as_str(), "UNIQUE") {
                        anchors.push(Anchor::Axis);
                        proof {
                            let sub = dv.subrange(pos as int + 2, q as int + 1);
                            assert(sub.subrange(0, sub.len() - 1) =~= dv.subrange(
                                pos as int + 2,
                                q as int,
                            ));
                            assert(anchors@.drop_last() =~= old_anchors);
                            assert(sub[sub.len() - 1] == dv[q as int]);
                        }
                        q = q + 1;
                    } else {
                        return Err(ParseError::UnknownConstraint);
                    }
                },
                _ => {
                    break;
                },
            }
        }
        let st = Stem { vein, fauna, anchors };
        proof {
            let sub = dv.subrange(pos as int, q as int);
            assert(sub[0] == dv[pos as int]);
            assert(sub[1] == dv[pos as int + 1]);
            assert(sub.subrange(2, sub.len() as int) =~= dv.subrange(pos as int + 2, q as int));
        }
        Ok((st, q))
    }
}

/// Two column definitions are the same up to heap identity of their
/// strings: same name characters, same type, same constraints.
pub open spec fn stem_eq(a: Stem, b: Stem) -> bool {
    a.vein@ == b.vein@ && a.fauna == b.fauna && a.anchors@ == b.anchors@
}

/// Distinct types have distinct keywords.
pub proof fn lemma_fauna_word_injective(f1: Fauna, f2: Fauna)
    requires
        fauna_word(f1) == fauna_word(f2),
    ensures
        f1 == f2,
{
    reveal_strlit("INT");
    reveal_strlit("TEXT");
    reveal_strlit("BOOLEAN");
    assert("INT"@.len() == 3);
    assert("TEXT"@.len() == 4);
    assert("BOOLEAN"@.len() == 7);
}

/// Every token of a column definition is a bare word.
pub proof fn lemma_stem_all_words(st: Stem, ts: Seq<TokenV>)
    requires
        stem_toks(st, ts),
    ensures
        forall|j: int| 0 <= j < ts.len() ==> (#[trigger] ts[j]) matches TokenV::Word(_),
{
    lemma_anchors_all_words(st.anchors@, ts.subrange(2, ts.len() as int));
    assert forall|j: int| 0 <= j < ts.len() implies (#[trigger] ts[j]) matches TokenV::Word(_) by {
        if j >= 2 {
            assert(ts[j] == ts.subrange(2, ts.len() as int)[j - 2]);
        }
    }
}

/// A token stretch spells exactly one column definition: its name, its
/// type and its constraint list are all pinned by the tokens.
pub proof fn lemma_stem_deterministic(s1: Stem, s2: Stem, ts: Seq<TokenV>)
    requires
        stem_toks(s1, ts),
        stem_toks(s2, ts),
    ensures
        stem_eq(s1, s2),
{
    lemma_fauna_word_injective(s1.fauna, s2.fauna);
    lemma_anchors_deterministic(s1.anchors@, s2.anchors@, ts.subrange(2, ts.len() as int));
}

/// The token shape of comma-separated column definitions.
pub open spec fn stems_toks(sts: Seq<Stem>, ts: Seq<TokenV>) -> bool
    decreases sts.len(),
{
    if sts.len() == 0 {
        ts.len() == 0
    } else if sts.len() == 1 {
        stem_toks(sts[0], ts)
    } else {
        exists|k: int|
            0 <= k < ts.len() && ts[k] == TokenV::Comma && stems_toks(
                sts.drop_last(),
                ts.subrange(0, k),
            ) && stem_toks(sts.last(), ts.subrange(k + 1, ts.len() as int))
    }
}

/// Where the comma-separated column list that ends a table definition
/// continues after a parsed column at `p`: a closing parenthesis ends it,
/// a comma must open another column, and anything else is malformed.
pub open spec fn stems_tail(ts: Seq<TokenV>, p: int) -> Option<int>
    decreases ts.len() - p
    when 0 <= p <= ts.len()
{
    if p >= ts.len() {
        None
    } else if ts[p] == TokenV::RParen {
        Some(p + 1)
    } else if ts[p] == TokenV::Comma {
        match stem_end(ts, p + 1) {
            Some(e) => if p < e && e <= ts.len() {
                stems_tail(ts, e)
            } else {
                None
            },
            None => None,
        }
    } else {
        None
    }
}

/// Where the table definition starting at `pos` ends, or `None` where
/// none begins there: `CREATE TABLE <name> (`, then either an immediate
/// `)` or comma-separated columns up to the closing `)`.
pub open spec fn seed_end(ts: Seq<TokenV>, pos: int) -> Option<int> {
    if pos + 5 <= ts.len() && ts[pos] == TokenV::Word("CREATE"@) && ts[pos + 1] == TokenV::Word(
        "TABLE"@,
    ) && (ts[pos + 2] matches TokenV::Word(_)) && ts[pos + 3] == TokenV::LParen {
        if ts[pos + 4] == TokenV::RParen {
            Some(pos + 5)
        } else {
            match stem_end(ts, pos + 4) {
                Some(e) => if pos + 4 < e && e <= ts.len() {
                    stems_tail(ts, e)
                } else {
                    None
                },
                None => None,
            }
        }
    } else {
        None
    }
}

/// A token stretch spells exactly one column list: two lists that stand
/// for the same tokens have the same length and the same columns, in the
/// same declaration order. So a table definition written with N columns
/// has exactly those N columns, in order.
pub proof fn lemma_stems_deterministic(s1: Seq<Stem>, s2: Seq<Stem>, ts: Seq<TokenV>)
    requires
        stems_toks(s1, ts),
        stems_toks(s2, ts),
    ensures
        s1.len() == s2.len(),
        forall|i: int| 0 <= i < s1.len() ==> stem_eq(s1[i], s2[i]),
    decreases s1.len() + s2.len(),
{
    if s1.len() == 0 || s2.len() == 0 {
        if s1.len() == 0 && s2.len() >= 2 {
            assert(ts.len() == 0);
            assert(false);
        }
        if s2.len() == 0 && s1.len() >= 2 {
            assert(ts.len() == 0);
            assert(false);
        }
    } else if s1.len() == 1 && s2.len() == 1 {
        lemma_stem_deterministic(s1[0], s2[0], ts);
    } else if s1.len() == 1 && s2.len() >= 2 {
        let k2 = choose|k2: int|
            0 <= k2 < ts.len() && ts[k2] == TokenV::Comma && stems_toks(
                s2.drop_last(),
                ts.subrange(0, k2),
            ) && stem_toks(s2.last(), ts.subrange(k2 + 1, ts.len() as int));
        lemma_stem_all_words(s1[0], ts);
        assert(ts[k2] matches TokenV::Word(_));
        assert(false);
    } else if s2.len() == 1 && s1.len() >= 2 {
        let k1 = choose|k1: int|
            0 <= k1 < ts.len() && ts[k1] == TokenV::Comma && stems_toks(
                s1.drop_last(),
                ts.subrange(0, k1),
            ) && stem_toks(s1.last(), ts.subrange(k1 + 1, ts.len() as int));
        lemma_stem_all_words(s2[0], ts);
        assert(ts[k1] matches TokenV::Word(_));
        assert(false);
    } else {
        let k1 = choose|k1: int|
            0 <= k1 < ts.len() && ts[k1] == TokenV::Comma && stems_toks(
                s1.drop_last(),
                ts.subrange(0, k1),
            ) && stem_toks(s1.last(), ts.subrange(k1 + 1, ts.len() as int));
        let k2 = choose|k2: int|
            0 <= k2 < ts.len() && ts[k2] == TokenV::Comma && stems_toks(
                s2.drop_last(),
                ts.subrange(0, k2),
            ) && stem_toks(s2.last(), ts.subrange(k2 + 1, ts.len() as int));
        if k1 < k2 {
            lemma_stem_all_words(s1.last(), ts.subrange(k1 + 1, ts.len() as int));
            assert(ts.subrange(k1 + 1, ts.len() as int)[k2 - (k1 + 1)] == ts[k2]);
            assert(false);
        }
        if k2 < k1 {
            lemma_stem_all_words(s2.last(), ts.subrange(k2 + 1, ts.len() as int));
            assert(ts.subrange(k2 + 1, ts.len() as int)[k1 - (k2 + 1)] == ts[k1]);
            assert(false);
        }
        lemma_stems_deterministic(s1.drop_last(), s2.drop_last(), ts.subrange(0, k1));
        lemma_stem_deterministic(s1.last(), s2.last(), ts.subrange(k1 + 1, ts.len() as int));
        assert forall|i: int| 0 <= i < s1.len() implies stem_eq(s1[i], s2[i]) by {
            if i < s1.len() - 1 {
                assert(s1[i] == s1.drop_last()[i]);
                assert(s2[i] == s2.drop_last()[i]);
            }
        }
    }
}

/// A table definition: the table's name and its columns in declaration
/// order. The order is positionally significant for later insertions.
#[derive(Debug, Clone, PartialEq, Eq)]
pub struct Seed {
    pub bud: String,
    pub stems: Vec<Stem>,
}

/// The token shape of a table definition:
/// `CREATE TABLE <name> ( <columns> )`.
pub open spec fn seed_toks(sd: Seed, ts: Seq<TokenV>) -> bool {
    ts.len() >= 5 && ts[0] == TokenV::Word("CREATE"@) && ts[1] == TokenV::Word("TABLE"@) && ts[2]
        == TokenV::Word(sd.bud@) && ts[3] == TokenV::LParen && ts[ts.len() - 1] == TokenV::RParen
        && stems_toks(sd.stems@, ts.subrange(4, ts.len() - 1))
}

/// A token stretch spells exactly one table definition: the table's name
/// and its full column list are pinned by the tokens.
pub proof fn lemma_seed_deterministic(sd1: Seed, sd2: Seed, ts: Seq<TokenV>)
    requires
        seed_toks(sd1, ts),
        seed_toks(sd2, ts),
    ensures
        sd1.bud@ == sd2.bud@,
        sd1.stems@.len() == sd2.stems@.len(),
        forall|i: int| 0 <= i < sd1.stems@.len() ==> stem_eq(sd1.stems@[i], sd2.stems@[i]),
{
    lemma_stems_deterministic(sd1.stems@, sd2.stems@, ts.subrange(4, ts.len() - 1));
}

impl Seed {
    /// Parse a table definition beginning at `pos`. Succeeds exactly
    /// where `seed_end` gives an end, and consumes exactly up to it.
    pub fn from_tokens(ts: &Vec<Token>, pos: usize) -> (r: Result<(Seed, usize), ParseError>)
        requires
            pos <= ts@.len(),
        ensures
            r matches Ok((sd, q)) ==> pos < q <= ts@.len() && seed_end(
                ts.deep_view(),
                pos as int,
            ) == Some(q as int) && seed_toks(
                sd,
                ts.deep_view().subrange(pos as int, q as int),
            ),
            r is Err ==> seed_end(ts.deep_view(), pos as int) is None,
    {
        let ghost dv = ts.deep_view();
        let n: usize = ts.len();
        if n - pos < 5 {
            return Err(ParseError::UnexpectedEnd);
        }
        match &ts[pos] {
            Token::Word(w) => {
                if !str_eq(w.as_str(), "CREATE") {
                    return Err(ParseError::UnexpectedToken);
                }
            },
            _ => {
                return Err(ParseError::UnexpectedToken);
            },
        }
        match &ts[pos + 1] {
            Token::Word(w) => {
                if !str_eq(w.as_str(), "TABLE") {
                    return Err(ParseError::UnexpectedToken);
                }
            },
            _ => {
                return Err(ParseError::UnexpectedToken);
            },
        }
        let bud: String = match &ts[pos + 2] {
            Token::Word(w) => w.clone(),
            _ => {
                return Err(ParseError::UnexpectedToken);
            },
        };
        match &ts[pos + 3] {
            Token::LParen => {},
            _ => {
                return Err(ParseError::UnexpectedToken);
            },
        }
        let mut stems: Vec<Stem> = Vec::new();
        let mut q: usize = pos + 4;
        let closing = match &ts[q] {
            Token::RParen => true,
            _ => false,
        };
        if closing {
            let sd = Seed { bud, stems };
            proof {
                let sub = dv.subrange(pos as int, q as int + 1);
                assert(sub[0] == dv[pos as int]);
                assert(sub[1] == dv[pos as int + 1]);
                assert(sub[2] == dv[pos as int + 2]);
                assert(sub[3] == dv[pos as int + 3]);
                assert(sub[sub.len() - 1] == dv[q as int]);
                assert(sub.subrange(4, sub.len() - 1) =~= Seq::<TokenV>::empty());
            }
            return Ok((sd, q + 1));
        }
        let (st0, q0) = match Stem::from_tokens(ts, q) {
            Ok(p) => p,
            Err(e) => {
                return Err(e);
            },
        };
        stems.push(st0);
        proof {
            assert(stems@ =~= seq![st0]);
        }
        q = q0;
        loop
            invariant
                n == ts@.len(),
                dv == ts.deep_view(),
                pos + 4 < q <= n,
                stems@.len() >= 1,
                seed_end(dv, pos as int) == stems_tail(dv, q as int),
                stems_toks(stems@, dv.subrange(pos as int + 4, q as int)),
            ensures
                q < n,
                dv[q as int] == TokenV::RParen,
                seed_end(dv, pos as int) == Some(q as int + 1),
            decreases n - q,
        {
            if q >= n {
                return Err(ParseError::UnexpectedEnd);
            }
            let done = match &ts[q] {
                Token::RParen => true,
                _ => false,
            };
            if done {
                break;
            }
            let comma = match &ts[q] {
                Token::Comma => true,
                _ => false,
            };
            if !comma {
                return Err(ParseError::UnexpectedToken);
            }
            let (st, q2) = match Stem::from_tokens(ts, q + 1) {
                Ok(p) => p,
                Err(e) => {
                    return Err(e);
                },
            };
            let ghost old_stems = stems@;
            stems.push(st);
            proof {
                let sub = dv.subrange(pos as int + 4, q2 as int);
                let k = q as int - (pos + 4);
                assert(sub[k] == dv[q as int]);
                assert(sub.subrange(0, k) =~= dv.subrange(pos as int + 4, q as int));
                assert(sub.subrange(k + 1, sub.len() as int) =~= dv.subrange(
                    q as int + 1,
                    q2 as int,
                ));
                assert(stems@.drop_last() =~= old_stems);
                assert(stems@.last() == st);
                assert(stems_toks(stems@, sub)) by {
                    assert(0 <= k < sub.len() && sub[k] == TokenV::Comma && stems_toks(
                        stems@.drop_last(),
                        sub.subrange(0, k),
                    ) && stem_toks(stems@.last(), sub.subrange(k + 1, sub.len() as int)));
                }
            }
            q = q2;
        }
        let sd = Seed { bud, stems };
        proof {
            let sub = dv.subrange(pos as int, q as int + 1);
            assert(sub[0] == dv[pos as int]);
            assert(sub[1] == dv[pos as int + 1]);
            assert(sub[2] == dv[pos as int + 2]);
            assert(sub[3] == dv[pos as int + 3]);
            assert(sub[sub.len() - 1] == dv[q as int]);
            assert(sub.subrange(4, sub.len() - 1) =~= dv.subrange(pos as int + 4, q as int));
        }
        Ok((sd, q + 1))
    }

    /// Parse a table definition from source text. The definition is read
    /// from the front of the text; tokens after it are ignored. Succeeds
    /// exactly when the text lexes and a table definition stands at the
    /// front.
    pub fn from_input(input: String) -> (r: Result<Seed, ParseError>)
        ensures
            r matches Ok(sd) ==> (lex(input@, 0) matches Some(tsv) && seed_end(tsv, 0) matches
                Some(q) && 0 < q <= tsv.len() && seed_toks(sd, tsv.subrange(0, q))),
            r is Err ==> lex(input@, 0) is None || (lex(input@, 0) matches Some(tsv) && seed_end(
                tsv,
                0,
            ) is None),
    {
        let toks = match tokenize(input.as_str()) {
            Ok(t) => t,
            Err(e) => {
                return Err(e);
            },
        };
        match Seed::from_tokens(&toks, 0) {
            Ok((sd, q)) => {
                proof {
                    let tsv = toks.deep_view();
                    assert(0 < q <= tsv.len() && seed_toks(sd, tsv.subrange(0, q as int)));
                }
                Ok(sd)
            },
            Err(e) => Err(e),
        }
    }
}

/// A data-definition statement: for now, only a table definition.
#[derive(Debug, Clone, PartialEq, Eq)]
pub enum DDL {
    Seed(Seed),
}

/// The token shape of a data-definition statement.
pub open spec fn ddl_toks(d: DDL, ts: Seq<TokenV>) -> bool {
    match d {
        DDL::Seed(sd) => seed_toks(sd, ts),
    }
}

impl DDL {
    /// Parse a data-definition statement beginning at `pos`. Succeeds
    /// exactly where `seed_end` gives an end, and consumes exactly up to
    /// it.
    pub fn from_tokens(ts: &Vec<Token>, pos: usize) -> (r: Result<(DDL, usize), ParseError>)
        requires
            pos <= ts@.len(),
        ensures
            r matches Ok((d, q)) ==> pos < q <= ts@.len() && seed_end(
                ts.deep_view(),
                pos as int,
            ) == Some(q as int) && ddl_toks(
                d,
                ts.deep_view().subrange(pos as int, q as int),
            ),
            r is Err ==> seed_end(ts.deep_view(), pos as int) is None,
    {
        match Seed::from_tokens(ts, pos) {
            Ok((sd, q)) => Ok((DDL::Seed(sd), q)),
            Err(e) => Err(e),
        }
    }
}

} // verus!

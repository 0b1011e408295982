use sql_ast::ast::comment::Comment;
use sql_ast::ast::ddl::Seed;
use sql_ast::ast::dml::{Nutrients, DML};
use sql_ast::ast::dql::{Op, Sift, Twigs, DQL};
use sql_ast::ast::sql::Sql;
use sql_ast::error::ParseError;
use sql_ast::parser::tree::Tree;

fn parse_one(src: &str) -> Sql {
    let mut tree = Tree::parse(src.to_string()).expect("the source should parse");
    assert_eq!(tree.sqls.len(), 1);
    tree.sqls.pop().unwrap()
}

fn gate_of(src: &str) -> Sift {
    match parse_one(src) {
        Sql::DQL(DQL::Sample(sample)) => sample.gate.expect("a filter was expected"),
        _ => panic!("expected a retrieval statement"),
    }
}

fn ident(name: &str) -> Box<Sift> {
    Box::new(Sift::Ident(name.to_string()))
}

fn cmp(name: &str, op: Op, value: i64) -> Box<Sift> {
    Box::new(Sift::Comparison {
        left: ident(name),
        op,
        right: Box::new(Sift::Literal(Nutrients::Int(value))),
    })
}

#[test]
fn and_binds_tighter_than_or() {
    let got = gate_of("SELECT * FROM T WHERE a = 1 OR b = 2 AND c = 3");
    let expected = Sift::Or(
        cmp("a", Op::Eq, 1),
        Box::new(Sift::And(cmp("b", Op::Eq, 2), cmp("c", Op::Eq, 3))),
    );
    assert_eq!(got, expected);
}

#[test]
fn or_is_left_associative() {
    let got = gate_of("SELECT * FROM T WHERE a OR b OR c");
    let expected = Sift::Or(Box::new(Sift::Or(ident("a"), ident("b"))), ident("c"));
    assert_eq!(got, expected);
    let wrong = Sift::Or(ident("a"), Box::new(Sift::Or(ident("b"), ident("c"))));
    assert_ne!(got, wrong);
}

#[test]
fn parentheses_are_retained() {
    let wrapped = gate_of("SELECT * FROM T WHERE (a = 1)");
    let bare = gate_of("SELECT * FROM T WHERE a = 1");
    assert_eq!(wrapped, Sift::Paren(cmp("a", Op::Eq, 1)));
    assert_eq!(bare, *cmp("a", Op::Eq, 1));
    assert_ne!(wrapped, bare);
}

#[test]
fn every_comparison_operator_parses() {
    let cases = [
        ("=", Op::Eq),
        ("<>", Op::Neq),
        ("!=", Op::Neq),
        ("<", Op::Lt),
        ("<=", Op::Lte),
        (">", Op::Gt),
        (">=", Op::Gte),
    ];
    for (lexeme, op) in cases {
        let src = format!("SELECT * FROM T WHERE a {} 1", lexeme);
        let got = gate_of(&src);
        assert_eq!(got, *cmp("a", op, 1), "operator {}", lexeme);
    }
}

#[test]
fn projection_star_and_named() {
    match parse_one("SELECT * FROM T") {
        Sql::DQL(DQL::Sample(sample)) => {
            assert_eq!(sample.bud, "T");
            assert_eq!(sample.piths, Twigs::All);
            assert_eq!(sample.gate, None);
        }
        _ => panic!("expected a retrieval statement"),
    }
    match parse_one("SELECT a, b FROM T") {
        Sql::DQL(DQL::Sample(sample)) => {
            assert_eq!(sample.bud, "T");
            assert_eq!(sample.piths, Twigs::Named(vec!["a".to_string(), "b".to_string()]));
            assert_eq!(sample.gate, None);
        }
        _ => panic!("expected a retrieval statement"),
    }
}

#[test]
fn text_literal_strips_quotes_only() {
    let got = gate_of("SELECT * FROM T WHERE name = 'hello'");
    let expected = Sift::Comparison {
        left: ident("name"),
        op: Op::Eq,
        right: Box::new(Sift::Literal(Nutrients::Str("hello".to_string()))),
    };
    assert_eq!(got, expected);
}

#[test]
fn insertion_builds_both_lists() {
    match parse_one("INSERT INTO Product (id, title) VALUES (1, 'Widget')") {
        Sql::DML(DML::Sow(sow)) => {
            assert_eq!(sow.bud, "Product");
            assert_eq!(sow.piths, vec!["id".to_string(), "title".to_string()]);
            assert_eq!(
                sow.nutrients,
                vec![Nutrients::Int(1), Nutrients::Str("Widget".to_string())]
            );
        }
        _ => panic!("expected an insertion statement"),
    }
}

#[test]
fn insertion_counts_may_differ() {
    match parse_one("INSERT INTO t (a) VALUES (1, 2, 3)") {
        Sql::DML(DML::Sow(sow)) => {
            assert_eq!(sow.piths.len(), 1);
            assert_eq!(sow.nutrients.len(), 3);
        }
        _ => panic!("expected an insertion statement"),
    }
}

#[test]
fn unknown_type_keyword_fails() {
    let r = Tree::parse("CREATE TABLE T (a VARCHAR)".to_string());
    assert_eq!(r, Err(ParseError::UnknownType));
}

#[test]
fn unknown_constraint_keyword_fails() {
    let r = Tree::parse("CREATE TABLE T (a INT SPECIAL)".to_string());
    assert_eq!(r, Err(ParseError::UnknownConstraint));
    let r2 = Tree::parse("CREATE TABLE T (a INT NOT KEY)".to_string());
    assert_eq!(r2, Err(ParseError::UnknownConstraint));
}

#[test]
fn boolean_literals_ignore_case() {
    match parse_one("INSERT INTO t (a, b, c) VALUES (TRUE, false, tRuE)") {
        Sql::DML(DML::Sow(sow)) => {
            assert_eq!(
                sow.nutrients,
                vec![Nutrients::Bool(true), Nutrients::Bool(false), Nutrients::Bool(true)]
            );
        }
        _ => panic!("expected an insertion statement"),
    }
}

#[test]
fn integer_literals_are_signed_64_bit() {
    match parse_one("INSERT INTO t (a, b, c) VALUES (0, -12, 9223372036854775807)") {
        Sql::DML(DML::Sow(sow)) => {
            assert_eq!(
                sow.nutrients,
                vec![Nutrients::Int(0), Nutrients::Int(-12), Nutrients::Int(i64::MAX)]
            );
        }
        _ => panic!("expected an insertion statement"),
    }
    match parse_one("INSERT INTO t (a) VALUES (-9223372036854775808)") {
        Sql::DML(DML::Sow(sow)) => {
            assert_eq!(sow.nutrients, vec![Nutrients::Int(i64::MIN)]);
        }
        _ => panic!("expected an insertion statement"),
    }
}

#[test]
fn integer_overflow_fails() {
    let r = Tree::parse("INSERT INTO t (a) VALUES (9223372036854775808)".to_string());
    assert_eq!(r, Err(ParseError::NumberOverflow));
    let r2 = Tree::parse("INSERT INTO t (a) VALUES (-9223372036854775809)".to_string());
    assert_eq!(r2, Err(ParseError::NumberOverflow));
}

#[test]
fn comments_keep_their_text() {
    let tree = Tree::parse("-- a line note\nSELECT * FROM t;\n/* a block */".to_string())
        .expect("the source should parse");
    assert_eq!(tree.sqls.len(), 3);
    assert_eq!(tree.sqls[0], Sql::Comment(Comment::Line(" a line note".to_string())));
    assert_eq!(tree.sqls[2], Sql::Comment(Comment::Block(" a block ".to_string())));
}

#[test]
fn empty_documents_parse() {
    assert_eq!(Tree::parse(String::new()).expect("empty input").sqls.len(), 0);
    assert_eq!(Tree::parse("  ;; ;\n".to_string()).expect("only separators").sqls.len(), 0);
}

#[test]
fn malformed_text_fails_fast() {
    assert_eq!(
        Tree::parse("SELECT * FROM t WHERE a = 'oops".to_string()),
        Err(ParseError::UnterminatedString)
    );
    assert_eq!(Tree::parse("/* never closed".to_string()), Err(ParseError::UnterminatedComment));
    assert_eq!(Tree::parse("SELECT * FROM t WHERE a ! 1".to_string()), Err(ParseError::LoneBang));
    assert_eq!(Tree::parse("SELECT @ FROM t".to_string()), Err(ParseError::UnexpectedChar));
    assert_eq!(Tree::parse("DROP TABLE t".to_string()), Err(ParseError::UnexpectedToken));
    assert_eq!(Tree::parse("CREATE TABLE T (".to_string()), Err(ParseError::UnexpectedEnd));
}

#[test]
fn boolean_words_in_filters_are_literals() {
    let got = gate_of("SELECT * FROM t WHERE flag = TRUE");
    let expected = Sift::Comparison {
        left: ident("flag"),
        op: Op::Eq,
        right: Box::new(Sift::Literal(Nutrients::Bool(true))),
    };
    assert_eq!(got, expected);
}

#[test]
fn seed_from_input_reads_the_front() {
    let seed = Seed::from_input("CREATE TABLE a (x INT); trailing tokens".to_string())
        .expect("the definition at the front should parse");
    assert_eq!(seed.bud, "a");
    assert_eq!(seed.stems.len(), 1);
    assert!(Seed::from_input("SELECT * FROM a".to_string()).is_err());
}

#[test]
fn filter_nesting_is_bounded() {
    let shallow = format!(
        "SELECT * FROM t WHERE {}a{}",
        "(".repeat(3),
        ")".repeat(3)
    );
    assert!(Tree::parse(shallow).is_ok());
    let at_limit = format!(
        "SELECT * FROM t WHERE {}a{}",
        "(".repeat(64),
        ")".repeat(64)
    );
    assert!(Tree::parse(at_limit).is_ok());
    let too_deep = format!(
        "SELECT * FROM t WHERE {}a{}",
        "(".repeat(65),
        ")".repeat(65)
    );
    assert_eq!(Tree::parse(too_deep), Err(ParseError::NestingTooDeep));
}

#[test]
fn statements_of_all_classes_collect_in_order() {
    let src = [
        "CREATE TABLE t (a INT UNIQUE, b TEXT NOT NULL);",
        "INSERT INTO t (a, b) VALUES (7, 'x');",
        "SELECT a FROM t WHERE (a >= 2 AND b <> 'y') OR a < 0;",
    ]
    .join("\n");
    let tree = Tree::parse(src).expect("the source should parse");
    assert_eq!(tree.sqls.len(), 3);
    assert!(matches!(tree.sqls[0], Sql::DDL(_)));
    assert!(matches!(tree.sqls[1], Sql::DML(_)));
    assert!(matches!(tree.sqls[2], Sql::DQL(_)));
}

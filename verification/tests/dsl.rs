use termesh::dsl::ast::{Error, Expr, Module, Statement};
use termesh::dsl::number::parse_number;
use termesh::dsl::parser::{parse_module, ParseErrorKind};
use termesh::dsl::typecheck::{type_check, TypeCheckErrorKind};
use termesh::Vector3;

fn fx(v: f64) -> i32 {
    (v * 65536.0).round() as i32
}

fn v3(x: f64, y: f64, z: f64) -> Vector3 {
    Vector3::new(fx(x), fx(y), fx(z))
}

fn s(text: &str) -> String {
    text.to_string()
}

fn vertex(name: &str, position: Vector3) -> Expr {
    Expr::Vertex(s(name), position)
}

fn line(v0: &str, v1: &str) -> Expr {
    Expr::Line(s(v0), s(v1))
}

fn triangle(v0: &str, v1: &str, v2: &str) -> Expr {
    Expr::Triangle(s(v0), s(v1), s(v2))
}

fn number(text: &str) -> Option<i32> {
    parse_number(&text.chars().collect())
}

#[test]
fn test_parse_simple() {
    let module = r"
        vertex v1 = 3 2 1
        vertex v2 = 1 2 3
        vertex v3 = 0 0 0
        vertex v4 = 9 9 9

        line v1 v2
        triangle v2 v3 v4
        ";

    let tree = parse_module(module).unwrap();
    assert_eq!(
        tree,
        Module {
            input: s(module),
            statements: vec![
                Statement {
                    line: s("        vertex v1 = 3 2 1"),
                    line_no: 1,
                    expr: vertex("v1", v3(3.0, 2.0, 1.0))
                },
                Statement {
                    line: s("        vertex v2 = 1 2 3"),
                    line_no: 2,
                    expr: vertex("v2", v3(1.0, 2.0, 3.0))
                },
                Statement {
                    line: s("        vertex v3 = 0 0 0"),
                    line_no: 3,
                    expr: vertex("v3", v3(0.0, 0.0, 0.0))
                },
                Statement {
                    line: s("        vertex v4 = 9 9 9"),
                    line_no: 4,
                    expr: vertex("v4", v3(9.0, 9.0, 9.0))
                },
                Statement {
                    line: s("        line v1 v2"),
                    line_no: 6,
                    expr: line("v1", "v2")
                },
                Statement {
                    line: s("        triangle v2 v3 v4"),
                    line_no: 7,
                    expr: triangle("v2", "v3", "v4")
                },
            ]
        }
    );

    assert!(type_check(&tree).is_ok());
}

#[test]
fn test_vertex_numbers() {
    assert_eq!(
        parse_module("vertex v1 = 1 -1.42 0.5E-12"),
        Ok(Module {
            input: s("vertex v1 = 1 -1.42 0.5E-12"),
            statements: vec![Statement {
                line: s("vertex v1 = 1 -1.42 0.5E-12"),
                line_no: 0,
                expr: vertex("v1", v3(1.0, -1.42, 0.5E-12))
            }]
        })
    );
}

#[test]
fn test_unexpected_eol() {
    assert_eq!(
        parse_module("vertex"),
        Err(Error {
            line_no: 0,
            line: s("vertex"),
            kind: ParseErrorKind::UnexpectedEol(s("identifier")),
        })
    );

    assert_eq!(
        parse_module("vertex v1 ="),
        Err(Error {
            line_no: 0,
            line: s("vertex v1 ="),
            kind: ParseErrorKind::UnexpectedEol(s("number")),
        })
    );

    assert_eq!(
        parse_module("line v1"),
        Err(Error {
            line_no: 0,
            line: s("line v1"),
            kind: ParseErrorKind::UnexpectedEol(s("identifier")),
        })
    );
}

#[test]
fn test_unexpected() {
    assert_eq!(
        parse_module("vertex v1 42"),
        Err(Error {
            line_no: 0,
            line: s("vertex v1 42"),
            kind: ParseErrorKind::Unexpected(s("42"), s("=")),
        })
    );

    assert_eq!(
        parse_module("line v1 v2 v3"),
        Err(Error {
            line_no: 0,
            line: s("line v1 v2 v3"),
            kind: ParseErrorKind::Unexpected(s("v3"), s("<eol>")),
        })
    );
}

#[test]
fn test_bad_number() {
    assert_eq!(
        parse_module("vertex v = 42a 0 0"),
        Err(Error {
            line_no: 0,
            line: s("vertex v = 42a 0 0"),
            kind: ParseErrorKind::BadNumber(s("42a")),
        })
    );

    assert_eq!(
        parse_module("vertex v = 0.98a 6 0"),
        Err(Error {
            line_no: 0,
            line: s("vertex v = 0.98a 6 0"),
            kind: ParseErrorKind::BadNumber(s("0.98a")),
        })
    );
}

#[test]
fn test_bad_identifier() {
    assert_eq!(
        parse_module("vertex 42s"),
        Err(Error {
            line_no: 0,
            line: s("vertex 42s"),
            kind: ParseErrorKind::BadIdentifier(s("42s")),
        })
    );

    assert_eq!(
        parse_module("line 42 v1"),
        Err(Error {
            line_no: 0,
            line: s("line 42 v1"),
            kind: ParseErrorKind::BadIdentifier(s("42")),
        })
    );

    assert_eq!(
        parse_module("triangle v0 v1 1234"),
        Err(Error {
            line_no: 0,
            line: s("triangle v0 v1 1234"),
            kind: ParseErrorKind::BadIdentifier(s("1234")),
        })
    );
}

#[test]
fn test_type_check() {
    let prog = parse_module(
        r"vertex v1 = 2 3 4
              vertex v2 = 3 3 3
              line v1 v2
              vertex v3 = 0 0 0
              triangle v1 v2 v3",
    )
    .unwrap();

    assert_eq!(type_check(&prog), Ok(()));
}

#[test]
fn test_undeclared_var() {
    let prog = parse_module(
        r"vertex v1 = 2 3 4
              line v1 v2",
    )
    .unwrap();

    assert_eq!(
        type_check(&prog),
        Err(Error {
            line_no: 1,
            line: s("              line v1 v2"),
            kind: TypeCheckErrorKind::UndeclaredVariable(s("v2"))
        })
    );

    let prog = parse_module(
        r"vertex v1 = 2 3 4
              vertex v2 = 1 1 1
              triangle v0 v1 v2",
    )
    .unwrap();

    assert_eq!(
        type_check(&prog),
        Err(Error {
            line_no: 2,
            line: s("              triangle v0 v1 v2"),
            kind: TypeCheckErrorKind::UndeclaredVariable(s("v0"))
        })
    );
}

#[test]
fn a_vertex_is_declared_only_after_its_statement() {
    let prog = parse_module("line a a\nvertex a = 0 0 0").unwrap();
    assert_eq!(
        type_check(&prog),
        Err(Error {
            line_no: 0,
            line: s("line a a"),
            kind: TypeCheckErrorKind::UndeclaredVariable(s("a"))
        })
    );
    let prog = parse_module("vertex a = 0 0 0\ntriangle a a b").unwrap();
    assert_eq!(
        type_check(&prog),
        Err(Error {
            line_no: 1,
            line: s("triangle a a b"),
            kind: TypeCheckErrorKind::UndeclaredVariable(s("b"))
        })
    );
    let prog = parse_module("vertex a = 0 0 0\ntriangle a c b").unwrap();
    assert_eq!(
        type_check(&prog).unwrap_err().kind,
        TypeCheckErrorKind::UndeclaredVariable(s("c"))
    );
    assert_eq!(type_check(&parse_module("").unwrap()), Ok(()));
}

#[test]
fn comments_and_empty_lines_are_no_statements() {
    let module = parse_module("# a comment\n\n   \n  #another one\nvertex a = 0 0 0\n#").unwrap();
    assert_eq!(
        module.statements,
        vec![Statement {
            line: s("vertex a = 0 0 0"),
            line_no: 4,
            expr: vertex("a", v3(0.0, 0.0, 0.0))
        }]
    );
    assert_eq!(parse_module("").unwrap().statements, vec![]);
    assert_eq!(parse_module("\n").unwrap().statements, vec![]);
    // a comment needs no space after its sign, and takes the whole line
    assert_eq!(parse_module("#vertex 42s").unwrap().statements, vec![]);
}

#[test]
fn lines_end_at_line_feeds_with_or_without_a_carriage_return() {
    let module = parse_module("vertex a = 1 2 3\r\nvertex b = 4 5 6\n\nline a b\r\n").unwrap();
    assert_eq!(
        module.statements,
        vec![
            Statement {
                line: s("vertex a = 1 2 3"),
                line_no: 0,
                expr: vertex("a", v3(1.0, 2.0, 3.0))
            },
            Statement {
                line: s("vertex b = 4 5 6"),
                line_no: 1,
                expr: vertex("b", v3(4.0, 5.0, 6.0))
            },
            Statement {
                line: s("line a b"),
                line_no: 3,
                expr: line("a", "b")
            },
        ]
    );
    assert_eq!(module.input, "vertex a = 1 2 3\r\nvertex b = 4 5 6\n\nline a b\r\n");
}

#[test]
fn words_are_split_at_any_white_space() {
    let module = parse_module("\tvertex\u{a0}a\u{2003}=  1\t2 \u{3000}3  ").unwrap();
    assert_eq!(module.statements.len(), 1);
    assert_eq!(module.statements[0].expr, vertex("a", v3(1.0, 2.0, 3.0)));
    assert_eq!(module.statements[0].line, "\tvertex\u{a0}a\u{2003}=  1\t2 \u{3000}3  ");
}

#[test]
fn the_first_error_in_line_order_is_reported() {
    assert_eq!(
        parse_module("vertex a = 0 0 0\nline a\nvertex 1 = 0 0 0"),
        Err(Error {
            line_no: 1,
            line: s("line a"),
            kind: ParseErrorKind::UnexpectedEol(s("identifier")),
        })
    );
}

#[test]
fn an_unknown_statement_is_unexpected() {
    assert_eq!(
        parse_module("  point a = 0 0 0"),
        Err(Error {
            line_no: 0,
            line: s("  point a = 0 0 0"),
            kind: ParseErrorKind::Unexpected(s("point"), s("vertex | line | triangle")),
        })
    );
    assert_eq!(
        parse_module("vertex a = 0 0 0 0"),
        Err(Error {
            line_no: 0,
            line: s("vertex a = 0 0 0 0"),
            kind: ParseErrorKind::Unexpected(s("0"), s("<eol>")),
        })
    );
    assert_eq!(
        parse_module("vertex a =").unwrap_err().kind,
        ParseErrorKind::UnexpectedEol(s("number"))
    );
    assert_eq!(
        parse_module("vertex a").unwrap_err().kind,
        ParseErrorKind::UnexpectedEol(s("="))
    );
}

#[test]
fn identifiers_are_a_letter_and_then_letters_and_numbers() {
    assert!(parse_module("vertex é9 = 0 0 0").is_ok());
    assert!(parse_module("vertex a٣ = 0 0 0").is_ok());
    assert_eq!(
        parse_module("vertex a_b = 0 0 0").unwrap_err().kind,
        ParseErrorKind::BadIdentifier(s("a_b"))
    );
    assert_eq!(
        parse_module("vertex _a = 0 0 0").unwrap_err().kind,
        ParseErrorKind::BadIdentifier(s("_a"))
    );
    assert_eq!(
        parse_module("line a-b c").unwrap_err().kind,
        ParseErrorKind::BadIdentifier(s("a-b"))
    );
}

#[test]
fn messages_name_what_was_found_and_expected() {
    assert_eq!(
        ParseErrorKind::UnexpectedEol(s("number")).message(),
        "expected number, found end of line"
    );
    assert_eq!(
        ParseErrorKind::Unexpected(s("42"), s("=")).message(),
        "expected =, found `42`"
    );
    assert_eq!(
        ParseErrorKind::BadIdentifier(s("42s")).message(),
        "`42s` is not a valid identifier"
    );
    assert_eq!(
        ParseErrorKind::BadNumber(s("0.98a")).message(),
        "`0.98a` is not a valid number"
    );
    assert_eq!(
        TypeCheckErrorKind::UndeclaredVariable(s("v0")).message(),
        "cannot find variable `v0` in this scope"
    );
}

#[test]
fn vertices_are_the_positions_in_order() {
    let module = parse_module("vertex a = 1 2 3\nvertex b = 4 5 6\nline a b\nvertex a = 7 8 9").unwrap();
    assert_eq!(
        module.vertices(),
        vec![v3(1.0, 2.0, 3.0), v3(4.0, 5.0, 6.0), v3(7.0, 8.0, 9.0)]
    );
}

#[test]
fn numbers_are_decimal() {
    assert_eq!(number("1"), Some(65536));
    assert_eq!(number("-1"), Some(-65536));
    assert_eq!(number("+1"), Some(65536));
    assert_eq!(number("0"), Some(0));
    assert_eq!(number("-0"), Some(0));
    assert_eq!(number("1."), Some(65536));
    assert_eq!(number(".5"), Some(32768));
    assert_eq!(number("-.5"), Some(-32768));
    assert_eq!(number("0.25"), Some(16384));
    assert_eq!(number("007.50"), Some(491520));
    assert_eq!(number("1e2"), Some(6553600));
    assert_eq!(number("1E2"), Some(6553600));
    assert_eq!(number("1e+2"), Some(6553600));
    assert_eq!(number("250e-2"), Some(163840));
    assert_eq!(number("2.5e0"), Some(163840));
    assert_eq!(number("0.0025e3"), Some(163840));
}

#[test]
fn numbers_are_truncated_toward_zero() {
    // 1.42 is 93061.12 units, a third is 21845.33.. units
    assert_eq!(number("1.42"), Some(93061));
    assert_eq!(number("-1.42"), Some(-93061));
    assert_eq!(number("0.333333333333"), Some(21845));
    // just below one unit, and just below one
    assert_eq!(number("0.0000152587890624"), Some(0));
    assert_eq!(number("0.0000152587890625"), Some(1));
    assert_eq!(number("0.99999999999999999999999999999999999999"), Some(65535));
    assert_eq!(number("0.5E-12"), Some(0));
    assert_eq!(number("1e-40"), Some(0));
    assert_eq!(number("1e-99999999999999999999999999999999999999999"), Some(0));
}

#[test]
fn numbers_are_clamped() {
    assert_eq!(number("32767"), Some(32767 * 65536));
    assert_eq!(number("32767.9999"), Some(2147483641));
    assert_eq!(number("32767.99999"), Some(i32::MAX));
    assert_eq!(number("32768"), Some(i32::MAX));
    assert_eq!(number("-32768"), Some(i32::MIN));
    assert_eq!(number("-32769"), Some(i32::MIN));
    assert_eq!(number("1e5"), Some(i32::MAX));
    assert_eq!(number("1e6"), Some(i32::MAX));
    assert_eq!(number("-1e30"), Some(i32::MIN));
    assert_eq!(number("1e99999999999999999999999999999999999999999"), Some(i32::MAX));
    assert_eq!(number("0e99999999999999999999999999999999999999999"), Some(0));
    assert_eq!(number("0.00001e9"), Some(655360000));
}

#[test]
fn numbers_may_have_any_number_of_digits() {
    // digits far behind the first ones cannot change a scalar, but their places count
    assert_eq!(number("1000000000000000000000000000000e-30"), Some(65536));
    assert_eq!(number("10000000000000000000000000000000e-30"), Some(655360));
    assert_eq!(number("1234567890123456789012345678999999e-33"), Some(80908));
    assert_eq!(number("0.00000000000000000000000000000000001e35"), Some(65536));
}

#[test]
fn what_is_no_number_is_refused() {
    for text in [
        "", "+", "-", ".", "-.", "e5", ".e5", "1e", "1e+", "1e-", "1e5.0", "1.2.3", "1,5", "42a",
        "0.98a", "a1", "0x10", "1 ", " 1", "--1", "+-1", "1e--1", "inf", "nan", "infinity",
        "NaN", "1_000", "１",
    ] {
        assert_eq!(number(text), None, "{:?}", text);
    }
}

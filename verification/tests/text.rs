use termesh::dsl::ast::{Expr, Statement};
use termesh::dsl::lexer::{letters, mark_word, mark_words, split_lines, split_words, Mark};
use termesh::dsl::parser::{parse_words, LineParser, ParseErrorKind};
use termesh::text::{chars_of, reads, string_of, text_of};
use termesh::Vector3;

fn chars(text: &str) -> Vec<char> {
    text.chars().collect()
}

fn texts(parts: Vec<Vec<char>>) -> Vec<String> {
    parts.into_iter().map(|p| p.into_iter().collect()).collect()
}

#[test]
fn characters_go_to_text_and_back() {
    assert_eq!(chars_of("a⠁é"), vec!['a', '⠁', 'é']);
    assert_eq!(chars_of(""), Vec::<char>::new());
    assert_eq!(text_of(&chars("vertex ⠁")), "vertex ⠁");
    assert_eq!(string_of(&chars("0123456"), 2, 5), "234");
    assert_eq!(string_of(&chars("0123456"), 3, 3), "");
    assert_eq!(string_of(&chars("0123456"), 0, 7), "0123456");
}

#[test]
fn reads_compares_all_the_characters() {
    assert!(reads(&chars("line"), "line"));
    assert!(reads(&chars(""), ""));
    assert!(!reads(&chars("line"), "lines"));
    assert!(!reads(&chars("lines"), "line"));
    assert!(!reads(&chars("lime"), "line"));
    assert!(!reads(&chars("Line"), "line"));
}

#[test]
fn lines_are_split_as_they_end() {
    assert_eq!(texts(split_lines(&chars(""))), Vec::<String>::new());
    assert_eq!(texts(split_lines(&chars("a"))), vec!["a"]);
    assert_eq!(texts(split_lines(&chars("a\n"))), vec!["a"]);
    assert_eq!(texts(split_lines(&chars("a\nb"))), vec!["a", "b"]);
    assert_eq!(texts(split_lines(&chars("\n"))), vec![""]);
    assert_eq!(texts(split_lines(&chars("\n\n"))), vec!["", ""]);
    assert_eq!(texts(split_lines(&chars("a\r\nb\r\n"))), vec!["a", "b"]);
    // only one carriage return goes, and only before a line feed
    assert_eq!(texts(split_lines(&chars("a\r\r\nb\r"))), vec!["a\r", "b\r"]);
    assert_eq!(texts(split_lines(&chars("a\rb\n"))), vec!["a\rb"]);
    assert_eq!(texts(split_lines(&chars(" a \n\n b "))), vec![" a ", "", " b "]);
}

#[test]
fn words_are_runs_without_white_space() {
    assert_eq!(texts(split_words(&chars(""))), Vec::<String>::new());
    assert_eq!(texts(split_words(&chars("   \t "))), Vec::<String>::new());
    assert_eq!(texts(split_words(&chars("a"))), vec!["a"]);
    assert_eq!(texts(split_words(&chars("  a  bc d "))), vec!["a", "bc", "d"]);
    assert_eq!(texts(split_words(&chars("a=b"))), vec!["a=b"]);
    assert_eq!(texts(split_words(&chars("a\u{2028}b\u{85}c\rd"))), vec!["a", "b", "c", "d"]);
    // a zero width space is no white space
    assert_eq!(texts(split_words(&chars("a\u{200b}b"))), vec!["a\u{200b}b"]);
}

#[test]
fn a_line_parser_reads_word_by_word() {
    let line = chars("  triangle a b1 c ");
    let mut parser = LineParser::new(&line, 7);
    assert_eq!(parser.next("anything"), Ok(0));
    assert_eq!(parser.parse_id(), Ok("a".to_string()));
    assert_eq!(parser.parse_id(), Ok("b1".to_string()));
    assert_eq!(parser.next("anything"), Ok(3));
    let e = parser.next("something").unwrap_err();
    assert_eq!(e.line, "  triangle a b1 c ");
    assert_eq!(e.line_no, 7);
    assert_eq!(e.kind, ParseErrorKind::UnexpectedEol("something".to_string()));
    // a failure does not move the parser
    assert_eq!(
        parser.parse_id().unwrap_err().kind,
        ParseErrorKind::UnexpectedEol("identifier".to_string())
    );
    assert_eq!(
        parser.unexpected(1, "b").kind,
        ParseErrorKind::Unexpected("a".to_string(), "b".to_string())
    );
    let e = parser.error(ParseErrorKind::BadNumber("x".to_string()));
    assert_eq!(e.line, "  triangle a b1 c ");
    assert_eq!(e.line_no, 7);
    assert_eq!(e.kind, ParseErrorKind::BadNumber("x".to_string()));
}

#[test]
fn a_line_parser_reads_numbers_and_signs() {
    let line = chars("= 2.5 x =");
    let mut parser = LineParser::new(&line, 0);
    assert_eq!(parser.eat("="), Ok(()));
    assert_eq!(parser.parse_number(), Ok(163840));
    assert_eq!(
        parser.parse_number().unwrap_err().kind,
        ParseErrorKind::BadNumber("x".to_string())
    );
    assert_eq!(
        parser.eat("==").unwrap_err().kind,
        ParseErrorKind::Unexpected("=".to_string(), "==".to_string())
    );
    assert_eq!(
        parser.eat("=").unwrap_err().kind,
        ParseErrorKind::UnexpectedEol("=".to_string())
    );
}

#[test]
fn a_line_parser_reads_a_statement() {
    let line = chars("vertex a = 1 2 3");
    assert_eq!(
        LineParser::new(&line, 3).parse(),
        Some(Ok(Statement {
            line: "vertex a = 1 2 3".to_string(),
            line_no: 3,
            expr: Expr::Vertex("a".to_string(), Vector3::new(65536, 131072, 196608)),
        }))
    );
    let line = chars("   ");
    assert_eq!(LineParser::new(&line, 0).parse(), None);
    let line = chars(" # vertex");
    assert_eq!(LineParser::new(&line, 0).parse(), None);
    let line = chars("line a b");
    let mut parser = LineParser::new(&line, 0);
    parser.next("line").unwrap();
    assert_eq!(
        parser.parse_line(),
        Ok(Expr::Line("a".to_string(), "b".to_string()))
    );
    let line = chars("triangle a b");
    let mut parser = LineParser::new(&line, 0);
    parser.next("triangle").unwrap();
    assert_eq!(
        parser.parse_triangle().unwrap_err().kind,
        ParseErrorKind::UnexpectedEol("identifier".to_string())
    );
    let line = chars("vertex a = 1 2");
    let mut parser = LineParser::new(&line, 0);
    parser.next("vertex").unwrap();
    assert_eq!(
        parser.parse_vertex().unwrap_err().kind,
        ParseErrorKind::UnexpectedEol("number".to_string())
    );
}

fn mark(c: char, letter: bool, letter_or_number: bool) -> Mark {
    Mark {
        c,
        letter,
        letter_or_number,
    }
}

/// The word `text` with every character marked as a letter.
fn word_of_letters(text: &str) -> Vec<Mark> {
    text.chars().map(|c| mark(c, true, true)).collect()
}

/// The word `text` with no character marked as a letter or a number.
fn word_of_signs(text: &str) -> Vec<Mark> {
    text.chars().map(|c| mark(c, false, false)).collect()
}

/// The word `text` with every character marked as a number.
fn word_of_numbers(text: &str) -> Vec<Mark> {
    text.chars().map(|c| mark(c, false, true)).collect()
}

#[test]
fn characters_are_marked_as_letters_and_numbers() {
    assert_eq!(
        mark_word(&chars("a1_é٣ ")),
        vec![
            mark('a', true, true),
            mark('1', false, true),
            mark('_', false, false),
            mark('é', true, true),
            mark('٣', false, true),
            mark(' ', false, false),
        ]
    );
    assert_eq!(mark_word(&chars("")), vec![]);
    assert_eq!(
        mark_words(&vec![chars("v1"), chars(""), chars("=")]),
        vec![
            vec![mark('v', true, true), mark('1', false, true)],
            vec![],
            vec![mark('=', false, false)],
        ]
    );
    assert_eq!(letters(&mark_word(&chars("vertex ⠁"))), chars("vertex ⠁"));
    assert_eq!(letters(&word_of_signs("= #")), chars("= #"));
}

#[test]
fn a_line_parser_takes_words_as_they_are_marked() {
    let raw = chars("the line as it was written");
    let words = vec![word_of_letters("line"), word_of_letters("a"), word_of_letters("b2")];
    assert_eq!(
        LineParser::from_words(&raw, 9, words).parse(),
        Some(Ok(Statement {
            line: "the line as it was written".to_string(),
            line_no: 9,
            expr: Expr::Line("a".to_string(), "b2".to_string()),
        }))
    );
    // the marks decide what an identifier is, not the characters
    let words = vec![word_of_letters("line"), word_of_letters("a"), word_of_numbers("b2")];
    let e = LineParser::from_words(&raw, 9, words).parse().unwrap().unwrap_err();
    assert_eq!(e.kind, ParseErrorKind::BadIdentifier("b2".to_string()));
    assert_eq!(e.line, "the line as it was written");
    assert_eq!(e.line_no, 9);
    let first = vec![mark('a', true, false), mark('b', false, true), mark('c', true, true)];
    let words = vec![word_of_letters("line"), first, word_of_letters("b")];
    assert!(LineParser::from_words(&raw, 0, words).parse().unwrap().is_ok());
    let second = vec![mark('a', true, true), mark('b', true, false)];
    let words = vec![word_of_letters("line"), second, word_of_letters("b")];
    assert_eq!(
        LineParser::from_words(&raw, 0, words).parse().unwrap().unwrap_err().kind,
        ParseErrorKind::BadIdentifier("ab".to_string())
    );
}

#[test]
fn a_line_parser_takes_any_words() {
    let raw = chars("");
    assert_eq!(LineParser::from_words(&raw, 0, vec![]).parse(), None);
    assert_eq!(
        LineParser::from_words(&raw, 0, vec![word_of_signs("#"), word_of_letters("x")]).parse(),
        None
    );
    // a word without a character is no comment and no statement
    assert_eq!(
        LineParser::from_words(&raw, 0, vec![vec![]]).parse().unwrap().unwrap_err().kind,
        ParseErrorKind::Unexpected("".to_string(), "vertex | line | triangle".to_string())
    );
    let words = vec![
        word_of_letters("vertex"),
        word_of_letters("v"),
        word_of_signs("="),
        word_of_numbers("1"),
        word_of_signs("-2.5"),
        word_of_numbers("3e0"),
    ];
    assert_eq!(
        LineParser::from_words(&raw, 0, words).parse(),
        Some(Ok(Statement {
            line: String::new(),
            line_no: 0,
            expr: Expr::Vertex("v".to_string(), Vector3::new(65536, -163840, 196608)),
        }))
    );
    let words = vec![
        word_of_letters("triangle"),
        word_of_letters("a"),
        word_of_letters("b"),
        word_of_letters("c"),
        word_of_letters("d"),
    ];
    assert_eq!(
        LineParser::from_words(&raw, 0, words).parse().unwrap().unwrap_err().kind,
        ParseErrorKind::Unexpected("d".to_string(), "<eol>".to_string())
    );
}

#[test]
fn words_are_parsed_as_they_are_marked() {
    let raw = chars("line a b");
    let words = vec![word_of_letters("line"), word_of_letters("a"), word_of_letters("b")];
    assert_eq!(
        parse_words(&raw, 2, words),
        Some(Ok(Statement {
            line: "line a b".to_string(),
            line_no: 2,
            expr: Expr::Line("a".to_string(), "b".to_string()),
        }))
    );
    let words = vec![word_of_letters("line"), word_of_letters("a")];
    let e = parse_words(&raw, 2, words).unwrap().unwrap_err();
    assert_eq!(e.kind, ParseErrorKind::UnexpectedEol("identifier".to_string()));
    assert_eq!(e.line, "line a b");
    assert_eq!(e.line_no, 2);
    assert_eq!(parse_words(&raw, 2, vec![]), None);
    assert_eq!(parse_words(&raw, 2, vec![word_of_signs("#line")]), None);
    // marked by what the characters are, a line is parsed as it is read
    let words = mark_words(&split_words(&raw));
    assert_eq!(
        parse_words(&raw, 0, words),
        LineParser::new(&raw, 0).parse()
    );
}

//! From text to statements.

use crate::dsl::ast::{Error, Expr, ExprView, Module, Statement, StatementView};
use crate::dsl::lexer::{
    letters, lines_of, mark_words, marked_words, marks, spelling, split_lines, split_words, texts,
    words_of, Mark,
};
use crate::dsl::number::{parse_number, parsed_number};
use crate::text::{chars_of, reads, text_of};
use crate::vector3::Vector3;
use vstd::prelude::*;
use vstd::string::StringExecFns;

verus! {

/// Why a text is no module, and where.
pub type ParseError = Error<ParseErrorKind>;

/// Why a line is no statement.
#[derive(Debug, PartialEq, Eq, Clone)]
pub enum ParseErrorKind {
    /// A word, and what was expected in its place.
    Unexpected(String, String),
    /// What was expected where the line ends.
    UnexpectedEol(String),
    /// A word that is no number where a number was expected.
    BadNumber(String),
    /// A word that is no identifier where one was expected.
    BadIdentifier(String),
}

/// A kind of error, with every text as its characters.
pub enum Fault {
    Unexpected(Seq<char>, Seq<char>),
    UnexpectedEol(Seq<char>),
    BadNumber(Seq<char>),
    BadIdentifier(Seq<char>),
}

/// An error, with every text as its characters.
pub struct Failure {
    pub line: Seq<char>,
    pub line_no: usize,
    pub kind: Fault,
}

impl View for ParseErrorKind {
    type V = Fault;

    open spec fn view(&self) -> Fault {
        match *self {
            ParseErrorKind::Unexpected(got, expected) => Fault::Unexpected(got@, expected@),
            ParseErrorKind::UnexpectedEol(expected) => Fault::UnexpectedEol(expected@),
            ParseErrorKind::BadNumber(got) => Fault::BadNumber(got@),
            ParseErrorKind::BadIdentifier(got) => Fault::BadIdentifier(got@),
        }
    }
}

/// What an error says.
pub open spec fn failure_of(e: ParseError) -> Failure {
    Failure { line: e.line@, line_no: e.line_no, kind: e.kind@ }
}

/// Whether `word` is an identifier: a letter, and letters and numbers after
/// it.
pub open spec fn is_identifier(word: Seq<Mark>) -> bool {
    &&& word.len() > 0
    &&& word[0].letter
    &&& forall|i: int| 1 <= i < word.len() ==> (#[trigger] word[i]).letter_or_number
}

/// The word at index `i`, or the complaint that the line ends where
/// `section` was expected.
pub open spec fn word_at(words: Seq<Seq<Mark>>, i: int, section: Seq<char>) -> Result<
    Seq<Mark>,
    Fault,
> {
    if i < words.len() {
        Ok(words[i])
    } else {
        Err(Fault::UnexpectedEol(section))
    }
}

/// The identifier at index `i`.
pub open spec fn id_at(words: Seq<Seq<Mark>>, i: int) -> Result<Seq<char>, Fault> {
    match word_at(words, i, "identifier"@) {
        Ok(word) => if is_identifier(word) {
            Ok(spelling(word))
        } else {
            Err(Fault::BadIdentifier(spelling(word)))
        },
        Err(e) => Err(e),
    }
}

/// The number at index `i`.
pub open spec fn number_at(words: Seq<Seq<Mark>>, i: int) -> Result<i32, Fault> {
    match word_at(words, i, "number"@) {
        Ok(word) => match parsed_number(spelling(word)) {
            Some(v) => Ok(v),
            None => Err(Fault::BadNumber(spelling(word))),
        },
        Err(e) => Err(e),
    }
}

/// Nothing where the word at index `i` is `what`, else a complaint.
pub open spec fn sign_at(words: Seq<Seq<Mark>>, i: int, what: Seq<char>) -> Result<(), Fault> {
    match word_at(words, i, what) {
        Ok(word) => if spelling(word) != what {
            Err(Fault::Unexpected(spelling(word), what))
        } else {
            Ok(())
        },
        Err(e) => Err(e),
    }
}

/// The vertex that the words after the first one declare.
pub open spec fn vertex_of(words: Seq<Seq<Mark>>) -> Result<ExprView, Fault> {
    match id_at(words, 1) {
        Err(e) => Err(e),
        Ok(id) => match sign_at(words, 2, "="@) {
            Err(e) => Err(e),
            Ok(_) => match number_at(words, 3) {
                Err(e) => Err(e),
                Ok(x) => match number_at(words, 4) {
                    Err(e) => Err(e),
                    Ok(y) => match number_at(words, 5) {
                        Err(e) => Err(e),
                        Ok(z) => Ok(ExprView::Vertex(id, Vector3 { x, y, z })),
                    },
                },
            },
        },
    }
}

/// The line that the words after the first one name.
pub open spec fn line_of(words: Seq<Seq<Mark>>) -> Result<ExprView, Fault> {
    match id_at(words, 1) {
        Err(e) => Err(e),
        Ok(v0) => match id_at(words, 2) {
            Err(e) => Err(e),
            Ok(v1) => Ok(ExprView::Line(v0, v1)),
        },
    }
}

/// The triangle that the words after the first one name.
pub open spec fn triangle_of(words: Seq<Seq<Mark>>) -> Result<ExprView, Fault> {
    match id_at(words, 1) {
        Err(e) => Err(e),
        Ok(v0) => match id_at(words, 2) {
            Err(e) => Err(e),
            Ok(v1) => match id_at(words, 3) {
                Err(e) => Err(e),
                Ok(v2) => Ok(ExprView::Triangle(v0, v1, v2)),
            },
        },
    }
}

/// `expr` where it ends with the line, after `n` words, else a complaint
/// about the word after it.
pub open spec fn ended(words: Seq<Seq<Mark>>, n: int, expr: Result<ExprView, Fault>) -> Result<
    ExprView,
    Fault,
> {
    match expr {
        Ok(e) => if n < words.len() {
            Err(Fault::Unexpected(spelling(words[n]), "<eol>"@))
        } else {
            Ok(e)
        },
        Err(e) => Err(e),
    }
}

/// Whether `word` begins a comment.
pub open spec fn is_comment(word: Seq<Mark>) -> bool {
    word.len() > 0 && word[0].c == '#'
}

/// What the words of a line say: nothing where there is no word or the first
/// one begins a comment, else an expression or a complaint.
pub open spec fn expr_of(words: Seq<Seq<Mark>>) -> Option<Result<ExprView, Fault>> {
    if words.len() == 0 || is_comment(words[0]) {
        None
    } else if spelling(words[0]) == "vertex"@ {
        Some(ended(words, 6, vertex_of(words)))
    } else if spelling(words[0]) == "line"@ {
        Some(ended(words, 3, line_of(words)))
    } else if spelling(words[0]) == "triangle"@ {
        Some(ended(words, 4, triangle_of(words)))
    } else {
        Some(Err(Fault::Unexpected(spelling(words[0]), "vertex | line | triangle"@)))
    }
}

/// What the words `words` of the line `line` say: nothing, a statement or an
/// error.
pub open spec fn statement_from(words: Seq<Seq<Mark>>, line: Seq<char>, line_no: usize) -> Option<
    Result<StatementView, Failure>,
> {
    match expr_of(words) {
        None => None,
        Some(Ok(expr)) => Some(Ok(StatementView { line, line_no, expr })),
        Some(Err(kind)) => Some(Err(Failure { line, line_no, kind })),
    }
}

/// What a line says: what its words say, with every character of them
/// known as a letter or a number as far as it is one.
pub open spec fn statement_of(line: Seq<char>, line_no: usize) -> Option<
    Result<StatementView, Failure>,
> {
    statement_from(marked_words(words_of(line)), line, line_no)
}

/// What lines say: their statements in order, or the error of the first
/// line that has one.
pub open spec fn statements_of(lines: Seq<Seq<char>>) -> Result<Seq<StatementView>, Failure>
    decreases lines.len(),
{
    if lines.len() == 0 {
        Ok(Seq::empty())
    } else {
        match statements_of(lines.drop_last()) {
            Err(e) => Err(e),
            Ok(statements) => match statement_of(lines.last(), (lines.len() - 1) as usize) {
                None => Ok(statements),
                Some(Ok(statement)) => Ok(statements.push(statement)),
                Some(Err(e)) => Err(e),
            },
        }
    }
}

/// What a text says.
pub open spec fn parsed_module(input: Seq<char>) -> Result<Seq<StatementView>, Failure> {
    statements_of(lines_of(input))
}

/// Reads a module: one statement for each line that is neither empty nor a
/// comment, or the error of the first line that is no statement.
pub fn parse_module(input: &str) -> (r: Result<Module, ParseError>)
    ensures
        match r {
            Ok(module) => parsed_module(input@) == Ok::<Seq<StatementView>, Failure>(
                module.statement_views(),
            ) && module.input@ == input@,
            Err(e) => parsed_module(input@) == Err::<Seq<StatementView>, Failure>(failure_of(e)),
        },
{
    let chars = chars_of(input);
    let lines = split_lines(&chars);
    let mut stmts: Vec<Statement> = Vec::new();
    let ghost all = texts(lines@);
    let ghost mut seen: Seq<StatementView> = Seq::empty();
    let mut i: usize = 0;
    while i < lines.len()
        invariant
            i <= lines@.len(),
            all == texts(lines@),
            all == lines_of(input@),
            seen == Seq::new(stmts@.len(), |k: int| stmts@[k]@),
            statements_of(all.take(i as int)) == Ok::<Seq<StatementView>, Failure>(seen),
        decreases lines@.len() - i,
    {
        proof {
            assert(all.take(i + 1).drop_last() =~= all.take(i as int));
            assert(all.take(i + 1).last() == lines@[i as int]@);
        }
        let words = mark_words(&split_words(&lines[i]));
        match parse_words(&lines[i], i, words) {
            None => {},
            Some(Ok(statement)) => {
                proof {
                    seen = seen.push(statement@);
                }
                stmts.push(statement);
                assert(seen =~= Seq::new(stmts@.len(), |k: int| stmts@[k]@));
            },
            Some(Err(e)) => {
                proof {
                    assert(statements_of(all.take(i + 1)) == Err::<Seq<StatementView>, Failure>(
                        failure_of(e),
                    ));
                    lemma_first_failure(all, i as int);
                }
                return Err(e);
            },
        }
        i += 1;
    }
    assert(all.take(lines@.len() as int) =~= all);

    Ok(Module { input: String::from_str(input), statements: stmts })
}

/// What the words `words` of the line `raw_line` with the number `line_no`
/// say: nothing where there is no word or the first one begins a comment,
/// else a statement or the error of the first word that is out of place.
/// The words are taken as they are marked: a word is an identifier where its
/// first character is marked as a letter and the others as letters or
/// numbers.
pub fn parse_words(raw_line: &Vec<char>, line_no: usize, words: Vec<Vec<Mark>>) -> (r: Option<
    Result<Statement, ParseError>,
>)
    ensures
        match r {
            None => statement_from(marks(words@), raw_line@, line_no).is_none(),
            Some(Ok(statement)) => statement_from(marks(words@), raw_line@, line_no) == Some(
                Ok::<StatementView, Failure>(statement@),
            ),
            Some(Err(e)) => statement_from(marks(words@), raw_line@, line_no) == Some(
                Err::<StatementView, Failure>(failure_of(e)),
            ),
        },
{
    let mut parser = LineParser::from_words(raw_line, line_no, words);
    parser.parse()
}

/// Once a line has an error, the lines after it do not count.
pub proof fn lemma_first_failure(lines: Seq<Seq<char>>, i: int)
    requires
        0 <= i < lines.len(),
        statements_of(lines.take(i + 1)) is Err,
    ensures
        statements_of(lines) == statements_of(lines.take(i + 1)),
    decreases lines.len(),
{
    if i + 1 < lines.len() {
        assert(lines.drop_last().take(i + 1) =~= lines.take(i + 1));
        lemma_first_failure(lines.drop_last(), i);
    } else {
        assert(lines.take(i + 1) =~= lines);
    }
}

/// The words of a line and the place of the word that comes next.
#[derive(Debug)]
pub struct LineParser<'input> {
    raw_line: &'input Vec<char>,
    line_no: usize,
    line: Vec<Vec<Mark>>,
    at: usize,
}

impl<'input> LineParser<'input> {
    /// The words of the line.
    pub closed spec fn words(&self) -> Seq<Seq<Mark>> {
        marks(self.line@)
    }

    /// The index of the word that comes next.
    pub closed spec fn place(&self) -> int {
        self.at as int
    }

    /// The characters of the line.
    pub closed spec fn raw(&self) -> Seq<char> {
        self.raw_line@
    }

    /// The number of the line.
    pub closed spec fn number(&self) -> usize {
        self.line_no
    }

    /// The parser is at a word or at the end of the line.
    pub closed spec fn wf(&self) -> bool {
        self.at <= self.line@.len()
    }

    /// The parser reads the same line as `other`.
    pub open spec fn same_line(&self, other: &Self) -> bool {
        &&& self.words() == other.words()
        &&& self.raw() == other.raw()
        &&& self.number() == other.number()
        &&& self.wf()
    }

    /// Whether `e` is the error of kind `kind` on the line of the parser.
    pub open spec fn fails_with(&self, e: ParseError, kind: Fault) -> bool {
        failure_of(e) == (Failure { line: self.raw(), line_no: self.number(), kind })
    }

    /// A parser for the line `raw_line` with the number `line_no`, before
    /// its first word.
    pub fn new(raw_line: &'input Vec<char>, line_no: usize) -> (parser: Self)
        ensures
            parser.wf(),
            parser.words() == marked_words(words_of(raw_line@)),
            parser.place() == 0,
            parser.raw() == raw_line@,
            parser.number() == line_no,
    {
        let words = split_words(raw_line);
        LineParser { raw_line, line_no, line: mark_words(&words), at: 0 }
    }

    /// A parser for the words `words` of the line `raw_line` with the number
    /// `line_no`, before the first word.
    pub fn from_words(raw_line: &'input Vec<char>, line_no: usize, words: Vec<Vec<Mark>>) -> (parser:
        Self)
        ensures
            parser.wf(),
            parser.words() == marks(words@),
            parser.place() == 0,
            parser.raw() == raw_line@,
            parser.number() == line_no,
    {
        LineParser { raw_line, line_no, line: words, at: 0 }
    }

    /// The index of the next word, which the parser moves past; the
    /// complaint that `section` was expected where no word is left.
    pub fn next(&mut self, section: &str) -> (r: Result<usize, ParseError>)
        requires
            old(self).wf(),
        ensures
            final(self).same_line(old(self)),
            match r {
                Ok(i) => {
                    &&& i == old(self).place()
                    &&& i < old(self).words().len()
                    &&& final(self).place() == i + 1
                },
                Err(e) => {
                    &&& old(self).place() >= old(self).words().len()
                    &&& final(self).place() == old(self).place()
                    &&& old(self).fails_with(e, Fault::UnexpectedEol(section@))
                },
            },
    {
        if self.at < self.line.len() {
            let i = self.at;
            self.at += 1;
            Ok(i)
        } else {
            Err(self.error(ParseErrorKind::UnexpectedEol(String::from_str(section))))
        }
    }

    /// The statement that the words of the line make, if they make one.
    pub fn parse(&mut self) -> (r: Option<Result<Statement, ParseError>>)
        requires
            old(self).wf(),
            old(self).place() == 0,
        ensures
            match r {
                None => statement_from(
                    old(self).words(),
                    old(self).raw(),
                    old(self).number(),
                ).is_none(),
                Some(Ok(statement)) => statement_from(
                    old(self).words(),
                    old(self).raw(),
                    old(self).number(),
                ) == Some(Ok::<StatementView, Failure>(statement@)),
                Some(Err(e)) => statement_from(
                    old(self).words(),
                    old(self).raw(),
                    old(self).number(),
                ) == Some(Err::<StatementView, Failure>(failure_of(e))),
            },
    {
        let section = "vertex | line | triangle";

        let ty = match self.next(section) {
            Ok(ty) => ty,
            Err(_) => {
                return None;
            },
        };
        let word = letters(&self.line[ty]);
        assert(word@ == spelling(self.words()[ty as int]));

        // comments should probably added to the ast
        if word.len() > 0 && word[0] == '#' {
            return None;
        }
        let res = if reads(&word, "vertex") {
            self.parse_vertex()
        } else if reads(&word, "line") {
            self.parse_line()
        } else if reads(&word, "triangle") {
            self.parse_triangle()
        } else {
            Err(self.unexpected(ty, section))
        };

        match res {
            Ok(expr) => {
                if self.at < self.line.len() {
                    Some(Err(self.unexpected(self.at, "<eol>")))
                } else {
                    Some(
                        Ok(
                            Statement {
                                expr,
                                line: text_of(self.raw_line),
                                line_no: self.line_no,
                            },
                        ),
                    )
                }
            },
            Err(err) => Some(Err(err)),
        }
    }

    /// The vertex that the words after `vertex` declare.
    pub fn parse_vertex(&mut self) -> (r: Result<Expr, ParseError>)
        requires
            old(self).wf(),
            old(self).place() == 1,
        ensures
            final(self).same_line(old(self)),
            match r {
                Ok(expr) => vertex_of(old(self).words()) == Ok::<ExprView, Fault>(expr@)
                    && final(self).place() == 6,
                Err(e) => vertex_of(old(self).words()) matches Err(kind) && old(self).fails_with(
                    e,
                    kind,
                ),
            },
    {
        let id = self.parse_id()?;

        self.eat("=")?;

        let x = self.parse_number()?;
        let y = self.parse_number()?;
        let z = self.parse_number()?;

        Ok(Expr::Vertex(id, Vector3::new(x, y, z)))
    }

    /// The line that the words after `line` name.
    pub fn parse_line(&mut self) -> (r: Result<Expr, ParseError>)
        requires
            old(self).wf(),
            old(self).place() == 1,
        ensures
            final(self).same_line(old(self)),
            match r {
                Ok(expr) => line_of(old(self).words()) == Ok::<ExprView, Fault>(expr@)
                    && final(self).place() == 3,
                Err(e) => line_of(old(self).words()) matches Err(kind) && old(self).fails_with(
                    e,
                    kind,
                ),
            },
    {
        let v0 = self.parse_id()?;
        let v1 = self.parse_id()?;

        Ok(Expr::Line(v0, v1))
    }

    /// The triangle that the words after `triangle` name.
    pub fn parse_triangle(&mut self) -> (r: Result<Expr, ParseError>)
        requires
            old(self).wf(),
            old(self).place() == 1,
        ensures
            final(self).same_line(old(self)),
            match r {
                Ok(expr) => triangle_of(old(self).words()) == Ok::<ExprView, Fault>(expr@)
                    && final(self).place() == 4,
                Err(e) => triangle_of(old(self).words()) matches Err(kind)
                    && old(self).fails_with(e, kind),
            },
    {
        let v0 = self.parse_id()?;
        let v1 = self.parse_id()?;
        let v2 = self.parse_id()?;

        Ok(Expr::Triangle(v0, v1, v2))
    }

    /// The identifier that comes next.
    pub fn parse_id(&mut self) -> (r: Result<String, ParseError>)
        requires
            old(self).wf(),
        ensures
            final(self).same_line(old(self)),
            match r {
                Ok(id) => id_at(old(self).words(), old(self).place()) == Ok::<Seq<char>, Fault>(
                    id@,
                ) && final(self).place() == old(self).place() + 1,
                Err(e) => id_at(old(self).words(), old(self).place()) matches Err(kind)
                    && old(self).fails_with(e, kind),
            },
    {
        let i = self.next("identifier")?;
        let id = &self.line[i];
        assert(id@ == self.words()[i as int]);

        let mut valid = id.len() > 0 && id[0].letter;
        let mut k: usize = 1;
        while valid && k < id.len()
            invariant
                1 <= k,
                valid ==> k <= id@.len() && id@.len() > 0 && id@[0].letter,
                valid ==> forall|j: int| 1 <= j < k ==> (#[trigger] id@[j]).letter_or_number,
                !valid ==> !is_identifier(id@),
            decreases id@.len() - k + (if valid { 1int } else { 0int }),
        {
            if !id[k].letter_or_number {
                valid = false;
            } else {
                k += 1;
            }
        }

        let name = letters(id);
        if valid {
            Ok(text_of(&name))
        } else {
            Err(self.error(ParseErrorKind::BadIdentifier(text_of(&name))))
        }
    }

    /// The number that comes next.
    pub fn parse_number(&mut self) -> (r: Result<i32, ParseError>)
        requires
            old(self).wf(),
        ensures
            final(self).same_line(old(self)),
            match r {
                Ok(v) => number_at(old(self).words(), old(self).place()) == Ok::<i32, Fault>(v)
                    && final(self).place() == old(self).place() + 1,
                Err(e) => number_at(old(self).words(), old(self).place()) matches Err(kind)
                    && old(self).fails_with(e, kind),
            },
    {
        let i = self.next("number")?;
        let num = letters(&self.line[i]);
        assert(num@ == spelling(self.words()[i as int]));
        match parse_number(&num) {
            Some(v) => Ok(v),
            None => Err(self.error(ParseErrorKind::BadNumber(text_of(&num)))),
        }
    }

    /// Moves past the next word where it is `what`.
    pub fn eat(&mut self, what: &str) -> (r: Result<(), ParseError>)
        requires
            old(self).wf(),
        ensures
            final(self).same_line(old(self)),
            match r {
                Ok(_) => sign_at(old(self).words(), old(self).place(), what@) is Ok
                    && final(self).place() == old(self).place() + 1,
                Err(e) => sign_at(old(self).words(), old(self).place(), what@) matches Err(kind)
                    && old(self).fails_with(e, kind),
            },
    {
        let p = self.next(what)?;
        let word = letters(&self.line[p]);
        assert(word@ == spelling(self.words()[p as int]));

        if !reads(&word, what) {
            Err(self.unexpected(p, what))
        } else {
            Ok(())
        }
    }

    /// The complaint that the word at index `got` stands where `expected`
    /// was expected.
    pub fn unexpected(&self, got: usize, expected: &str) -> (e: ParseError)
        requires
            got < self.words().len(),
        ensures
            self.fails_with(e, Fault::Unexpected(spelling(self.words()[got as int]), expected@)),
    {
        let word = letters(&self.line[got]);
        assert(word@ == spelling(self.words()[got as int]));
        self.error(
            ParseErrorKind::Unexpected(
                text_of(&word),
                String::from_str(expected),
            ),
        )
    }

    /// The error of kind `kind` on this line.
    pub fn error(&self, kind: ParseErrorKind) -> (e: ParseError)
        ensures
            self.fails_with(e, kind@),
    {
        Error {
            line: text_of(self.raw_line),
            line_no: self.line_no,
            kind,
        }
    }
}

/// What an error of the kind `kind` says.
pub open spec fn message_of(kind: Fault) -> Seq<char> {
    match kind {
        Fault::UnexpectedEol(expected) => "expected "@ + expected + ", found end of line"@,
        Fault::Unexpected(got, expected) => "expected "@ + expected + ", found `"@ + got + "`"@,
        Fault::BadIdentifier(got) => "`"@ + got + "` is not a valid identifier"@,
        Fault::BadNumber(got) => "`"@ + got + "` is not a valid number"@,
    }
}

impl ParseErrorKind {
    /// What the error says, for a reader.
    pub fn message(&self) -> (m: String)
        ensures
            m@ == message_of(self@),
    {
        match self {
            ParseErrorKind::UnexpectedEol(expected) => String::from_str("expected ").concat(
                expected.as_str(),
            ).concat(", found end of line"),
            ParseErrorKind::Unexpected(got, expected) => String::from_str("expected ").concat(
                expected.as_str(),
            ).concat(", found `").concat(got.as_str()).concat("`"),
            ParseErrorKind::BadIdentifier(got) => String::from_str("`").concat(
                got.as_str(),
            ).concat("` is not a valid identifier"),
            ParseErrorKind::BadNumber(got) => String::from_str("`").concat(got.as_str()).concat(
                "` is not a valid number",
            ),
        }
    }
}

} // verus!

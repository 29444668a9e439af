//! The lines of a text, the words of a line, and what is known of the
//! characters of a word.

use crate::text::{is_letter, is_letter_or_number, is_space};
use vstd::prelude::*;

verus! {

/// What was read of a text: the parts that are complete, and the part that
/// is still open.
pub struct Scan {
    pub done: Seq<Seq<char>>,
    pub open: Option<Seq<char>>,
}

/// The open part of `scan`, which is empty where none is open.
pub open spec fn open_part(scan: Scan) -> Seq<char> {
    match scan.open {
        Some(part) => part,
        None => Seq::empty(),
    }
}

/// The parts of `scan`, the open one last.
pub open spec fn parts(scan: Scan) -> Seq<Seq<char>> {
    match scan.open {
        Some(part) => scan.done.push(part),
        None => scan.done,
    }
}

/// `line` without the carriage return at its end, if it has one there.
pub open spec fn without_return(line: Seq<char>) -> Seq<char> {
    if line.len() > 0 && line.last() == '\r' {
        line.drop_last()
    } else {
        line
    }
}

/// The lines of `text` as they stand after its last character: a line feed
/// completes the open line, or an empty one, and any other character goes
/// to the open line.
pub open spec fn scan_lines(text: Seq<char>) -> Scan
    decreases text.len(),
{
    if text.len() == 0 {
        Scan { done: Seq::empty(), open: None }
    } else {
        let before = scan_lines(text.drop_last());
        if text.last() == '\n' {
            Scan { done: before.done.push(without_return(open_part(before))), open: None }
        } else {
            Scan { done: before.done, open: Some(open_part(before).push(text.last())) }
        }
    }
}

/// The lines of `text`. A line ends before a line feed, or before a carriage
/// return and a line feed, or at the end of the text; after the last line
/// feed there is a line only where there is a character.
pub open spec fn lines_of(text: Seq<char>) -> Seq<Seq<char>> {
    parts(scan_lines(text))
}

/// The words of `line` as they stand after its last character: white space
/// completes the open word, and any other character goes to the open word.
pub open spec fn scan_words(line: Seq<char>) -> Scan
    decreases line.len(),
{
    if line.len() == 0 {
        Scan { done: Seq::empty(), open: None }
    } else {
        let before = scan_words(line.drop_last());
        if is_space(line.last()) {
            Scan { done: parts(before), open: None }
        } else {
            Scan { done: before.done, open: Some(open_part(before).push(line.last())) }
        }
    }
}

/// The words of `line`: its longest runs of characters that are no white
/// space.
pub open spec fn words_of(line: Seq<char>) -> Seq<Seq<char>> {
    parts(scan_words(line))
}

/// The texts of `v`.
pub open spec fn texts(v: Seq<Vec<char>>) -> Seq<Seq<char>> {
    Seq::new(v.len(), |i: int| v[i]@)
}

/// A character with what is known of it: whether it is a letter, and
/// whether it is a letter or a number.
#[derive(Debug, PartialEq, Eq, Clone, Copy, Structural)]
pub struct Mark {
    pub c: char,
    pub letter: bool,
    pub letter_or_number: bool,
}

/// The character `c` with what `char::is_alphabetic` and
/// `char::is_alphanumeric` answer of it.
pub open spec fn mark_of(c: char) -> Mark {
    Mark { c, letter: is_letter(c), letter_or_number: is_letter_or_number(c) }
}

/// The characters of `word`, each with what is known of it.
pub open spec fn marked(word: Seq<char>) -> Seq<Mark> {
    Seq::new(word.len(), |i: int| mark_of(word[i]))
}

/// The words of `words`, each character with what is known of it.
pub open spec fn marked_words(words: Seq<Seq<char>>) -> Seq<Seq<Mark>> {
    Seq::new(words.len(), |i: int| marked(words[i]))
}

/// The characters that `word` is made of.
pub open spec fn spelling(word: Seq<Mark>) -> Seq<char> {
    Seq::new(word.len(), |i: int| word[i].c)
}

/// The words of `v`.
pub open spec fn marks(v: Seq<Vec<Mark>>) -> Seq<Seq<Mark>> {
    Seq::new(v.len(), |i: int| v[i]@)
}

/// A word has a character.
pub proof fn lemma_words_not_empty(line: Seq<char>)
    ensures
        forall|i: int| 0 <= i < words_of(line).len() ==> (#[trigger] words_of(line)[i]).len() > 0,
        scan_words(line).open matches Some(word) ==> word.len() > 0,
        forall|i: int|
            0 <= i < scan_words(line).done.len() ==> (#[trigger] scan_words(line).done[i]).len()
                > 0,
    decreases line.len(),
{
    if line.len() > 0 {
        lemma_words_not_empty(line.drop_last());
    }
}

/// Splits `text` into its lines.
pub fn split_lines(text: &Vec<char>) -> (lines: Vec<Vec<char>>)
    ensures
        texts(lines@) == lines_of(text@),
{
    let mut lines: Vec<Vec<char>> = Vec::new();
    let mut line: Vec<char> = Vec::new();
    let mut open = false;
    let mut i: usize = 0;
    while i < text.len()
        invariant
            i <= text@.len(),
            texts(lines@) == scan_lines(text@.take(i as int)).done,
            open == scan_lines(text@.take(i as int)).open.is_some(),
            line@ == open_part(scan_lines(text@.take(i as int))),
        decreases text@.len() - i,
    {
        proof {
            assert(text@.take(i + 1).drop_last() =~= text@.take(i as int));
        }
        let c = text[i];
        if c == '\n' {
            let n = line.len();
            if n > 0 && line[n - 1] == '\r' {
                line.pop();
            }
            let ghost before = texts(lines@);
            let ghost finished = line@;
            lines.push(line);
            assert(texts(lines@) =~= before.push(finished));
            line = Vec::new();
            open = false;
        } else {
            line.push(c);
            open = true;
        }
        i += 1;
    }
    assert(text@.take(text@.len() as int) =~= text@);
    if open {
        let ghost before = texts(lines@);
        let ghost finished = line@;
        lines.push(line);
        assert(texts(lines@) =~= before.push(finished));
    }
    lines
}

/// Splits `line` into its words.
pub fn split_words(line: &Vec<char>) -> (words: Vec<Vec<char>>)
    ensures
        texts(words@) == words_of(line@),
{
    let mut words: Vec<Vec<char>> = Vec::new();
    let mut word: Vec<char> = Vec::new();
    let mut i: usize = 0;
    while i < line.len()
        invariant
            i <= line@.len(),
            texts(words@) == scan_words(line@.take(i as int)).done,
            word@.len() > 0 <==> scan_words(line@.take(i as int)).open.is_some(),
            word@ == open_part(scan_words(line@.take(i as int))),
        decreases line@.len() - i,
    {
        proof {
            assert(line@.take(i + 1).drop_last() =~= line@.take(i as int));
            lemma_words_not_empty(line@.take(i as int));
        }
        let c = line[i];
        if c.is_whitespace() {
            if word.len() > 0 {
                let ghost before = texts(words@);
                let ghost finished = word@;
                words.push(word);
                assert(texts(words@) =~= before.push(finished));
                word = Vec::new();
            }
        } else {
            word.push(c);
        }
        i += 1;
    }
    assert(line@.take(line@.len() as int) =~= line@);
    if word.len() > 0 {
        let ghost before = texts(words@);
        let ghost finished = word@;
        words.push(word);
        assert(texts(words@) =~= before.push(finished));
    }
    words
}

/// Finds out of every character of `word` whether it is a letter, and
/// whether it is a letter or a number.
pub fn mark_word(word: &Vec<char>) -> (r: Vec<Mark>)
    ensures
        r@ == marked(word@),
{
    let mut r: Vec<Mark> = Vec::with_capacity(word.len());
    let mut i: usize = 0;
    while i < word.len()
        invariant
            i <= word@.len(),
            r@.len() == i,
            forall|j: int| 0 <= j < i ==> r@[j] == mark_of(#[trigger] word@[j]),
        decreases word@.len() - i,
    {
        let c = word[i];
        let letter = c.is_alphabetic();
        let letter_or_number = c.is_alphanumeric();
        let mark = Mark { c, letter, letter_or_number };
        assert(mark == mark_of(c));
        let ghost before = r@;
        r.push(mark);
        assert(r@ == before.push(mark));
        i += 1;
    }
    assert(r@ =~= marked(word@));
    r
}

/// Finds out of every character of every word whether it is a letter, and
/// whether it is a letter or a number.
pub fn mark_words(words: &Vec<Vec<char>>) -> (r: Vec<Vec<Mark>>)
    ensures
        marks(r@) == marked_words(texts(words@)),
{
    let mut r: Vec<Vec<Mark>> = Vec::with_capacity(words.len());
    let mut i: usize = 0;
    while i < words.len()
        invariant
            i <= words@.len(),
            marks(r@) == marked_words(texts(words@).take(i as int)),
        decreases words@.len() - i,
    {
        let ghost before = marks(r@);
        let word = mark_word(&words[i]);
        let ghost added = word@;
        r.push(word);
        assert(marks(r@) =~= before.push(added));
        assert(marks(r@) =~= marked_words(texts(words@).take(i + 1)));
        i += 1;
    }
    assert(texts(words@).take(words@.len() as int) =~= texts(words@));
    r
}

/// The characters that `word` is made of.
pub fn letters(word: &Vec<Mark>) -> (r: Vec<char>)
    ensures
        r@ == spelling(word@),
{
    let mut r: Vec<char> = Vec::with_capacity(word.len());
    let mut i: usize = 0;
    while i < word.len()
        invariant
            i <= word@.len(),
            r@.len() == i,
            forall|j: int| 0 <= j < i ==> r@[j] == (#[trigger] word@[j]).c,
        decreases word@.len() - i,
    {
        r.push(word[i].c);
        i += 1;
    }
    assert(r@ =~= spelling(word@));
    r
}

} // verus!

//! The data shared by the scanners: the positioned line buffer, the lexical
//! artifacts they produce and the structured error they report.

use vstd::prelude::*;
use crate::text::{chars_of, string_of};

verus! {

/// Source name used when a line is created without one.
pub const DEFAULT_PATH: &'static str = "main.ml";

/// The four delimiter pairs a group can be bounded by.
#[derive(Clone, Copy, Debug, PartialEq, Eq)]
pub enum Pairs {
    Parentheses,
    Brackets,
    Braces,
    Angles,
}

/// What the per-character string check asks of the scanning loop.
#[derive(Clone, Copy, Debug, PartialEq, Eq)]
pub enum LoopControl {
    /// Go on with the rest of the loop body.
    Nothing,
    /// Leave the loop: the literal is complete.
    Break,
    /// Start the next iteration: the character has been dealt with.
    Continue,
    /// Stop scanning with a failure.
    Return,
}

/// One fragment of a line: the text between a delimiter pair (`pairs` is `Some`),
/// or plain text lying outside any pair (`pairs` is `None`).
#[derive(Debug)]
pub struct Group {
    pub body: String,
    pub pairs: Option<Pairs>,
}

/// One source line as a buffer of characters with a read position.
#[derive(Debug)]
pub struct Lines {
    pub vector_char: Vec<char>,
    pub length: usize,
    pub path: String,
    pub line: String,
    pub rows: usize,
    pub cols: usize,
}

/// A decoded string literal with its decoded and its source length.
#[derive(Debug)]
pub struct StringUTF8 {
    pub string_utf8: String,
    pub string_length: usize,
    pub original_length: usize,
}

/// A structural scanning failure: a stable numeric code and a readable message.
#[derive(Debug)]
pub struct ParseError {
    pub status_code: usize,
    pub message: String,
}

/// The part of `s` that starts at `start` and holds at most `length` characters:
/// as much as the buffer has, down to nothing when `start` lies beyond its end.
pub open spec fn bounded_slice(s: Seq<char>, start: int, length: int) -> Seq<char> {
    let end = if start + length < s.len() {
        start + length
    } else {
        s.len() as int
    };
    if 0 <= start <= end {
        s.subrange(start, end)
    } else {
        Seq::empty()
    }
}

impl Lines {
    /// The cached length is the buffer's length and the kept line is the buffer's text.
    pub open spec fn wf(&self) -> bool {
        &&& self.length == self.vector_char@.len()
        &&& self.line@ == self.vector_char@
    }

    /// The read position lies inside the line or at its end.
    pub open spec fn in_bounds(&self) -> bool {
        self.cols <= self.length
    }

    /// `self` is `before` but for the read position.
    pub open spec fn moved_from(&self, before: &Lines) -> bool {
        &&& self.vector_char == before.vector_char
        &&& self.length == before.length
        &&& self.path == before.path
        &&& self.line == before.line
        &&& self.rows == before.rows
    }

    /// A line at row 0, column 0; without a path it is named `DEFAULT_PATH`.
    pub fn new(path: Option<&str>, line: &str) -> (r: Lines)
        ensures
            r.wf(),
            r.vector_char@ == line@,
            r.path@ == (match path {
                Some(p) => p@,
                None => DEFAULT_PATH@,
            }),
            r.rows == 0,
            r.cols == 0,
            r.in_bounds(),
    {
        let vector_char = chars_of(line);
        let length = vector_char.len();
        let name = match path {
            Some(p) => p,
            None => DEFAULT_PATH,
        };
        Lines {
            vector_char,
            length,
            path: name.to_owned(),
            line: line.to_owned(),
            rows: 0,
            cols: 0,
        }
    }

    /// A line with an explicit path, row and column.
    pub fn from(path: &str, line: &str, rows: usize, cols: usize) -> (r: Lines)
        ensures
            r.wf(),
            r.vector_char@ == line@,
            r.path@ == path@,
            r.rows == rows,
            r.cols == cols,
    {
        let vector_char = chars_of(line);
        let length = vector_char.len();
        Lines { vector_char, length, path: path.to_owned(), line: line.to_owned(), rows, cols }
    }

    /// The text from `start` on, at most `length` characters of it (`None`: as many as
    /// the line has). Never fails: out of range means less text, down to none.
    pub fn slice_lines(&self, start: usize, length: Option<usize>) -> (r: String)
        requires
            self.wf(),
        ensures
            r@ == bounded_slice(
                self.vector_char@,
                start as int,
                match length {
                    Some(n) => n as int,
                    None => self.length as int,
                },
            ),
    {
        let total = self.vector_char.len();
        let wanted = match length {
            Some(n) => n,
            None => total,
        };
        if start > total {
            return String::new();
        }
        let end = if wanted < total - start {
            start + wanted
        } else {
            total
        };
        string_of(&self.vector_char, start, end)
    }
}

} // verus!

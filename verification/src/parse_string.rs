//! Decoding of the first string literal of a plain line, and the bounded slice of a
//! character buffer.

use vstd::prelude::*;
use crate::decoder::{Scan, error_text, scan_string};
use crate::init::{Lines, ParseError, StringUTF8};
use crate::laws::lemma_raw_readable;
use crate::text::string_of;

verus! {

/// A decoded string literal with its decoded and its source length.
#[derive(Debug)]
pub struct NewString {
    pub new_string: String,
    pub string_length: usize,
    pub original_length: usize,
}

/// The part of `v` that starts at `start` and holds at most `length` characters,
/// within the first `vector_length` of them; a `length` of 0 asks for all there is.
/// Empty where `start` lies beyond that bound or the bound beyond the buffer.
pub open spec fn sliced(v: Seq<char>, vector_length: int, start: int, length: int) -> Seq<char> {
    let wanted = if length == 0 {
        vector_length
    } else {
        length
    };
    let end = if start + wanted < vector_length {
        start + wanted
    } else {
        vector_length
    };
    if 0 <= start <= end <= v.len() {
        v.subrange(start, end)
    } else {
        Seq::empty()
    }
}

/// The text of `vector_char` from `start` on, at most `length` characters of it and
/// not beyond `vector_length`; never fails, and gives less text, down to none, where
/// the request reaches out of range.
pub fn slice_vector_chars(
    vector_char: &Vec<char>,
    vector_length: usize,
    start: usize,
    length: usize,
) -> (r: String)
    ensures
        r@ == sliced(vector_char@, vector_length as int, start as int, length as int),
{
    let wanted = if length == 0 {
        vector_length
    } else {
        length
    };
    if start > vector_length {
        return String::new();
    }
    let end = if wanted < vector_length - start {
        start + wanted
    } else {
        vector_length
    };
    if end > vector_char.len() {
        return String::new();
    }
    string_of(vector_char, start, end)
}

/// Whether `r` is what the scan `scan` asks for.
pub open spec fn decoded_as(r: Option<Result<NewString, ParseError>>, scan: Scan) -> bool {
    match scan {
        Scan::Done { text, raw, at } => r matches Some(Ok(d)) && d.new_string@ == text
            && d.string_length == text.len() && d.original_length == raw,
        Scan::Fail { code, at } => r matches Some(Err(e)) && e.status_code == code && e.message@
            == error_text(code),
        Scan::Unreadable => r is None,
    }
}

fn decode(path: &str, line: &str, rows: usize, is_raw_string: bool) -> (r: Option<
    Result<NewString, ParseError>,
>)
    ensures
        decoded_as(r, scan_string(line@, 0, is_raw_string)),
{
    let mut lines = Lines::from(path, line, rows, 0);
    match StringUTF8::parse_checked(&mut lines, is_raw_string) {
        None => None,
        Some(Err(e)) => Some(Err(e)),
        Some(Ok(d)) => Some(
            Ok(
                NewString {
                    new_string: d.string_utf8,
                    string_length: d.string_length,
                    original_length: d.original_length,
                },
            ),
        ),
    }
}

/// Decodes the first string literal of `line`, escapes included. `None` where the
/// literal holds a `\u` or `\x` escape whose digit run writes no number.
pub fn parse_checked(path: &str, line: &str, rows: &usize) -> (r: Option<
    Result<NewString, ParseError>,
>)
    ensures
        decoded_as(r, scan_string(line@, 0, false)),
{
    decode(path, line, *rows, false)
}

/// Decodes the first string literal of `line`, escapes included.
pub fn parse(path: &str, line: &str, rows: &usize) -> (r: Result<NewString, ParseError>)
    requires
        scan_string(line@, 0, false) != Scan::Unreadable,
    ensures
        decoded_as(Some(r), scan_string(line@, 0, false)),
{
    match decode(path, line, *rows, false) {
        Some(r) => r,
        None => vstd::pervasive::unreached(),
    }
}

/// Decodes the first string literal of `line`, in which only `\"` is an escape.
pub fn parse_raw(path: &str, line: &str, rows: &usize) -> (r: Result<NewString, ParseError>)
    ensures
        decoded_as(Some(r), scan_string(line@, 0, true)),
{
    proof {
        lemma_raw_readable(line@, 0);
    }
    match decode(path, line, *rows, true) {
        Some(r) => r,
        None => vstd::pervasive::unreached(),
    }
}

} // verus!

//! Decoding of `"`-delimited string literals: the mathematical model of a scan and
//! the scanner that follows it.

use vstd::prelude::*;
use crate::init::{Lines, LoopControl, ParseError, StringUTF8, bounded_slice};
use crate::text::is_scalar;

verus! {

/// The character that the single-character escape `\c` stands for, if there is one.
pub open spec fn escape_of(c: char) -> Option<char> {
    if c == '0' {
        Some('\x00')
    } else if c == 'a' {
        Some('\x07')
    } else if c == 'b' {
        Some('\x08')
    } else if c == 'f' {
        Some('\x0C')
    } else if c == 'n' {
        Some('\n')
    } else if c == 'r' {
        Some('\r')
    } else if c == 's' {
        Some(' ')
    } else if c == 't' {
        Some('\t')
    } else if c == 'v' {
        Some('\x0B')
    } else if c == '\\' || c == '"' || c == '{' || c == '\'' || c == '}' {
        Some(c)
    } else {
        None
    }
}

/// The characters that may stand in the digit run of a `\u` or `\x` escape:
/// ASCII digits and ASCII letters.
pub open spec fn is_run_char(c: char) -> bool {
    ('0' <= c && c <= '9') || ('A' <= c && c <= 'Z') || ('a' <= c && c <= 'z')
}

/// How many characters of `w`, from index `i` on, belong to the digit run.
pub open spec fn run_length(w: Seq<char>, i: int) -> nat
    decreases w.len() - i,
{
    if 0 <= i < w.len() && is_run_char(w[i]) {
        1 + run_length(w, i + 1)
    } else {
        0
    }
}

/// The longest prefix of `w` made of run characters.
pub open spec fn run_prefix(w: Seq<char>) -> Seq<char> {
    w.subrange(0, run_length(w, 0) as int)
}

/// The value of one hexadecimal digit, in either case.
pub open spec fn hex_digit(c: char) -> Option<nat> {
    if '0' <= c && c <= '9' {
        Some((c as nat - '0' as nat) as nat)
    } else if 'A' <= c && c <= 'F' {
        Some((c as nat - 'A' as nat + 10) as nat)
    } else if 'a' <= c && c <= 'f' {
        Some((c as nat - 'a' as nat + 10) as nat)
    } else {
        None
    }
}

/// Every character of `s` is a hexadecimal digit.
pub open spec fn all_hex(s: Seq<char>) -> bool {
    forall|i: int| 0 <= i < s.len() ==> (#[trigger] hex_digit(s[i])) is Some
}

/// The number that the hexadecimal digits `s` write, most significant first.
pub open spec fn hex_number(s: Seq<char>) -> nat
    decreases s.len(),
{
    if s.len() == 0 {
        0
    } else {
        16 * hex_number(s.drop_last()) + (match hex_digit(s.last()) {
            Some(d) => d,
            None => 0,
        })
    }
}

/// What one position inside a literal amounts to.
pub enum Step {
    /// The closing quote.
    Close,
    /// One decoded character, made from `width` source characters.
    Emit { ch: char, width: nat },
    /// A structural error.
    Fail { code: nat },
    /// A `\u` or `\x` escape whose digit run holds a letter beyond `f`: such a run
    /// writes no number, and no decoding is defined for it.
    Unreadable,
}

/// The step taken at position `p` of `s`, inside a literal.
pub open spec fn step_at(s: Seq<char>, p: int, raw: bool) -> Step
    recommends
        0 <= p < s.len(),
{
    let c = s[p];
    if c == '"' {
        Step::Close
    } else if c == '\n' {
        Step::Fail { code: 0 }
    } else if c == '\\' && p + 1 < s.len() {
        let n = s[p + 1];
        if raw {
            if n == '"' {
                Step::Emit { ch: '"', width: 2 }
            } else {
                Step::Emit { ch: c, width: 1 }
            }
        } else if let Some(e) = escape_of(n) {
            Step::Emit { ch: e, width: 2 }
        } else if n == 'u' {
            let digits = run_prefix(bounded_slice(s, p + 2, 8));
            if digits.len() == 0 {
                Step::Fail { code: 1 }
            } else if !all_hex(digits) {
                Step::Unreadable
            } else if is_scalar(hex_number(digits) as int) {
                Step::Emit { ch: hex_number(digits) as char, width: 2 + digits.len() }
            } else {
                Step::Fail { code: 2 }
            }
        } else if n == 'x' {
            let digits = run_prefix(bounded_slice(s, p + 2, 2));
            if digits.len() != 2 {
                Step::Fail { code: 3 }
            } else if !all_hex(digits) {
                Step::Unreadable
            } else {
                Step::Emit { ch: hex_number(digits) as char, width: 4 }
            }
        } else {
            Step::Emit { ch: c, width: 1 }
        }
    } else {
        Step::Emit { ch: c, width: 1 }
    }
}

/// The outcome of scanning for one literal.
pub enum Scan {
    /// The decoded text, the number of source characters between the quotes, and
    /// where the cursor rests.
    Done { text: Seq<char>, raw: nat, at: int },
    /// The error code and where the cursor rests.
    Fail { code: nat, at: int },
    /// The scan met an escape for which no decoding is defined.
    Unreadable,
}

/// `r` with `pre` put before its text and `width` added to its source length.
pub open spec fn prepend(pre: Seq<char>, width: nat, r: Scan) -> Scan {
    match r {
        Scan::Done { text, raw, at } => Scan::Done { text: pre + text, raw: raw + width, at },
        other => other,
    }
}

/// The scan of a literal's body from position `p`, just inside the opening quote
/// or further on. The cursor rests one before the closing quote, on the character
/// that failed, or at the end of the line when the closing quote is missing.
///
/// A step never reaches beyond the line (`lemma_step_width`), so the scan is
/// `Unreadable` only where a step is.
pub open spec fn scan_body(s: Seq<char>, p: int, raw: bool) -> Scan
    decreases s.len() - p,
{
    if p < 0 || p >= s.len() {
        Scan::Fail { code: 4, at: p }
    } else {
        match step_at(s, p, raw) {
            Step::Close => Scan::Done { text: Seq::empty(), raw: 0, at: p - 1 },
            Step::Fail { code } => Scan::Fail { code, at: p },
            Step::Unreadable => Scan::Unreadable,
            Step::Emit { ch, width } => if 1 <= width <= s.len() - p {
                prepend(seq![ch], width, scan_body(s, p + width, raw))
            } else {
                Scan::Unreadable
            },
        }
    }
}

/// The scan of the first literal at or after position `p`: everything before its
/// opening quote is skipped; a line without a quote decodes to the empty text.
pub open spec fn scan_string(s: Seq<char>, p: int, raw: bool) -> Scan
    decreases s.len() - p,
{
    if p < 0 || p >= s.len() {
        Scan::Done { text: Seq::empty(), raw: 0, at: p }
    } else if s[p] == '"' {
        scan_body(s, p + 1, raw)
    } else {
        scan_string(s, p + 1, raw)
    }
}

/// Whether position `p`, inside a literal, holds a backslash before a character
/// that starts no escape: the backslash is then kept as text, and worth a warning.
pub open spec fn is_unknown_escape(s: Seq<char>, p: int, raw: bool) -> bool {
    !raw && 0 <= p && p + 1 < s.len() && s[p] == '\\' && step_at(s, p, raw) == (Step::Emit {
        ch: '\\',
        width: 1,
    })
}

/// The positions of the unknown escapes that the scan of a body from `p` passes,
/// in line order, up to the closing quote or the failure.
pub open spec fn unknown_escapes(s: Seq<char>, p: int, raw: bool) -> Seq<usize>
    decreases s.len() - p,
{
    if p < 0 || p >= s.len() {
        Seq::empty()
    } else {
        match step_at(s, p, raw) {
            Step::Emit { ch, width } => if 1 <= width <= s.len() - p {
                (if is_unknown_escape(s, p, raw) {
                    seq![p as usize]
                } else {
                    Seq::empty()
                }) + unknown_escapes(s, p + width, raw)
            } else {
                Seq::empty()
            },
            _ => Seq::empty(),
        }
    }
}

/// The positions of the unknown escapes in the first literal at or after `p`.
pub open spec fn string_warnings(s: Seq<char>, p: int, raw: bool) -> Seq<usize>
    decreases s.len() - p,
{
    if p < 0 || p >= s.len() {
        Seq::empty()
    } else if s[p] == '"' {
        unknown_escapes(s, p + 1, raw)
    } else {
        string_warnings(s, p + 1, raw)
    }
}

/// The message that goes with each error code of the decoder.
pub open spec fn error_text(code: nat) -> Seq<char> {
    if code == 0 {
        "Syntax Error: Invalid newline character in the string!"@
    } else if code == 1 {
        "Escape Error: Invalid \\u escape sequence!"@
    } else if code == 2 {
        "Unicode Error: Unicode is within an invalid range!"@
    } else if code == 3 {
        "Byte Error: Invalid \\x escape: expected 2 hex digits!"@
    } else {
        "Syntax Error: Missing quotation marks at the end!"@
    }
}

/// Whether `r`, with the cursor at `cols` afterwards, is what the scan `scan` asks for.
pub open spec fn reports(
    r: Option<Result<StringUTF8, ParseError>>,
    cols: usize,
    scan: Scan,
) -> bool {
    match scan {
        Scan::Done { text, raw, at } => r matches Some(Ok(d)) && d.string_utf8@ == text
            && d.string_length == text.len() && d.original_length == raw && cols == at,
        Scan::Fail { code, at } => r matches Some(Err(e)) && e.status_code == code
            && e.message@ == error_text(code) && cols == at,
        Scan::Unreadable => r is None,
    }
}


/// Sixteen to the power `n`.
pub open spec fn sixteen_to(n: nat) -> nat
    decreases n,
{
    if n == 0 {
        1
    } else {
        16 * sixteen_to((n - 1) as nat)
    }
}

/// A digit run is never longer than what is left of its window.
pub proof fn lemma_run_length_bound(w: Seq<char>, i: int)
    requires
        0 <= i <= w.len(),
    ensures
        run_length(w, i) <= w.len() - i,
    decreases w.len() - i,
{
    if i < w.len() && is_run_char(w[i]) {
        lemma_run_length_bound(w, i + 1);
    }
}

/// Putting `pre` and then one more character before a scan is putting both before it.
pub proof fn lemma_prepend_push(pre: Seq<char>, w: nat, ch: char, width: nat, r: Scan)
    ensures
        prepend(pre, w, prepend(seq![ch], width, r)) == prepend(pre.push(ch), w + width, r),
{
    if let Scan::Done { text, raw, at } = r {
        assert(pre + (seq![ch] + text) =~= pre.push(ch) + text);
    }
}

fn escape_lookup(c: char) -> (r: Option<char>)
    ensures
        r == escape_of(c),
{
    if c == '0' {
        Some('\x00')
    } else if c == 'a' {
        Some('\x07')
    } else if c == 'b' {
        Some('\x08')
    } else if c == 'f' {
        Some('\x0C')
    } else if c == 'n' {
        Some('\n')
    } else if c == 'r' {
        Some('\r')
    } else if c == 's' {
        Some(' ')
    } else if c == 't' {
        Some('\t')
    } else if c == 'v' {
        Some('\x0B')
    } else if c == '\\' || c == '"' || c == '{' || c == '\'' || c == '}' {
        Some(c)
    } else {
        None
    }
}

fn hex_digit_value(c: char) -> (r: Option<u64>)
    ensures
        match r {
            Some(d) => hex_digit(c) == Some(d as nat) && d < 16,
            None => hex_digit(c) is None,
        },
{
    let n: u32 = c as u32;
    if 0x30 <= n && n <= 0x39 {
        Some((n - 0x30) as u64)
    } else if 0x41 <= n && n <= 0x46 {
        Some((n - 0x41 + 10) as u64)
    } else if 0x61 <= n && n <= 0x66 {
        Some((n - 0x61 + 10) as u64)
    } else {
        None
    }
}

/// The structural error with the given code and its message.
pub fn string_error(code: usize) -> (e: ParseError)
    requires
        code <= 4,
    ensures
        e.status_code == code,
        e.message@ == error_text(code as nat),
{
    let message = if code == 0 {
        "Syntax Error: Invalid newline character in the string!".to_owned()
    } else if code == 1 {
        "Escape Error: Invalid \\u escape sequence!".to_owned()
    } else if code == 2 {
        "Unicode Error: Unicode is within an invalid range!".to_owned()
    } else if code == 3 {
        "Byte Error: Invalid \\x escape: expected 2 hex digits!".to_owned()
    } else {
        "Syntax Error: Missing quotation marks at the end!".to_owned()
    };
    ParseError { status_code: code, message }
}

impl StringUTF8 {
    /// A copy of the characters from `start` on, at most `length` of them (`None`: as
    /// many as there are); empty when `start` lies beyond the end.
    pub fn slice_vector_char(vector_char: &Vec<char>, start: usize, length: Option<usize>) -> (r:
        Vec<char>)
        ensures
            r@ == bounded_slice(
                vector_char@,
                start as int,
                match length {
                    Some(n) => n as int,
                    None => vector_char@.len() as int,
                },
            ),
    {
        let total = vector_char.len();
        let wanted = match length {
            Some(n) => n,
            None => total,
        };
        let mut out: Vec<char> = Vec::new();
        if start > total {
            return out;
        }
        let end = if wanted < total - start {
            start + wanted
        } else {
            total
        };
        let mut i: usize = start;
        while i < end
            invariant
                start <= i <= end <= vector_char@.len(),
                out@ == vector_char@.subrange(start as int, i as int),
            decreases end - i,
        {
            out.push(vector_char[i]);
            i += 1;
        }
        out
    }

    /// The longest prefix of `hexadecimal` made of ASCII digits and letters.
    pub fn match_char_hexadecimal_vaild(hexadecimal: &Vec<char>) -> (r: Vec<char>)
        ensures
            r@ == run_prefix(hexadecimal@),
    {
        let mut out: Vec<char> = Vec::new();
        let mut i: usize = 0;
        while i < hexadecimal.len() && Self::is_run(hexadecimal[i])
            invariant
                i <= hexadecimal@.len(),
                out@ == hexadecimal@.subrange(0, i as int),
                run_length(hexadecimal@, 0) == i + run_length(hexadecimal@, i as int),
            decreases hexadecimal@.len() - i,
        {
            out.push(hexadecimal[i]);
            i += 1;
        }
        out
    }

    fn is_run(c: char) -> (b: bool)
        ensures
            b == is_run_char(c),
    {
        let n: u32 = c as u32;
        (0x30 <= n && n <= 0x39) || (0x41 <= n && n <= 0x5A) || (0x61 <= n && n <= 0x7A)
    }

    /// Whether `source` holds hexadecimal digits only.
    pub fn is_hexadecimal(source: &Vec<char>) -> (b: bool)
        ensures
            b == all_hex(source@),
    {
        let mut i: usize = 0;
        while i < source.len()
            invariant
                i <= source@.len(),
                forall|j: int| 0 <= j < i ==> (#[trigger] hex_digit(source@[j])) is Some,
            decreases source@.len() - i,
        {
            if hex_digit_value(source[i]).is_none() {
                return false;
            }
            i += 1;
        }
        true
    }

    /// The character whose code the hexadecimal digits `source` write, or `None`
    /// when that number is a surrogate or lies beyond `0x10FFFF`.
    pub fn hexadecimal_to_unicode(source: &Vec<char>) -> (r: Option<char>)
        requires
            all_hex(source@),
            source@.len() <= 8,
        ensures
            r == (if is_scalar(hex_number(source@) as int) {
                Some(hex_number(source@) as char)
            } else {
                None
            }),
    {
        let mut acc: u64 = 0;
        let mut i: usize = 0;
        while i < source.len()
            invariant
                i <= source@.len() <= 8,
                all_hex(source@),
                acc == hex_number(source@.subrange(0, i as int)),
                acc < sixteen_to(i as nat),
            decreases source@.len() - i,
        {
            proof {
                reveal_with_fuel(sixteen_to, 10);
                assert(source@.subrange(0, i + 1).drop_last() =~= source@.subrange(0, i as int));
            }
            match hex_digit_value(source[i]) {
                Some(d) => {
                    acc = acc * 16 + d;
                },
                None => {
                    assert(hex_digit(source@[i as int]) is Some);
                },
            }
            i += 1;
        }
        proof {
            assert(source@.subrange(0, i as int) =~= source@);
            reveal_with_fuel(sixteen_to, 10);
        }
        if acc > 0x10FFFF {
            None
        } else {
            char::from_u32(acc as u32)
        }
    }

    /// The per-character check of the scan: a quote enters or leaves the literal,
    /// anything outside it is passed over, a newline inside it is a failure, and the
    /// rest is left to the caller.
    pub fn audit_string(current_char: char, is_in_string: &mut bool, cols: &mut usize) -> (r:
        LoopControl)
        requires
            current_char == '"' && *old(is_in_string) ==> *old(cols) >= 1,
            !(current_char == '"' && *old(is_in_string)) ==> *old(cols) < usize::MAX,
        ensures
            current_char == '"' && *old(is_in_string) ==> r == LoopControl::Break && !*final(is_in_string) && *final(cols) == *old(cols) - 1,
            current_char == '"' && !*old(is_in_string) ==> r == LoopControl::Continue && *final(is_in_string) && *final(cols) == *old(cols) + 1,
            current_char != '"' && !*old(is_in_string) ==> r == LoopControl::Continue && !*final(is_in_string) && *final(cols) == *old(cols) + 1,
            current_char != '"' && *old(is_in_string) ==> *final(is_in_string) && *final(cols)
                == *old(cols) && r == (if current_char == '\n' {
                LoopControl::Return
            } else {
                LoopControl::Nothing
            }),
    {
        if current_char == '"' {
            *is_in_string = !*is_in_string;
            if !*is_in_string {
                *cols -= 1;
                return LoopControl::Break;
            }
            *cols += 1;
            return LoopControl::Continue;
        }
        if !*is_in_string {
            *cols += 1;
            return LoopControl::Continue;
        }
        if current_char == '\n' {
            return LoopControl::Return;
        }
        LoopControl::Nothing
    }

    /// The step at position `p`, which holds neither a quote nor a newline: the
    /// decoded character with the number of source characters it was made from, or
    /// the error code, or `None` where no decoding is defined.
    pub fn decode_step(vector_char: &Vec<char>, p: usize, is_raw_string: bool) -> (r: Option<
        Result<(char, usize), usize>,
    >)
        requires
            p < vector_char@.len(),
            vector_char@[p as int] != '"',
            vector_char@[p as int] != '\n',
        ensures
            match r {
                None => step_at(vector_char@, p as int, is_raw_string) == Step::Unreadable,
                Some(Err(code)) => step_at(vector_char@, p as int, is_raw_string) == (Step::Fail {
                    code: code as nat,
                }) && 1 <= code <= 3,
                Some(Ok((ch, width))) => step_at(vector_char@, p as int, is_raw_string) == (
                Step::Emit { ch, width: width as nat }) && 1 <= width <= vector_char@.len() - p,
            },
    {
        let current_char = vector_char[p];
        if current_char != '\\' || vector_char.len() - p <= 1 {
            return Some(Ok((current_char, 1)));
        }
        let next_char = vector_char[p + 1];
        if is_raw_string {
            if next_char == '"' {
                return Some(Ok(('"', 2)));
            }
            return Some(Ok((current_char, 1)));
        }
        if let Some(escape) = escape_lookup(next_char) {
            return Some(Ok((escape, 2)));
        }
        if next_char == 'u' {
            let window = Self::slice_vector_char(vector_char, p + 2, Some(8));
            let source = Self::match_char_hexadecimal_vaild(&window);
            proof {
                lemma_run_length_bound(window@, 0);
            }
            if source.len() == 0 {
                return Some(Err(1));
            }
            if !Self::is_hexadecimal(&source) {
                return None;
            }
            return match Self::hexadecimal_to_unicode(&source) {
                Some(ch) => Some(Ok((ch, source.len() + 2))),
                None => Some(Err(2)),
            };
        }
        if next_char == 'x' {
            let window = Self::slice_vector_char(vector_char, p + 2, Some(2));
            let source = Self::match_char_hexadecimal_vaild(&window);
            proof {
                lemma_run_length_bound(window@, 0);
            }
            if source.len() != 2 {
                return Some(Err(3));
            }
            if !Self::is_hexadecimal(&source) {
                return None;
            }
            proof {
                lemma_two_digits(source@);
            }
            return match Self::hexadecimal_to_unicode(&source) {
                Some(ch) => Some(Ok((ch, 4))),
                None => None,
            };
        }
        Some(Ok((current_char, 1)))
    }

    /// Decodes the first literal at or after the cursor. `None` where the literal
    /// holds a `\u` or `\x` escape whose digit run writes no number; otherwise what
    /// `scan_string` says, with the cursor left where it says.
    pub fn parse_checked(lines: &mut Lines, is_raw_string: bool) -> (r: Option<
        Result<StringUTF8, ParseError>,
    >)
        requires
            old(lines).wf(),
        ensures
            final(lines).moved_from(old(lines)),
            old(lines).in_bounds() ==> final(lines).in_bounds(),
            reports(
                r,
                final(lines).cols,
                scan_string(old(lines).vector_char@, old(lines).cols as int, is_raw_string),
            ),
            r matches Some(Ok(d)) ==> d.original_length >= d.string_length,
    {
        let mut warnings: Vec<usize> = Vec::new();
        Self::parse_noting(lines, is_raw_string, &mut warnings)
    }

    /// Decodes as `parse_checked` does, and appends to `warnings` the position of
    /// every backslash that was kept as text because no escape starts there.
    pub fn parse_noting(lines: &mut Lines, is_raw_string: bool, warnings: &mut Vec<usize>) -> (r:
        Option<Result<StringUTF8, ParseError>>)
        requires
            old(lines).wf(),
        ensures
            final(lines).moved_from(old(lines)),
            old(lines).in_bounds() ==> final(lines).in_bounds(),
            reports(
                r,
                final(lines).cols,
                scan_string(old(lines).vector_char@, old(lines).cols as int, is_raw_string),
            ),
            final(warnings)@ == old(warnings)@ + string_warnings(
                old(lines).vector_char@,
                old(lines).cols as int,
                is_raw_string,
            ),
            r matches Some(Ok(d)) ==> d.original_length >= d.string_length,
    {
        let mut text = String::new();
        let mut string_length: usize = 0;
        let mut original_length: usize = 0;
        let mut is_in_string = false;
        let mut closed = false;
        let ghost s = lines.vector_char@;
        let ghost whole = scan_string(s, lines.cols as int, is_raw_string);
        let ghost noted = old(warnings)@ + string_warnings(s, lines.cols as int, is_raw_string);
        while lines.cols < lines.length && !closed
            invariant
                lines.wf(),
                noted == old(warnings)@ + string_warnings(
                    s,
                    old(lines).cols as int,
                    is_raw_string,
                ),
                noted == warnings@ + (if closed {
                    Seq::empty()
                } else if is_in_string {
                    unknown_escapes(s, lines.cols as int, is_raw_string)
                } else {
                    string_warnings(s, lines.cols as int, is_raw_string)
                }),
                lines.moved_from(old(lines)),
                old(lines).in_bounds() ==> lines.in_bounds(),
                s == lines.vector_char@,
                whole == scan_string(s, old(lines).cols as int, is_raw_string),
                string_length == text@.len(),
                string_length <= original_length,
                closed ==> whole == (Scan::Done {
                    text: text@,
                    raw: original_length as nat,
                    at: lines.cols as int,
                }),
                !closed && !is_in_string ==> text@.len() == 0 && original_length == 0
                    && scan_string(s, lines.cols as int, is_raw_string) == whole,
                !closed && is_in_string ==> original_length < lines.cols && lines.cols
                    <= lines.length && whole == prepend(
                    text@,
                    original_length as nat,
                    scan_body(s, lines.cols as int, is_raw_string),
                ),
            decreases
                    (if closed {
                        0
                    } else {
                        lines.length - lines.cols + 1
                    }),
        {
            let current_char = lines.vector_char[lines.cols];
            let mut cols = lines.cols;
            let control = Self::audit_string(current_char, &mut is_in_string, &mut cols);
            lines.cols = cols;
            match control {
                LoopControl::Break => {
                    proof {
                        assert(text@ + Seq::<char>::empty() =~= text@);
                    }
                    closed = true;
                },
                LoopControl::Continue => {},
                LoopControl::Return => {
                    proof {
                        assert(warnings@ + Seq::<usize>::empty() =~= warnings@);
                    }
                    return Some(Err(string_error(0)));
                },
                LoopControl::Nothing => {
                    match Self::decode_step(&lines.vector_char, lines.cols, is_raw_string) {
                        None => {
                            proof {
                                assert(warnings@ + Seq::<usize>::empty() =~= warnings@);
                            }
                            return None;
                        },
                        Some(Err(code)) => {
                            proof {
                                assert(warnings@ + Seq::<usize>::empty() =~= warnings@);
                            }
                            return Some(Err(string_error(code)));
                        },
                        Some(Ok((ch, width))) => {
                            let ghost here = lines.cols as int;
                            let ghost before = warnings@;
                            if !is_raw_string && current_char == '\\' && width == 1
                                && lines.length - lines.cols > 1 {
                                warnings.push(lines.cols);
                            }
                            proof {
                                let rest = unknown_escapes(s, here + width, is_raw_string);
                                if is_unknown_escape(s, here, is_raw_string) {
                                    assert(before + (seq![here as usize] + rest)
                                        =~= before.push(here as usize) + rest);
                                } else {
                                    assert(before + (Seq::<usize>::empty() + rest) =~= before
                                        + rest);
                                }
                                lemma_prepend_push(
                                    text@,
                                    original_length as nat,
                                    ch,
                                    width as nat,
                                    scan_body(s, lines.cols + width, is_raw_string),
                                );
                            }
                            text.push(ch);
                            string_length += 1;
                            original_length += width;
                            lines.cols += width;
                        },
                    }
                },
            }
        }
        proof {
            assert(warnings@ + Seq::<usize>::empty() =~= warnings@);
        }
        if closed {
            return Some(Ok(StringUTF8 { string_utf8: text, string_length, original_length }));
        }
        if is_in_string {
            return Some(Err(string_error(4)));
        }
        proof {
            assert(text@ =~= Seq::<char>::empty());
        }
        Some(Ok(StringUTF8 { string_utf8: text, string_length, original_length }))
    }

    /// Whether the literal at or after the cursor can be decoded: it holds no `\u`
    /// or `\x` escape whose digit run writes no number.
    pub open spec fn readable(lines: &Lines, is_raw_string: bool) -> bool {
        scan_string(lines.vector_char@, lines.cols as int, is_raw_string) != Scan::Unreadable
    }

    /// Decodes the first literal at or after the cursor: on success the decoded text
    /// with its two lengths, the cursor resting one before the closing quote; on
    /// failure the error of `scan_string`, the cursor resting where it arose.
    pub fn parse(lines: &mut Lines, is_raw_string: bool) -> (r: Result<StringUTF8, ParseError>)
        requires
            old(lines).wf(),
            Self::readable(old(lines), is_raw_string),
        ensures
            final(lines).moved_from(old(lines)),
            old(lines).in_bounds() ==> final(lines).in_bounds(),
            reports(
                Some(r),
                final(lines).cols,
                scan_string(old(lines).vector_char@, old(lines).cols as int, is_raw_string),
            ),
            r matches Ok(d) ==> d.original_length >= d.string_length,
    {
        proof {
            crate::laws::lemma_string_lengths(
                lines.vector_char@,
                lines.cols as int,
                is_raw_string,
            );
        }
        match Self::parse_checked(lines, is_raw_string) {
            Some(r) => r,
            None => vstd::pervasive::unreached(),
        }
    }
}

/// Two hexadecimal digits write a number below 256.
pub proof fn lemma_two_digits(d: Seq<char>)
    requires
        d.len() == 2,
        all_hex(d),
    ensures
        hex_number(d) < 256,
{
    reveal_with_fuel(hex_number, 3);
    assert(hex_digit(d[0]) is Some);
    assert(hex_digit(d[1]) is Some);
    assert(d.drop_last().last() == d[0]);
}

} // verus!

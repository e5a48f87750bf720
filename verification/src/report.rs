//! The text of a diagnostic: the failing line, a line of carets under it, and the
//! place of the failure.

use vstd::prelude::*;
use vstd::string::StringExecFns;
use crate::init::{Lines, ParseError};

verus! {

/// The character that writes one decimal digit.
pub open spec fn digit_char(d: nat) -> char {
    if d == 0 {
        '0'
    } else if d == 1 {
        '1'
    } else if d == 2 {
        '2'
    } else if d == 3 {
        '3'
    } else if d == 4 {
        '4'
    } else if d == 5 {
        '5'
    } else if d == 6 {
        '6'
    } else if d == 7 {
        '7'
    } else if d == 8 {
        '8'
    } else {
        '9'
    }
}

/// The decimal digits of `n`, without leading zeros.
pub open spec fn decimal(n: nat) -> Seq<char>
    decreases n,
{
    if n < 10 {
        seq![digit_char(n)]
    } else {
        decimal(n / 10).push(digit_char(n % 10))
    }
}

/// The character `c`, `n` times.
pub open spec fn repeated(c: char, n: nat) -> Seq<char> {
    Seq::new(n, |i: int| c)
}

/// The decimal digits of `n`, with zeros in front up to `width` characters.
pub open spec fn padded(n: nat, width: nat) -> Seq<char> {
    let digits = decimal(n);
    if digits.len() >= width {
        digits
    } else {
        repeated('0', (width - digits.len()) as nat) + digits
    }
}

/// The three lines of a diagnostic, each ended by a newline: the error code and the
/// source line; a caret for every character of the line; the path with the row and
/// the column, both counted from 1.
pub open spec fn report_text(error: &ParseError, lines: &Lines) -> Seq<char> {
    "[Error "@ + padded(error.status_code as nat, 4) + "] "@ + lines.line@ + seq!['\n']
        + "              "@ + repeated('^', lines.length as nat) + seq!['\n'] + "File error at "@
        + lines.path@ + seq![':'] + decimal((lines.rows + 1) as nat) + seq![':'] + decimal(
        (lines.cols + 1) as nat,
    ) + seq!['\n']
}

fn digit(d: u128) -> (c: char)
    requires
        d < 10,
    ensures
        c == digit_char(d as nat),
{
    if d == 0 {
        '0'
    } else if d == 1 {
        '1'
    } else if d == 2 {
        '2'
    } else if d == 3 {
        '3'
    } else if d == 4 {
        '4'
    } else if d == 5 {
        '5'
    } else if d == 6 {
        '6'
    } else if d == 7 {
        '7'
    } else if d == 8 {
        '8'
    } else {
        '9'
    }
}

fn push_decimal(out: &mut String, n: u128)
    ensures
        final(out)@ == old(out)@ + decimal(n as nat),
    decreases n,
{
    if n >= 10 {
        push_decimal(out, n / 10);
    }
    out.push(digit(n % 10));
    proof {
        assert(out@ =~= old(out)@ + decimal(n as nat));
    }
}

fn push_repeated(out: &mut String, c: char, n: usize)
    ensures
        final(out)@ == old(out)@ + repeated(c, n as nat),
{
    let mut i: usize = 0;
    while i < n
        invariant
            i <= n,
            out@ == old(out)@ + repeated(c, i as nat),
        decreases n - i,
    {
        out.push(c);
        proof {
            assert(out@ =~= old(out)@ + repeated(c, (i + 1) as nat));
        }
        i += 1;
    }
}

/// The number of decimal digits of `n`.
fn decimal_length(n: u128) -> (k: usize)
    ensures
        k == decimal(n as nat).len(),
        1 <= k <= 39,
    decreases n,
{
    if n >= 10 {
        let rest = decimal_length(n / 10);
        proof {
            lemma_decimal_length(n as nat);
        }
        rest + 1
    } else {
        1
    }
}

/// A number below `u128`'s bound has at most 39 decimal digits.
proof fn lemma_decimal_length(n: nat)
    requires
        n <= u128::MAX,
    ensures
        decimal(n).len() <= 39,
{
    reveal_with_fuel(decimal, 40);
}

impl ParseError {
    /// The diagnostic for this error on `lines`, as text.
    pub fn report(&self, lines: &Lines) -> (r: String)
        ensures
            r@ == report_text(self, lines),
    {
        let mut out = "[Error ".to_owned();
        let code = self.status_code as u128;
        let width = decimal_length(code);
        if width < 4 {
            push_repeated(&mut out, '0', 4 - width);
        }
        push_decimal(&mut out, code);
        out.append("] ");
        out.append(lines.line.as_str());
        out.push('\n');
        out.append("              ");
        push_repeated(&mut out, '^', lines.length);
        out.push('\n');
        out.append("File error at ");
        out.append(lines.path.as_str());
        out.push(':');
        push_decimal(&mut out, lines.rows as u128 + 1);
        out.push(':');
        push_decimal(&mut out, lines.cols as u128 + 1);
        out.push('\n');
        proof {
            assert(out@ =~= report_text(self, lines));
        }
        out
    }
}

} // verus!

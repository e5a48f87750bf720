//! Scanning of identifiers: a run of letters, digits and underscores in which
//! spaces and apostrophes separate words, ended by a reserved keyword, by a
//! character that no identifier holds, or by the end of the line.

use vstd::prelude::*;
use crate::text::{chars_of, code_of, extend_chars, is_scalar, same_text, string_of};

verus! {

/// The codes of the characters an identifier run may hold: ASCII letters and digits,
/// the underscore, and the two separators.
pub open spec fn is_identifier_code(n: int) -> bool {
    (0x30 <= n <= 0x39) || (0x41 <= n <= 0x5A) || (0x61 <= n <= 0x7A) || n == 0x20 || n == 0x27
        || n == 0x5F
}

/// The characters an identifier run may hold.
pub open spec fn is_identifier_char(c: char) -> bool {
    is_identifier_code(c as int)
}

/// The two separators: the space and the apostrophe.
pub open spec fn is_separator(c: char) -> bool {
    c == ' ' || c == '\''
}

/// The characters a name may not begin with: the digits and the underscore.
pub open spec fn is_bad_start(c: char) -> bool {
    ('0' <= c && c <= '9') || c == '_'
}

/// The sixteen reserved keywords.
pub open spec fn is_keyword(w: Seq<char>) -> bool {
    w == "and"@ || w == "break"@ || w == "continue"@ || w == "define"@ || w == "else"@ || w
        == "if"@ || w == "import"@ || w == "in"@ || w == "is"@ || w == "let"@ || w == "not"@ || w
        == "or"@ || w == "return"@ || w == "None"@ || w == "True"@ || w == "False"@
}

/// What a scan has gathered before a given position.
pub struct Progress {
    /// The words taken into the name so far, with their separators.
    pub name: Seq<char>,
    /// The word being read.
    pub word: Seq<char>,
    /// A space was met and has not been written into the name yet.
    pub space: bool,
    /// An apostrophe was met and has not been written into the name yet.
    pub quote: bool,
}

/// What a scan has found, before the name is checked and trimmed.
pub struct Found {
    pub name: Seq<char>,
    pub boundary: Seq<char>,
    pub length: nat,
}

/// The scan from position `i` on, with `st` gathered before it.
///
/// Separators before the first word are passed over. A separator after a word ends
/// the word: a keyword ends the scan and is its boundary, any other word joins the
/// name. A pending separator is written into the name by the next character of a
/// word, the apostrophe before the space, one at a time. A character that no
/// identifier holds ends the scan and is its boundary; the end of the line ends a
/// word as a separator does. The length is the position at which the scan ended.
pub open spec fn scan_from(s: Seq<char>, i: int, st: Progress) -> Found
    decreases s.len() - i,
{
    if i < 0 || i >= s.len() {
        if is_keyword(st.word) && st.word.len() > 0 {
            Found { name: st.name, boundary: st.word, length: s.len() }
        } else {
            Found { name: st.name + st.word, boundary: Seq::empty(), length: s.len() }
        }
    } else if !is_identifier_char(s[i]) {
        Found { name: st.name + st.word, boundary: seq![s[i]], length: i as nat }
    } else if is_separator(s[i]) {
        if st.name.len() == 0 && st.word.len() == 0 {
            scan_from(s, i + 1, st)
        } else {
            let quote = st.quote || s[i] == '\'';
            let space = st.space || s[i] == ' ';
            if st.word.len() == 0 {
                scan_from(s, i + 1, Progress { quote, space, ..st })
            } else if is_keyword(st.word) {
                Found { name: st.name, boundary: st.word, length: i as nat }
            } else {
                scan_from(
                    s,
                    i + 1,
                    Progress { name: st.name + st.word, word: Seq::empty(), quote, space, ..st },
                )
            }
        }
    } else {
        let name = if st.quote {
            st.name.push('\'')
        } else if st.space {
            st.name.push(' ')
        } else {
            st.name
        };
        scan_from(
            s,
            i + 1,
            Progress { name, word: st.word.push(s[i]), quote: false, space: st.space && st.quote },
        )
    }
}

/// The first position at or after `i` that holds no separator.
pub open spec fn trim_start(s: Seq<char>, i: int) -> int
    decreases s.len() - i,
{
    if 0 <= i < s.len() && is_separator(s[i]) {
        trim_start(s, i + 1)
    } else {
        i
    }
}

/// The last position at or before `j`, and not before `lo`, that no separator precedes.
pub open spec fn trim_end(s: Seq<char>, lo: int, j: int) -> int
    decreases j,
{
    if 0 <= lo < j <= s.len() && is_separator(s[j - 1]) {
        trim_end(s, lo, j - 1)
    } else {
        j
    }
}

/// `s` without the separators at its two ends.
pub open spec fn trimmed(s: Seq<char>) -> Seq<char> {
    let lo = trim_start(s, 0);
    s.subrange(lo, trim_end(s, lo, s.len() as int))
}

/// The identifier at the start of `s`: its name, what ended it (a keyword, one
/// character, or nothing at the end of the line) and the position at which the scan
/// ended; `None` where the name would begin with a digit or an underscore.
pub open spec fn scan_identifier(s: Seq<char>) -> Option<(Seq<char>, Seq<char>, nat)> {
    let found = scan_from(s, 0, fresh());
    if found.name.len() > 0 && is_bad_start(found.name[0]) {
        None
    } else {
        Some((trimmed(found.name), found.boundary, found.length))
    }
}

/// The start of a scan: nothing gathered yet.
pub open spec fn fresh() -> Progress {
    Progress { name: Seq::empty(), word: Seq::empty(), space: false, quote: false }
}

/// What holds of the progress of every scan: neither the name nor the word begins
/// with a separator, and a separator is pending only after a name.
pub open spec fn steady(st: Progress) -> bool {
    &&& st.name.len() > 0 ==> !is_separator(st.name[0])
    &&& st.word.len() > 0 ==> !is_separator(st.word[0])
    &&& st.space || st.quote ==> st.name.len() > 0
}

/// What a scan finds, whatever the line: a name that does not begin with a
/// separator; a boundary that is empty, a keyword, or one character that no
/// identifier holds; and a length within the line.
pub proof fn lemma_found_shape(s: Seq<char>, i: int, st: Progress)
    requires
        0 <= i,
        steady(st),
    ensures
        ({
            let found = scan_from(s, i, st);
            &&& found.name.len() > 0 ==> !is_separator(found.name[0])
            &&& found.boundary.len() == 0 || is_keyword(found.boundary) || (found.boundary.len()
                == 1 && !is_identifier_char(found.boundary[0]))
            &&& found.length <= s.len()
        }),
    decreases s.len() - i,
{
    if i < s.len() && is_identifier_char(s[i]) {
        if is_separator(s[i]) {
            if st.name.len() == 0 && st.word.len() == 0 {
                lemma_found_shape(s, i + 1, st);
            } else {
                let quote = st.quote || s[i] == '\'';
                let space = st.space || s[i] == ' ';
                if st.word.len() == 0 {
                    lemma_found_shape(s, i + 1, Progress { quote, space, ..st });
                } else if !is_keyword(st.word) {
                    lemma_found_shape(
                        s,
                        i + 1,
                        Progress {
                            name: st.name + st.word,
                            word: Seq::empty(),
                            quote,
                            space,
                            ..st
                        },
                    );
                }
            }
        } else {
            let name = if st.quote {
                st.name.push('\'')
            } else if st.space {
                st.name.push(' ')
            } else {
                st.name
            };
            lemma_found_shape(
                s,
                i + 1,
                Progress {
                    name,
                    word: st.word.push(s[i]),
                    quote: false,
                    space: st.space && st.quote,
                },
            );
        }
    }
}

/// Trimming the end stays between its two bounds.
pub proof fn lemma_trim_end_bounds(s: Seq<char>, lo: int, j: int)
    requires
        0 <= lo <= j <= s.len(),
    ensures
        lo <= trim_end(s, lo, j) <= j,
    decreases j,
{
    if lo < j && is_separator(s[j - 1]) {
        lemma_trim_end_bounds(s, lo, j - 1);
    }
}

/// The law of names: the name of an identifier never begins with a separator, a
/// digit or an underscore; what ended it is nothing, a keyword, or one character
/// that no identifier holds; and the length scanned lies within the line.
pub proof fn lemma_identifier_shape(s: Seq<char>)
    ensures
        scan_identifier(s) matches Some((name, boundary, length)) ==> {
            &&& name.len() > 0 ==> !is_bad_start(name[0]) && !is_separator(name[0])
            &&& boundary.len() == 0 || is_keyword(boundary) || (boundary.len() == 1
                && !is_identifier_char(boundary[0]))
            &&& length <= s.len()
        },
{
    lemma_found_shape(s, 0, fresh());
    let found = scan_from(s, 0, fresh());
    lemma_trim_end_bounds(found.name, 0, found.name.len() as int);
}

/// Whether `code` is a Unicode scalar value: no surrogate and at most `0x10FFFF`.
pub fn is_unicode_valid(code: &u32) -> (b: bool)
    ensures
        b == is_scalar(*code as int),
{
    !(0xD800 <= *code && *code <= 0xDFFF) && *code <= 0x10FFFF
}

/// Whether the character with this code may stand in an identifier run.
pub fn is_identifier(code: &u32) -> (b: bool)
    ensures
        b == is_identifier_code(*code as int),
{
    let n: u32 = *code;
    (0x30 <= n && n <= 0x39) || (0x41 <= n && n <= 0x5A) || (0x61 <= n && n <= 0x7A) || n == 0x20
        || n == 0x27 || n == 0x5F
}

fn keyword(word: &Vec<char>) -> (b: bool)
    ensures
        b == is_keyword(word@),
{
    same_text(word, "and") || same_text(word, "break") || same_text(word, "continue")
        || same_text(word, "define") || same_text(word, "else") || same_text(word, "if")
        || same_text(word, "import") || same_text(word, "in") || same_text(word, "is")
        || same_text(word, "let") || same_text(word, "not") || same_text(word, "or") || same_text(
        word,
        "return",
    ) || same_text(word, "None") || same_text(word, "True") || same_text(word, "False")
}

fn finish(name: &Vec<char>, boundary: &Vec<char>, length: usize) -> (r: Option<
    (String, String, usize),
>)
    ensures
        name@.len() > 0 && is_bad_start(name@[0]) ==> r is None,
        !(name@.len() > 0 && is_bad_start(name@[0])) ==> (r matches Some(t) && t.0@ == trimmed(
            name@,
        ) && t.1@ == boundary@ && t.2 == length),
{
    if name.len() > 0 {
        let first: u32 = code_of(name[0]);
        if (0x30 <= first && first <= 0x39) || first == 0x5F {
            return None;
        }
    }
    let mut lo: usize = 0;
    while lo < name.len() && (name[lo] == ' ' || name[lo] == '\'')
        invariant
            lo <= name@.len(),
            trim_start(name@, 0) == trim_start(name@, lo as int),
        decreases name@.len() - lo,
    {
        lo += 1;
    }
    let mut hi: usize = name.len();
    while hi > lo && (name[hi - 1] == ' ' || name[hi - 1] == '\'')
        invariant
            lo <= hi <= name@.len(),
            trim_end(name@, lo as int, name@.len() as int) == trim_end(name@, lo as int, hi as int),
        decreases hi,
    {
        hi -= 1;
    }
    proof {
        assert(boundary@.subrange(0, boundary@.len() as int) =~= boundary@);
    }
    Some((string_of(name, lo, hi), string_of(boundary, 0, boundary.len()), length))
}

fn scan_line(line: &str) -> (r: Option<(String, String, usize)>)
    ensures
        match scan_identifier(line@) {
            None => r is None,
            Some((name, boundary, length)) => r matches Some(t) && t.0@ == name && t.1@
                == boundary && t.2 == length,
        },
{
    let chars = chars_of(line);
    let mut name: Vec<char> = Vec::new();
    let mut word: Vec<char> = Vec::new();
    let mut hssp: bool = false;
    let mut hsap: bool = false;
    let mut index: usize = 0;
    let ghost s = line@;
    let ghost whole = scan_from(s, 0, fresh());
    while index < chars.len()
        invariant
            chars@ == s,
            s == line@,
            index <= s.len(),
            whole == scan_from(s, 0, fresh()),
            whole == scan_from(
                s,
                index as int,
                Progress { name: name@, word: word@, space: hssp, quote: hsap },
            ),
        decreases s.len() - index,
    {
        let ch = chars[index];
        let code: u32 = code_of(ch);
        if !is_unicode_valid(&code) || !is_identifier(&code) {
            extend_chars(&mut name, &word);
            let mut boundary: Vec<char> = Vec::new();
            boundary.push(ch);
            proof {
                assert(boundary@ =~= seq![ch]);
            }
            return finish(&name, &boundary, index);
        }
        if ch == ' ' || ch == '\'' {
            if !(name.len() == 0 && word.len() == 0) {
                if ch == '\'' {
                    hsap = true;
                } else {
                    hssp = true;
                }
                if word.len() != 0 {
                    if keyword(&word) {
                        return finish(&name, &word, index);
                    }
                    extend_chars(&mut name, &word);
                    word = Vec::new();
                }
            }
        } else {
            if hsap {
                name.push('\'');
                hsap = false;
            } else if hssp {
                name.push(' ');
                hssp = false;
            }
            word.push(ch);
        }
        index += 1;
    }
    if word.len() != 0 && keyword(&word) {
        return finish(&name, &word, chars.len());
    }
    extend_chars(&mut name, &word);
    let boundary: Vec<char> = Vec::new();
    finish(&name, &boundary, chars.len())
}

/// Scans the identifier at the start of `line`: its name with single separators
/// and trimmed ends, the keyword or the character that ended it (empty at the end
/// of the line), and the position at which the scan ended. `None` where the name
/// would begin with a digit or an underscore.
pub fn parse(line: &str) -> (r: Option<(String, String, usize)>)
    ensures
        match scan_identifier(line@) {
            None => r is None,
            Some((name, boundary, length)) => r matches Some(t) && t.0@ == name && t.1@
                == boundary && t.2 == length,
        },
        r matches Some(t) ==> (t.0@.len() > 0 ==> !is_bad_start(t.0@[0])) && t.2 <= line@.len(),
{
    proof {
        lemma_identifier_shape(line@);
    }
    scan_line(line)
}

} // verus!

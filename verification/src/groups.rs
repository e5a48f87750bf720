//! Extraction of delimiter-balanced groups: the mathematical model of a scan and
//! the scanners that follow it.

use vstd::prelude::*;
use vstd::string::StringExecFns;
use crate::decoder::{Scan, error_text, scan_string, string_warnings};
use crate::init::{Group, Lines, Pairs, ParseError, StringUTF8};
use crate::laws::{lemma_body_lengths, lemma_group_cursor};

verus! {

/// The opening delimiter of a pair.
pub open spec fn open_of(kind: Pairs) -> char {
    match kind {
        Pairs::Parentheses => '(',
        Pairs::Brackets => '[',
        Pairs::Braces => '{',
        Pairs::Angles => '<',
    }
}

/// The closing delimiter of a pair.
pub open spec fn close_of(kind: Pairs) -> char {
    match kind {
        Pairs::Parentheses => ')',
        Pairs::Brackets => ']',
        Pairs::Braces => '}',
        Pairs::Angles => '>',
    }
}

/// The outcome of scanning for one group.
pub enum GroupScan {
    /// The text between the outermost delimiters and where the cursor rests.
    Done { body: Seq<char>, at: int },
    /// The error code and where the cursor rests.
    Fail { code: nat, at: int },
    /// A string literal inside the group holds an escape for which no decoding is
    /// defined.
    Unreadable,
}

/// `r` with `pre` put before its body.
pub open spec fn with_front(pre: Seq<char>, r: GroupScan) -> GroupScan {
    match r {
        GroupScan::Done { body, at } => GroupScan::Done { body: pre + body, at },
        other => other,
    }
}

/// The scan of the first group of `kind` from position `p`, `depth` delimiters deep.
///
/// Outside the group everything but the two delimiters is passed over. Inside it a
/// string literal is decoded as a whole and stands in the body between two quotes;
/// nested delimiters and all other characters are taken as they are. The cursor rests
/// one before the closing delimiter, on the character that failed, or at the end of
/// the line when the group was never closed.
///
/// A decoded literal ends inside the line (`lemma_body_lengths`), so the scan is
/// `Unreadable` only where the scan of a literal is.
pub open spec fn scan_group(s: Seq<char>, p: int, depth: nat, kind: Pairs) -> GroupScan
    decreases s.len() - p,
{
    if p < 0 || p >= s.len() {
        GroupScan::Done { body: Seq::empty(), at: p }
    } else if s[p] == '"' && depth != 0 {
        match scan_string(s.subrange(p, s.len() as int), 0, false) {
            Scan::Done { text, raw, at } => if p + raw + 2 <= s.len() {
                with_front(
                    seq!['"'] + text + seq!['"'],
                    scan_group(s, p + raw + 2, depth, kind),
                )
            } else {
                GroupScan::Unreadable
            },
            Scan::Fail { code, at } => GroupScan::Fail { code, at: p },
            Scan::Unreadable => GroupScan::Unreadable,
        }
    } else if s[p] == open_of(kind) {
        if depth == 0 {
            scan_group(s, p + 1, 1, kind)
        } else {
            with_front(seq![s[p]], scan_group(s, p + 1, depth + 1, kind))
        }
    } else if s[p] == close_of(kind) {
        if depth == 0 {
            GroupScan::Fail { code: 5, at: p }
        } else if depth == 1 {
            GroupScan::Done { body: Seq::empty(), at: p - 1 }
        } else {
            with_front(seq![s[p]], scan_group(s, p + 1, (depth - 1) as nat, kind))
        }
    } else if depth == 0 {
        scan_group(s, p + 1, 0, kind)
    } else {
        with_front(seq![s[p]], scan_group(s, p + 1, depth, kind))
    }
}

/// The unknown escapes that the scan of a group passes, in line order: for each
/// string literal inside the group, the positions counted from its opening quote.
pub open spec fn group_warnings(s: Seq<char>, p: int, depth: nat, kind: Pairs) -> Seq<usize>
    decreases s.len() - p,
{
    if p < 0 || p >= s.len() {
        Seq::empty()
    } else if s[p] == '"' && depth != 0 {
        let sub = s.subrange(p, s.len() as int);
        string_warnings(sub, 0, false) + (match scan_string(sub, 0, false) {
            Scan::Done { text, raw, at } => if p + raw + 2 <= s.len() {
                group_warnings(s, p + raw + 2, depth, kind)
            } else {
                Seq::empty()
            },
            _ => Seq::empty(),
        })
    } else if s[p] == open_of(kind) {
        group_warnings(s, p + 1, depth + 1, kind)
    } else if s[p] == close_of(kind) {
        if depth <= 1 {
            Seq::empty()
        } else {
            group_warnings(s, p + 1, (depth - 1) as nat, kind)
        }
    } else {
        group_warnings(s, p + 1, depth, kind)
    }
}

/// The message that goes with each error code of the group scanner.
pub open spec fn group_error_text(code: nat, kind: Pairs) -> Seq<char> {
    if code == 5 {
        "Syntax Error: Invalid '"@ + seq![close_of(kind)] + "' symbol!"@
    } else {
        error_text(code)
    }
}

/// Whether `r`, with the cursor at `cols` afterwards, is what the scan `scan` asks for.
pub open spec fn group_reports(
    r: Option<Result<Group, ParseError>>,
    cols: usize,
    scan: GroupScan,
    kind: Pairs,
) -> bool {
    match scan {
        GroupScan::Done { body, at } => r matches Some(Ok(g)) && g.body@ == body && g.pairs
            == Some(kind) && cols == at,
        GroupScan::Fail { code, at } => r matches Some(Err(e)) && e.status_code == code
            && e.message@ == group_error_text(code, kind) && cols == at,
        GroupScan::Unreadable => r is None,
    }
}

/// Putting `pre` and then `more` before a scan is putting both before it.
pub proof fn lemma_with_front_twice(pre: Seq<char>, more: Seq<char>, r: GroupScan)
    ensures
        with_front(pre, with_front(more, r)) == with_front(pre + more, r),
{
    if let GroupScan::Done { body, at } = r {
        assert(pre + (more + body) =~= (pre + more) + body);
    }
}

/// Putting `pre` and then one character before a scan is putting both before it.
pub proof fn lemma_with_front_push(pre: Seq<char>, c: char, r: GroupScan)
    ensures
        with_front(pre, with_front(seq![c], r)) == with_front(pre.push(c), r),
{
    lemma_with_front_twice(pre, seq![c], r);
    assert(pre + seq![c] =~= pre.push(c));
}

/// The two delimiters of a pair.
pub fn delimiters(pairs: Pairs) -> (r: (char, char))
    ensures
        r.0 == open_of(pairs),
        r.1 == close_of(pairs),
{
    match pairs {
        Pairs::Angles => ('<', '>'),
        Pairs::Braces => ('{', '}'),
        Pairs::Brackets => ('[', ']'),
        Pairs::Parentheses => ('(', ')'),
    }
}

fn close_error(pairs: Pairs) -> (e: ParseError)
    ensures
        e.status_code == 5,
        e.message@ == group_error_text(5, pairs),
{
    let mut message = "Syntax Error: Invalid '".to_owned();
    message.push(delimiters(pairs).1);
    message.append("' symbol!");
    ParseError { status_code: 5, message }
}

impl Group {
    /// Whether the group at or after the cursor can be scanned: no string literal
    /// inside it holds a `\u` or `\x` escape whose digit run writes no number.
    pub open spec fn readable(lines: &Lines, pairs: Pairs) -> bool {
        scan_group(lines.vector_char@, lines.cols as int, 0, pairs) != GroupScan::Unreadable
    }

    /// Extracts the first group of `pairs` at or after the cursor. `None` where a
    /// string literal inside it cannot be decoded; otherwise what `scan_group` says,
    /// with the cursor left where it says.
    pub fn parse_checked(lines: &mut Lines, pairs: Pairs) -> (r: Option<
        Result<Group, ParseError>,
    >)
        requires
            old(lines).wf(),
        ensures
            final(lines).moved_from(old(lines)),
            old(lines).in_bounds() ==> final(lines).in_bounds(),
            group_reports(
                r,
                final(lines).cols,
                scan_group(old(lines).vector_char@, old(lines).cols as int, 0, pairs),
                pairs,
            ),
    {
        let mut warnings: Vec<usize> = Vec::new();
        Self::parse_noting(lines, pairs, &mut warnings)
    }

    /// Extracts as `parse_checked` does, and appends to `warnings`, for each string
    /// literal inside the group, the positions of its unknown escapes, counted from
    /// its opening quote.
    pub fn parse_noting(lines: &mut Lines, pairs: Pairs, warnings: &mut Vec<usize>) -> (r: Option<
        Result<Group, ParseError>,
    >)
        requires
            old(lines).wf(),
        ensures
            final(lines).moved_from(old(lines)),
            old(lines).in_bounds() ==> final(lines).in_bounds(),
            group_reports(
                r,
                final(lines).cols,
                scan_group(old(lines).vector_char@, old(lines).cols as int, 0, pairs),
                pairs,
            ),
            final(warnings)@ == old(warnings)@ + group_warnings(
                old(lines).vector_char@,
                old(lines).cols as int,
                0,
                pairs,
            ),
    {
        let (open, close) = delimiters(pairs);
        let mut body = String::new();
        let mut group_count: usize = 0;
        let mut closed = false;
        let ghost s = lines.vector_char@;
        let ghost whole = scan_group(s, lines.cols as int, 0, pairs);
        let ghost noted = old(warnings)@ + group_warnings(s, lines.cols as int, 0, pairs);
        while lines.cols < lines.length && !closed
            invariant
                lines.wf(),
                noted == old(warnings)@ + group_warnings(s, old(lines).cols as int, 0, pairs),
                noted == warnings@ + (if closed {
                    Seq::empty()
                } else {
                    group_warnings(s, lines.cols as int, group_count as nat, pairs)
                }),
                lines.moved_from(old(lines)),
                old(lines).in_bounds() ==> lines.in_bounds(),
                s == lines.vector_char@,
                open == open_of(pairs),
                close == close_of(pairs),
                whole == scan_group(s, old(lines).cols as int, 0, pairs),
                closed ==> whole == (GroupScan::Done { body: body@, at: lines.cols as int }),
                !closed ==> group_count <= lines.cols && whole == with_front(
                    body@,
                    scan_group(s, lines.cols as int, group_count as nat, pairs),
                ),
            decreases
                    (if closed {
                        0
                    } else {
                        lines.length - lines.cols + 1
                    }),
        {
            let current_char = lines.vector_char[lines.cols];
            let ghost here = lines.cols as int;
            if current_char == '"' && group_count != 0 {
                let sub_line = lines.slice_lines(lines.cols, None);
                let mut sub_lines = Lines::new(None, sub_line.as_str());
                proof {
                    assert(sub_lines.vector_char@ == s.subrange(here, s.len() as int));
                    lemma_body_lengths(sub_lines.vector_char@, 1, false);
                }
                let ghost before_call = warnings@;
                let ghost inner = string_warnings(sub_lines.vector_char@, 0, false);
                match StringUTF8::parse_noting(&mut sub_lines, false, warnings) {
                    None => {
                        proof {
                            assert(before_call + (inner + Seq::<usize>::empty()) =~= warnings@);
                        }
                        return None;
                    },
                    Some(Err(e)) => {
                        proof {
                            assert(before_call + (inner + Seq::<usize>::empty()) =~= warnings@);
                        }
                        return Some(Err(e));
                    },
                    Some(Ok(result)) => {
                        proof {
                            let rest = group_warnings(
                                s,
                                here + result.original_length + 2,
                                group_count as nat,
                                pairs,
                            );
                            assert(before_call + (inner + rest) =~= warnings@ + rest);
                            lemma_with_front_twice(
                                body@,
                                seq!['"'] + result.string_utf8@ + seq!['"'],
                                scan_group(
                                    s,
                                    here + result.original_length + 2,
                                    group_count as nat,
                                    pairs,
                                ),
                            );
                        }
                        let ghost before = body@;
                        body.push('"');
                        body.append(result.string_utf8.as_str());
                        body.push('"');
                        lines.cols += result.original_length + 2;
                        proof {
                            assert(body@ =~= before + (seq!['"'] + result.string_utf8@
                                + seq!['"']));
                        }
                    },
                }
            } else if current_char == open {
                if group_count != 0 {
                    proof {
                        lemma_with_front_push(
                            body@,
                            current_char,
                            scan_group(s, here + 1, (group_count + 1) as nat, pairs),
                        );
                    }
                    body.push(current_char);
                }
                group_count += 1;
                lines.cols += 1;
            } else if current_char == close {
                if group_count == 0 {
                    proof {
                        assert(warnings@ + Seq::<usize>::empty() =~= warnings@);
                    }
                    return Some(Err(close_error(pairs)));
                }
                group_count -= 1;
                if group_count == 0 {
                    proof {
                        assert(body@ + Seq::<char>::empty() =~= body@);
                    }
                    lines.cols -= 1;
                    closed = true;
                } else {
                    proof {
                        lemma_with_front_push(
                            body@,
                            current_char,
                            scan_group(s, here + 1, group_count as nat, pairs),
                        );
                    }
                    body.push(current_char);
                    lines.cols += 1;
                }
            } else if group_count == 0 {
                lines.cols += 1;
            } else {
                proof {
                    lemma_with_front_push(
                            body@,
                            current_char,
                        scan_group(s, here + 1, group_count as nat, pairs),
                    );
                }
                body.push(current_char);
                lines.cols += 1;
            }
        }
        proof {
            assert(body@ + Seq::<char>::empty() =~= body@);
            assert(warnings@ + Seq::<usize>::empty() =~= warnings@);
        }
        Some(Ok(Group { body, pairs: Some(pairs) }))
    }

    /// Extracts the first group of `pairs` at or after the cursor: its body without
    /// the two delimiters, the cursor resting one before the closing delimiter, or
    /// at the end of the line when the group was never closed; or the error of
    /// `scan_group`, the cursor resting where it arose.
    pub fn parse(lines: &mut Lines, pairs: Pairs) -> (r: Result<Group, ParseError>)
        requires
            old(lines).wf(),
            Self::readable(old(lines), pairs),
        ensures
            final(lines).moved_from(old(lines)),
            old(lines).in_bounds() ==> final(lines).in_bounds(),
            group_reports(
                Some(r),
                final(lines).cols,
                scan_group(old(lines).vector_char@, old(lines).cols as int, 0, pairs),
                pairs,
            ),
            r is Ok ==> final(lines).cols >= old(lines).cols && (final(lines).cols
                >= final(lines).length || old(lines).vector_char@[final(lines).cols + 1]
                == close_of(pairs)),
            r matches Err(e) ==> e.status_code <= 5,
    {
        proof {
            lemma_group_cursor(lines.vector_char@, lines.cols as int, 0, pairs);
        }
        match Self::parse_checked(lines, pairs) {
            Some(r) => r,
            None => vstd::pervasive::unreached(),
        }
    }
}

/// A fragment as plain values: its text, and its pair when it is a group.
pub type Fragment = (Seq<char>, Option<Pairs>);

/// The outcome of splitting a line into fragments.
pub enum Fragments {
    /// The fragments in line order and where the cursor rests.
    Done { groups: Seq<Fragment>, at: int },
    /// The error code and where the cursor rests.
    Fail { code: nat, at: int },
    /// A string literal inside a group holds an escape for which no decoding is
    /// defined.
    Unreadable,
}

/// The plain text gathered so far as a fragment of its own, if there is any.
pub open spec fn flush(pending: Seq<char>) -> Seq<Fragment> {
    if pending.len() > 0 {
        seq![(pending, None)]
    } else {
        Seq::empty()
    }
}

/// `r` with the fragments `pre` put before its own.
pub open spec fn with_fragments(pre: Seq<Fragment>, r: Fragments) -> Fragments {
    match r {
        Fragments::Done { groups, at } => Fragments::Done { groups: pre + groups, at },
        other => other,
    }
}

/// The split of a line from position `p` on, with the plain text `pending` gathered
/// before it. Each opening delimiter starts a group, after which the cursor passes
/// over the group's two delimiters, never beyond the end of the line; the plain text
/// between groups is one fragment, and none where there is no such text.
///
/// A group ends beyond its opening delimiter (`lemma_group_cursor`), so the split is
/// `Unreadable` only where the scan of a group is.
pub open spec fn scan_groups(s: Seq<char>, p: int, pending: Seq<char>, kind: Pairs) -> Fragments
    decreases s.len() - p,
{
    if p < 0 || p >= s.len() {
        Fragments::Done { groups: flush(pending), at: p }
    } else if s[p] == open_of(kind) {
        match scan_group(s, p, 0, kind) {
            GroupScan::Done { body, at } => {
                let next = if at + 2 <= s.len() {
                    at + 2
                } else {
                    s.len() as int
                };
                if next > p {
                    with_fragments(
                        flush(pending).push((body, Some(kind))),
                        scan_groups(s, next, Seq::empty(), kind),
                    )
                } else {
                    Fragments::Unreadable
                }
            },
            GroupScan::Fail { code, at } => Fragments::Fail { code, at },
            GroupScan::Unreadable => Fragments::Unreadable,
        }
    } else {
        scan_groups(s, p + 1, pending.push(s[p]), kind)
    }
}

/// The unknown escapes that the split of a line passes, group after group.
pub open spec fn fragments_warnings(s: Seq<char>, p: int, kind: Pairs) -> Seq<usize>
    decreases s.len() - p,
{
    if p < 0 || p >= s.len() {
        Seq::empty()
    } else if s[p] == open_of(kind) {
        group_warnings(s, p, 0, kind) + (match scan_group(s, p, 0, kind) {
            GroupScan::Done { body, at } => {
                let next = if at + 2 <= s.len() {
                    at + 2
                } else {
                    s.len() as int
                };
                if next > p {
                    fragments_warnings(s, next, kind)
                } else {
                    Seq::empty()
                }
            },
            _ => Seq::empty(),
        })
    } else {
        fragments_warnings(s, p + 1, kind)
    }
}

/// The fragments that a vector of groups stands for.
pub open spec fn models(v: Seq<Group>) -> Seq<Fragment> {
    Seq::new(v.len(), |i: int| v[i].model())
}

/// Whether `r`, with the cursor at `cols` afterwards, is what the split `scan` asks for.
pub open spec fn fragments_report(
    r: Option<Result<Vec<Group>, ParseError>>,
    cols: usize,
    scan: Fragments,
    kind: Pairs,
) -> bool {
    match scan {
        Fragments::Done { groups, at } => r matches Some(Ok(v)) && models(v@) == groups && cols
            == at,
        Fragments::Fail { code, at } => r matches Some(Err(e)) && e.status_code == code
            && e.message@ == group_error_text(code, kind) && cols == at,
        Fragments::Unreadable => r is None,
    }
}

/// Putting `pre` and then `more` before a split is putting both before it.
pub proof fn lemma_with_fragments_twice(pre: Seq<Fragment>, more: Seq<Fragment>, r: Fragments)
    ensures
        with_fragments(pre, with_fragments(more, r)) == with_fragments(pre + more, r),
{
    if let Fragments::Done { groups, at } = r {
        assert(pre + (more + groups) =~= (pre + more) + groups);
    }
}

impl Group {
    /// The fragment as plain values.
    pub open spec fn model(&self) -> Fragment {
        (self.body@, self.pairs)
    }

    /// Whether the line can be split from the cursor on: no string literal inside a
    /// group holds a `\u` or `\x` escape whose digit run writes no number.
    pub open spec fn all_readable(lines: &Lines, pairs: Pairs) -> bool {
        scan_groups(lines.vector_char@, lines.cols as int, Seq::empty(), pairs)
            != Fragments::Unreadable
    }

    /// Splits the line from the cursor on into groups of `pairs` and the plain text
    /// between them. `None` where a string literal inside a group cannot be decoded;
    /// otherwise what `scan_groups` says, with the cursor left where it says.
    pub fn parse_groups_checked(lines: &mut Lines, pairs: Pairs) -> (r: Option<
        Result<Vec<Group>, ParseError>,
    >)
        requires
            old(lines).wf(),
        ensures
            final(lines).moved_from(old(lines)),
            old(lines).in_bounds() ==> final(lines).in_bounds(),
            fragments_report(
                r,
                final(lines).cols,
                scan_groups(
                    old(lines).vector_char@,
                    old(lines).cols as int,
                    Seq::empty(),
                    pairs,
                ),
                pairs,
            ),
    {
        let mut warnings: Vec<usize> = Vec::new();
        Self::parse_groups_noting(lines, pairs, &mut warnings)
    }

    /// Splits as `parse_groups_checked` does, and appends to `warnings` what
    /// `parse_noting` notes for each group.
    pub fn parse_groups_noting(lines: &mut Lines, pairs: Pairs, warnings: &mut Vec<usize>) -> (r:
        Option<Result<Vec<Group>, ParseError>>)
        requires
            old(lines).wf(),
        ensures
            final(lines).moved_from(old(lines)),
            old(lines).in_bounds() ==> final(lines).in_bounds(),
            fragments_report(
                r,
                final(lines).cols,
                scan_groups(
                    old(lines).vector_char@,
                    old(lines).cols as int,
                    Seq::empty(),
                    pairs,
                ),
                pairs,
            ),
            final(warnings)@ == old(warnings)@ + fragments_warnings(
                old(lines).vector_char@,
                old(lines).cols as int,
                pairs,
            ),
    {
        let open = delimiters(pairs).0;
        let mut out_pairs = String::new();
        let mut vector_group: Vec<Group> = Vec::new();
        let ghost s = lines.vector_char@;
        let ghost whole = scan_groups(s, lines.cols as int, Seq::empty(), pairs);
        let ghost noted = old(warnings)@ + fragments_warnings(s, lines.cols as int, pairs);
        proof {
            assert(models(vector_group@) =~= Seq::<Fragment>::empty());
            assert(models(vector_group@) + flush(out_pairs@) =~= Seq::<Fragment>::empty());
        }
        while lines.cols < lines.length
            invariant
                lines.wf(),
                lines.moved_from(old(lines)),
                old(lines).in_bounds() ==> lines.in_bounds(),
                s == lines.vector_char@,
                open == open_of(pairs),
                whole == scan_groups(s, old(lines).cols as int, Seq::empty(), pairs),
                noted == old(warnings)@ + fragments_warnings(s, old(lines).cols as int, pairs),
                noted == warnings@ + fragments_warnings(s, lines.cols as int, pairs),
                whole == with_fragments(
                    models(vector_group@),
                    scan_groups(s, lines.cols as int, out_pairs@, pairs),
                ),
            decreases lines.length - lines.cols,
        {
            let current_char = lines.vector_char[lines.cols];
            let ghost here = lines.cols as int;
            if current_char == open {
                proof {
                    lemma_group_cursor(s, here, 0, pairs);
                }
                let ghost before_call = warnings@;
                let ghost inner = group_warnings(s, here, 0, pairs);
                let group = match Self::parse_noting(lines, pairs, warnings) {
                    None => {
                        proof {
                            assert(before_call + (inner + Seq::<usize>::empty()) =~= warnings@);
                        }
                        return None;
                    },
                    Some(Err(e)) => {
                        proof {
                            assert(before_call + (inner + Seq::<usize>::empty()) =~= warnings@);
                        }
                        return Some(Err(e));
                    },
                    Some(Ok(group)) => group,
                };
                let ghost so_far = models(vector_group@);
                let ghost pending = out_pairs@;
                let ghost at = lines.cols as int;
                if !out_pairs.as_str().is_empty() {
                    vector_group.push(Group { body: out_pairs, pairs: None });
                    out_pairs = String::new();
                }
                vector_group.push(group);
                if lines.length - lines.cols >= 2 {
                    lines.cols += 2;
                } else {
                    lines.cols = lines.length;
                }
                proof {
                    let rest = fragments_warnings(s, lines.cols as int, pairs);
                    assert(before_call + (inner + rest) =~= warnings@ + rest);
                    assert(models(vector_group@) =~= so_far + flush(pending).push(
                        (group.body@, Some(pairs)),
                    ));
                    lemma_with_fragments_twice(
                        so_far,
                        flush(pending).push((group.body@, Some(pairs))),
                        scan_groups(s, lines.cols as int, Seq::empty(), pairs),
                    );
                    assert(out_pairs@ =~= Seq::<char>::empty());
                }
            } else {
                out_pairs.push(current_char);
                lines.cols += 1;
            }
        }
        let ghost so_far = models(vector_group@);
        let ghost pending = out_pairs@;
        if !out_pairs.as_str().is_empty() {
            vector_group.push(Group { body: out_pairs, pairs: None });
        }
        proof {
            assert(models(vector_group@) =~= so_far + flush(pending));
            assert(warnings@ + Seq::<usize>::empty() =~= warnings@);
        }
        Some(Ok(vector_group))
    }

    /// Splits the line from the cursor on into groups of `pairs` and the plain text
    /// between them, in line order; or the error of the first group that fails.
    pub fn parse_groups(lines: &mut Lines, pairs: Pairs) -> (r: Result<Vec<Group>, ParseError>)
        requires
            old(lines).wf(),
            Self::all_readable(old(lines), pairs),
        ensures
            final(lines).moved_from(old(lines)),
            old(lines).in_bounds() ==> final(lines).in_bounds(),
            fragments_report(
                Some(r),
                final(lines).cols,
                scan_groups(
                    old(lines).vector_char@,
                    old(lines).cols as int,
                    Seq::empty(),
                    pairs,
                ),
                pairs,
            ),
    {
        match Self::parse_groups_checked(lines, pairs) {
            Some(r) => r,
            None => vstd::pervasive::unreached(),
        }
    }
}

} // verus!

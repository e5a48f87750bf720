//! What holds of every scan: the laws that relate decoded and source lengths,
//! escaping and decoding, and groups and their delimiters.

use vstd::prelude::*;
use crate::decoder::{
    Scan, Step, escape_of, lemma_run_length_bound, scan_body, scan_string, step_at,
};
use crate::groups::{
    Fragment, Fragments, GroupScan, close_of, flush, open_of, scan_group, scan_groups,
};
use crate::init::{Pairs, bounded_slice};

verus! {

/// A step stays inside the line: a decoded character is made from at least one
/// source character and from no more than the line has left.
pub proof fn lemma_step_width(s: Seq<char>, p: int, raw: bool)
    requires
        0 <= p < s.len(),
    ensures
        step_at(s, p, raw) matches Step::Emit { ch, width } ==> 1 <= width <= s.len() - p,
{
    lemma_run_length_bound(bounded_slice(s, p + 2, 8), 0);
    lemma_run_length_bound(bounded_slice(s, p + 2, 2), 0);
}

/// A decoded literal's body: its source length is at least its decoded length; its
/// closing quote stands right after the cursor; and the two lengths are equal exactly
/// when the decoded text is the source text between the quotes, unchanged, that is,
/// when no escape was decoded.
pub proof fn lemma_body_lengths(s: Seq<char>, p: int, raw: bool)
    requires
        0 <= p,
    ensures
        match scan_body(s, p, raw) {
            Scan::Done { text, raw: width, at } => {
                &&& width >= text.len()
                &&& at == p + width - 1
                &&& at + 1 < s.len()
                &&& s[at + 1] == '"'
                &&& (width == text.len() <==> text == s.subrange(p, p + width))
            },
            Scan::Fail { code, at } => code <= 4 && p <= at && (at <= s.len() || at == p),
            Scan::Unreadable => true,
        },
    decreases s.len() - p,
{
    if p < s.len() {
        match step_at(s, p, raw) {
            Step::Emit { ch, width } => {
                if 1 <= width <= s.len() - p {
                    lemma_body_lengths(s, p + width, raw);
                    match scan_body(s, p + width, raw) {
                        Scan::Done { text, raw: rest, at } => {
                            let whole = seq![ch] + text;
                            if width == 1 {
                                assert(ch == s[p]);
                                if rest == text.len() {
                                    assert(whole =~= s.subrange(p, p + rest + 1));
                                }
                                if whole == s.subrange(p, p + rest + 1) {
                                    assert(whole.len() == rest + 1);
                                }
                            } else {
                                assert(s.subrange(p, p + rest + width).len() == rest + width);
                            }
                        },
                        _ => {},
                    }
                }
            },
            Step::Close => {
                assert(s.subrange(p, p) =~= Seq::<char>::empty());
            },
            _ => {},
        }
    }
}

/// The law of lengths for a whole scan: the source length of a decoded literal is
/// never below its decoded length, and the two are equal exactly when the decoded
/// text is the source text before the closing quote, unchanged.
pub proof fn lemma_string_lengths(s: Seq<char>, p: int, raw: bool)
    requires
        0 <= p,
    ensures
        match scan_string(s, p, raw) {
            Scan::Done { text, raw: width, at } => {
                &&& width >= text.len()
                &&& at >= p
                &&& (width == text.len() <==> text == bounded_slice(
                    s,
                    at + 1 - width,
                    width as int,
                ))
            },
            Scan::Fail { code, at } => code <= 4 && p <= at <= s.len(),
            Scan::Unreadable => true,
        },
    decreases s.len() - p,
{
    if p < s.len() {
        if s[p] == '"' {
            lemma_body_lengths(s, p + 1, raw);
        } else {
            lemma_string_lengths(s, p + 1, raw);
        }
    } else {
        assert(bounded_slice(s, p + 1, 0) =~= Seq::<char>::empty());
    }
}

/// In raw mode every literal can be decoded: no escape but `\"` is looked at.
pub proof fn lemma_raw_readable(s: Seq<char>, p: int)
    requires
        0 <= p,
    ensures
        scan_body(s, p, true) != Scan::Unreadable,
        scan_string(s, p, true) != Scan::Unreadable,
    decreases s.len() - p,
{
    if p < s.len() {
        lemma_raw_readable(s, p + 1);
        if p + 2 <= s.len() {
            lemma_raw_readable(s, p + 2);
        }
    }
}

/// The source form of one decoded character: a backslash and a letter for the
/// control characters, the backslash and the quote; the character itself otherwise.
pub open spec fn escaped(c: char) -> Seq<char> {
    if c == '\x00' {
        seq!['\\', '0']
    } else if c == '\x07' {
        seq!['\\', 'a']
    } else if c == '\x08' {
        seq!['\\', 'b']
    } else if c == '\x0C' {
        seq!['\\', 'f']
    } else if c == '\n' {
        seq!['\\', 'n']
    } else if c == '\r' {
        seq!['\\', 'r']
    } else if c == '\t' {
        seq!['\\', 't']
    } else if c == '\x0B' {
        seq!['\\', 'v']
    } else if c == '\\' {
        seq!['\\', '\\']
    } else if c == '"' {
        seq!['\\', '"']
    } else {
        seq![c]
    }
}

/// The source form of a text: that of its characters, one after the other.
pub open spec fn escape_text(t: Seq<char>) -> Seq<char>
    decreases t.len(),
{
    if t.len() == 0 {
        Seq::empty()
    } else {
        escaped(t[0]) + escape_text(t.drop_first())
    }
}

/// The text `t` between quotes, in source form.
pub open spec fn quoted(t: Seq<char>) -> Seq<char> {
    seq!['"'] + escape_text(t) + seq!['"']
}

/// Where a buffer goes on from `p` with the source form of `t` and a quote, the body
/// scanned from `p` is `t`.
pub proof fn lemma_decode_escaped(s: Seq<char>, p: int, t: Seq<char>)
    requires
        0 <= p <= s.len(),
        s.subrange(p, s.len() as int) == escape_text(t) + seq!['"'],
    ensures
        scan_body(s, p, false) == (Scan::Done {
            text: t,
            raw: escape_text(t).len(),
            at: s.len() - 2,
        }),
    decreases t.len(),
{
    let tail = s.subrange(p, s.len() as int);
    if t.len() == 0 {
        assert(tail[0] == '"');
        assert(s[p] == tail[0]);
        assert(t =~= Seq::<char>::empty());
    } else {
        let c = t[0];
        let e = escaped(c);
        let rest = t.drop_first();
        assert(tail == e + escape_text(rest) + seq!['"']) by {
            assert(e + escape_text(rest) + seq!['"'] =~= (e + escape_text(rest)) + seq!['"']);
        }
        assert(tail.len() == e.len() + escape_text(rest).len() + 1);
        assert(tail.len() == s.len() - p);
        assert(s[p] == tail[0]);
        assert(tail[0] == e[0]);
        if e.len() == 2 {
            assert(s[p + 1] == tail[1]);
            assert(tail[1] == e[1]);
            assert(escape_of(e[1]) == Some(c));
        }
        let width = e.len() as int;
        assert(s.subrange(p + width, s.len() as int) =~= escape_text(rest) + seq!['"']) by {
            assert(s.subrange(p + width, s.len() as int) =~= tail.subrange(
                width,
                tail.len() as int,
            ));
        }
        lemma_decode_escaped(s, p + width, rest);
        assert(step_at(s, p, false) == Step::Emit { ch: c, width: width as nat });
        assert(seq![c] + rest =~= t);
        assert(escape_text(t).len() == escape_text(rest).len() + width);
    }
}

/// The escaping law: every text, put in source form between quotes and decoded,
/// comes back unchanged, with the length of its source form as its source length.
/// So a decoded text, escaped and decoded once more, is the same text.
pub proof fn lemma_escape_round_trip(t: Seq<char>)
    ensures
        scan_string(quoted(t), 0, false) == (Scan::Done {
            text: t,
            raw: escape_text(t).len(),
            at: escape_text(t).len() as int,
        }),
{
    let s = quoted(t);
    assert(s[0] == '"');
    assert(s.subrange(1, s.len() as int) =~= escape_text(t) + seq!['"']);
    lemma_decode_escaped(s, 1, t);
}

/// Where a group scan leaves the cursor. After a success it rests one before a
/// closing delimiter, or the line is exhausted: a group that was opened and never
/// closed shows in a cursor at or beyond the end of the line. After a failure it
/// rests inside the line on the character that failed, and the code is at most 5.
pub proof fn lemma_group_cursor(s: Seq<char>, p: int, depth: nat, kind: Pairs)
    requires
        0 <= p,
    ensures
        match scan_group(s, p, depth, kind) {
            GroupScan::Done { body, at } => {
                &&& at >= p - 1
                &&& depth == 0 ==> at >= p
                &&& (at >= s.len() && at >= p) || (at + 1 < s.len() && s[at + 1] == close_of(kind))
                &&& p <= s.len() ==> at <= s.len()
            },
            GroupScan::Fail { code, at } => {
                &&& code <= 5
                &&& p <= at < s.len()
                &&& code == 5 ==> s[at] == close_of(kind)
            },
            GroupScan::Unreadable => true,
        },
    decreases s.len() - p,
{
    if p < s.len() {
        if s[p] == '"' && depth != 0 {
            let sub = s.subrange(p, s.len() as int);
            lemma_body_lengths(sub, 1, false);
            match scan_string(sub, 0, false) {
                Scan::Done { text, raw, at } => {
                    lemma_group_cursor(s, p + raw + 2, depth, kind);
                },
                _ => {},
            }
        } else if s[p] == open_of(kind) {
            lemma_group_cursor(s, p + 1, depth + 1, kind);
        } else if s[p] == close_of(kind) {
            if depth >= 2 {
                lemma_group_cursor(s, p + 1, (depth - 1) as nat, kind);
            }
        } else {
            lemma_group_cursor(s, p + 1, depth, kind);
        }
    }
}

/// A closing delimiter met before any opening one is an error: where the first
/// delimiter of `kind` at or after `p` is a closing one, at `j`, the scan fails
/// there with code 5.
pub proof fn lemma_unmatched_close(s: Seq<char>, p: int, j: int, kind: Pairs)
    requires
        0 <= p <= j < s.len(),
        s[j] == close_of(kind),
        forall|i: int| p <= i < j ==> s[i] != open_of(kind) && s[i] != close_of(kind),
    ensures
        scan_group(s, p, 0, kind) == (GroupScan::Fail { code: 5, at: j }),
    decreases j - p,
{
    if p < j {
        lemma_unmatched_close(s, p + 1, j, kind);
    }
}

/// No character of `body` is a quote: the group holds no string literal.
pub open spec fn no_quote(body: Seq<char>) -> bool {
    forall|i: int| 0 <= i < body.len() ==> body[i] != '"'
}

/// How many more opening than closing delimiters of `kind` a text holds.
pub open spec fn surplus(body: Seq<char>, kind: Pairs) -> int
    decreases body.len(),
{
    if body.len() == 0 {
        0
    } else {
        surplus(body.drop_first(), kind) + (if body[0] == open_of(kind) {
            1int
        } else if body[0] == close_of(kind) {
            -1int
        } else {
            0int
        })
    }
}

/// Inside a group, `depth` delimiters deep, that is closed and holds no string
/// literal, the rest of the body closes all but one of the open delimiters.
pub proof fn lemma_surplus(s: Seq<char>, p: int, depth: nat, kind: Pairs)
    requires
        0 <= p,
        depth >= 1,
        scan_group(s, p, depth, kind) matches GroupScan::Done { body, at } && at + 1 < s.len()
            && no_quote(body),
    ensures
        scan_group(s, p, depth, kind) matches GroupScan::Done { body, at } && surplus(body, kind)
            == 1 - depth,
    decreases s.len() - p,
{
    let body = scan_group(s, p, depth, kind)->Done_body;
    lemma_group_cursor(s, p, depth, kind);
    if s[p] == '"' {
        let sub = s.subrange(p, s.len() as int);
        match scan_string(sub, 0, false) {
            Scan::Done { text, raw, at: _ } => {
                if p + raw + 2 <= s.len() {
                    let front = seq!['"'] + text + seq!['"'];
                    assert(body[0] == front[0]);
                }
            },
            _ => {},
        }
    } else if s[p] == close_of(kind) && depth == 1 {
    } else {
        let next: nat = if s[p] == open_of(kind) {
            depth + 1
        } else if s[p] == close_of(kind) {
            (depth - 1) as nat
        } else {
            depth
        };
        let rest = scan_group(s, p + 1, next, kind)->Done_body;
        assert(body == seq![s[p]] + rest);
        assert(body.drop_first() =~= rest);
        assert forall|i: int| 0 <= i < rest.len() implies rest[i] != '"' by {
            assert(rest[i] == body[i + 1]);
        }
        lemma_surplus(s, p + 1, next, kind);
    }
}

/// The law of balance: the body of a group that was closed and holds no string
/// literal has as many opening as closing delimiters of its pair.
pub proof fn lemma_balanced_body(s: Seq<char>, p: int, kind: Pairs)
    requires
        0 <= p,
        scan_group(s, p, 0, kind) matches GroupScan::Done { body, at } && at + 1 < s.len()
            && no_quote(body),
    ensures
        scan_group(s, p, 0, kind) matches GroupScan::Done { body, at } && surplus(body, kind) == 0,
    decreases s.len() - p,
{
    if s[p] == open_of(kind) {
        lemma_surplus(s, p + 1, 1, kind);
    } else {
        lemma_balanced_body(s, p + 1, kind);
    }
}

/// A body put back between the delimiters of its pair.
pub open spec fn wrapped(body: Seq<char>, kind: Pairs) -> Seq<char> {
    seq![open_of(kind)] + body + seq![close_of(kind)]
}

/// A literal in which no escape was decoded is decoded alike wherever it stands:
/// where `t` holds from `q` on what `s` holds from `p` up to the closing quote, the
/// scan of `t` gives the same text and the matching cursor.
pub proof fn lemma_body_transfer(s: Seq<char>, p: int, t: Seq<char>, q: int)
    requires
        0 <= p,
        0 <= q,
        scan_body(s, p, false) matches Scan::Done { text, raw, at } && raw == text.len() && q
            + raw + 1 <= t.len() && t.subrange(q, q + raw + 1) == s.subrange(p, p + raw + 1),
    ensures
        scan_body(s, p, false) matches Scan::Done { text, raw, at } && scan_body(t, q, false) == (
        Scan::Done { text, raw, at: at - p + q }),
    decreases s.len() - p,
{
    let raw = scan_body(s, p, false)->Done_raw as int;
    lemma_body_lengths(s, p, false);
    let ws = s.subrange(p, p + raw + 1);
    let wt = t.subrange(q, q + raw + 1);
    assert(s[p] == ws[0]);
    assert(t[q] == wt[0]);
    match step_at(s, p, false) {
        Step::Emit { ch, width } => {
            lemma_body_lengths(s, p + width, false);
            assert(width == 1);
            assert(s[p + 1] == ws[1]);
            assert(t[q + 1] == wt[1]);
            assert(step_at(t, q, false) == Step::Emit { ch, width: 1 });
            assert(t.subrange(q + 1, q + 1 + (raw - 1) + 1) =~= wt.subrange(1, raw + 1));
            assert(s.subrange(p + 1, p + 1 + (raw - 1) + 1) =~= ws.subrange(1, raw + 1));
            lemma_body_transfer(s, p + 1, t, q + 1);
        },
        _ => {},
    }
}

/// A closed group's body is never longer than the source text it was taken from.
pub proof fn lemma_group_length(s: Seq<char>, p: int, depth: nat, kind: Pairs)
    requires
        0 <= p,
        depth >= 1,
        scan_group(s, p, depth, kind) matches GroupScan::Done { body, at } && at + 1 < s.len(),
    ensures
        scan_group(s, p, depth, kind) matches GroupScan::Done { body, at } && body.len() <= at
            + 1 - p,
    decreases s.len() - p,
{
    lemma_group_cursor(s, p, depth, kind);
    if s[p] == '"' {
        let sub = s.subrange(p, s.len() as int);
        lemma_body_lengths(sub, 1, false);
        let raw = scan_string(sub, 0, false)->Done_raw as int;
        lemma_group_length(s, p + raw + 2, depth, kind);
    } else if s[p] == close_of(kind) && depth == 1 {
    } else {
        let next: nat = if s[p] == open_of(kind) {
            depth + 1
        } else if s[p] == close_of(kind) {
            (depth - 1) as nat
        } else {
            depth
        };
        lemma_group_length(s, p + 1, next, kind);
    }
}

/// A closed group whose body is as long as its source text, that is, in whose string
/// literals no escape was decoded, is scanned alike wherever its text stands: where
/// `t` holds from `q` on what `s` holds from `p` up to the closing delimiter, the
/// scan of `t` gives the same body and the matching cursor.
pub proof fn lemma_group_transfer(
    s: Seq<char>,
    p: int,
    depth: nat,
    kind: Pairs,
    t: Seq<char>,
    q: int,
)
    requires
        0 <= p,
        0 <= q,
        depth >= 1,
        scan_group(s, p, depth, kind) matches GroupScan::Done { body, at } && at + 1 < s.len()
            && body.len() == at + 1 - p && q + (at + 2 - p) <= t.len() && t.subrange(
            q,
            q + (at + 2 - p),
        ) == s.subrange(p, at + 2),
    ensures
        scan_group(s, p, depth, kind) matches GroupScan::Done { body, at } && scan_group(
            t,
            q,
            depth,
            kind,
        ) == (GroupScan::Done { body, at: at - p + q }),
    decreases s.len() - p,
{
    let at = scan_group(s, p, depth, kind)->Done_at;
    let n = at + 2 - p;
    let ws = s.subrange(p, at + 2);
    let wt = t.subrange(q, q + n);
    lemma_group_cursor(s, p, depth, kind);
    assert(s[p] == ws[0]);
    assert(t[q] == wt[0]);
    if s[p] == '"' {
        let sub = s.subrange(p, s.len() as int);
        let tub = t.subrange(q, t.len() as int);
        lemma_body_lengths(sub, 1, false);
        let raw = scan_string(sub, 0, false)->Done_raw as int;
        lemma_group_cursor(s, p + raw + 2, depth, kind);
        lemma_group_length(s, p + raw + 2, depth, kind);
        assert(tub.subrange(1, 1 + raw + 1) =~= wt.subrange(1, raw + 2));
        assert(sub.subrange(1, 1 + raw + 1) =~= ws.subrange(1, raw + 2));
        lemma_body_transfer(sub, 1, tub, 1);
        assert(tub[0] == t[q]);
        assert(t.subrange(q + raw + 2, q + raw + 2 + (at + 2 - (p + raw + 2))) =~= wt.subrange(
            raw + 2,
            n,
        ));
        assert(s.subrange(p + raw + 2, at + 2) =~= ws.subrange(raw + 2, n));
        lemma_group_transfer(s, p + raw + 2, depth, kind, t, q + raw + 2);
    } else if s[p] == close_of(kind) && depth == 1 {
    } else {
        let next: nat = if s[p] == open_of(kind) {
            depth + 1
        } else if s[p] == close_of(kind) {
            (depth - 1) as nat
        } else {
            depth
        };
        lemma_group_length(s, p + 1, next, kind);
        assert(t.subrange(q + 1, q + 1 + (at + 2 - (p + 1))) =~= wt.subrange(1, n));
        assert(s.subrange(p + 1, at + 2) =~= ws.subrange(1, n));
        lemma_group_transfer(s, p + 1, next, kind, t, q + 1);
    }
}

/// The law of re-scanning. Take a group that was closed and that stands in the line
/// as it was captured: its body between its delimiters is the source text from the
/// first opening delimiter, at `o`, to the closing one, so that no escape was decoded
/// in it. Scanning that text gives the same body and leaves the cursor one before the
/// closing delimiter; splitting it gives that one group and leaves the cursor one
/// past the closing delimiter.
pub proof fn lemma_rescan_group(s: Seq<char>, p: int, o: int, kind: Pairs)
    requires
        0 <= p <= o,
        forall|i: int| p <= i < o ==> s[i] != open_of(kind),
        scan_group(s, p, 0, kind) matches GroupScan::Done { body, at } && at + 1 < s.len()
            && o <= at && wrapped(body, kind) == s.subrange(o, at + 2),
    ensures
        scan_group(s, p, 0, kind) matches GroupScan::Done { body, at } && scan_group(
            wrapped(body, kind),
            0,
            0,
            kind,
        ) == (GroupScan::Done { body, at: body.len() as int }) && scan_groups(
            wrapped(body, kind),
            0,
            Seq::empty(),
            kind,
        ) == (Fragments::Done {
            groups: seq![(body, Some(kind))],
            at: wrapped(body, kind).len() as int,
        }),
    decreases o - p,
{
    let body = scan_group(s, p, 0, kind)->Done_body;
    let at = scan_group(s, p, 0, kind)->Done_at;
    let t = wrapped(body, kind);
    if p < o {
        lemma_rescan_group(s, p + 1, o, kind);
    } else {
        assert(t[0] == s.subrange(o, at + 2)[0]);
        assert(t.len() == at + 2 - o);
        assert(t.subrange(1, 1 + (at + 2 - (o + 1))) =~= s.subrange(o + 1, at + 2));
        lemma_group_transfer(s, o + 1, 1, kind, t, 1);
        assert(scan_group(t, 0, 0, kind) == scan_group(t, 1, 1, kind));
        let one: Seq<Fragment> = flush(Seq::<char>::empty()).push((body, Some(kind)));
        assert(one =~= seq![(body, Some(kind))]);
        assert(scan_groups(t, t.len() as int, Seq::empty(), kind) == Fragments::Done {
            groups: Seq::empty(),
            at: t.len() as int,
        });
        assert(one + Seq::<Fragment>::empty() =~= one);
    }
}

/// No character of `s` from `p` on is a backslash.
pub open spec fn no_backslash(s: Seq<char>, p: int) -> bool {
    forall|i: int| p <= i < s.len() ==> s[i] != '\\'
}

/// A line without a backslash holds no escape, so every literal in it can be decoded.
pub proof fn lemma_plain_readable(s: Seq<char>, p: int, raw: bool)
    requires
        0 <= p,
        no_backslash(s, p),
    ensures
        scan_body(s, p, raw) != Scan::Unreadable,
        scan_string(s, p, raw) != Scan::Unreadable,
    decreases s.len() - p,
{
    if p < s.len() {
        lemma_plain_readable(s, p + 1, raw);
    }
}

/// A line without a backslash can be scanned for a group from any position on.
pub proof fn lemma_plain_group_readable(s: Seq<char>, p: int, depth: nat, kind: Pairs)
    requires
        0 <= p,
        no_backslash(s, p),
    ensures
        scan_group(s, p, depth, kind) != GroupScan::Unreadable,
    decreases s.len() - p,
{
    if p < s.len() {
        if s[p] == '"' && depth != 0 {
            let sub = s.subrange(p, s.len() as int);
            assert forall|i: int| 0 <= i < sub.len() implies sub[i] != '\\' by {
                assert(sub[i] == s[p + i]);
            }
            lemma_plain_readable(sub, 0, false);
            lemma_body_lengths(sub, 1, false);
            match scan_string(sub, 0, false) {
                Scan::Done { text, raw, at } => {
                    lemma_plain_group_readable(s, p + raw + 2, depth, kind);
                },
                _ => {},
            }
        } else if s[p] == open_of(kind) {
            lemma_plain_group_readable(s, p + 1, depth + 1, kind);
        } else if s[p] == close_of(kind) {
            if depth >= 2 {
                lemma_plain_group_readable(s, p + 1, (depth - 1) as nat, kind);
            }
        } else {
            lemma_plain_group_readable(s, p + 1, depth, kind);
        }
    }
}

/// A line without a backslash can be split into fragments from any position on.
pub proof fn lemma_plain_groups_readable(s: Seq<char>, p: int, pending: Seq<char>, kind: Pairs)
    requires
        0 <= p,
        no_backslash(s, p),
    ensures
        scan_groups(s, p, pending, kind) != Fragments::Unreadable,
    decreases s.len() - p,
{
    if p < s.len() {
        if s[p] == open_of(kind) {
            lemma_plain_group_readable(s, p, 0, kind);
            lemma_group_cursor(s, p, 0, kind);
            match scan_group(s, p, 0, kind) {
                GroupScan::Done { body, at } => {
                    let next = if at + 2 <= s.len() {
                        at + 2
                    } else {
                        s.len() as int
                    };
                    lemma_plain_groups_readable(s, next, Seq::empty(), kind);
                },
                _ => {},
            }
        } else {
            lemma_plain_groups_readable(s, p + 1, pending.push(s[p]), kind);
        }
    }
}

} // verus!

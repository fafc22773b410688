//! The text that the task editor starts from, and how the lines that it hands
//! back become a subject and a body.
//!
//! Blank lines before the subject, and between the subject and the first
//! line of the body, are dropped; from the first body line on, every line is
//! kept, blank or not.
use vstd::prelude::*;
use vstd::string::*;

use crate::task::Content;

verus! {

/// Unicode White_Space: the characters that `char::is_whitespace` accepts.
pub open spec fn is_white(c: char) -> bool {
    ||| '\u{9}' <= c <= '\u{d}'
    ||| c == ' ' || c == '\u{85}' || c == '\u{a0}' || c == '\u{1680}'
    ||| '\u{2000}' <= c <= '\u{200a}'
    ||| c == '\u{2028}' || c == '\u{2029}' || c == '\u{202f}' || c == '\u{205f}' || c == '\u{3000}'
}

/// Whether `c` is white space in the sense of `is_white`.
fn char_is_white(c: char) -> (r: bool)
    ensures
        r == is_white(c),
{
    ('\u{9}' <= c && c <= '\u{d}') || c == ' ' || c == '\u{85}' || c == '\u{a0}' || c == '\u{1680}'
        || ('\u{2000}' <= c && c <= '\u{200a}') || c == '\u{2028}' || c == '\u{2029}' || c
        == '\u{202f}' || c == '\u{205f}' || c == '\u{3000}'
}

/// A line is blank when it holds white space only.
pub open spec fn is_blank(line: Seq<char>) -> bool {
    forall|k: int| 0 <= k < line.len() ==> is_white(#[trigger] line[k])
}

/// Whether a line holds white space only.
fn line_is_blank(line: &str) -> (r: bool)
    ensures
        r == is_blank(line@),
{
    let n = line.unicode_len();
    let mut i: usize = 0;
    while i < n
        invariant
            n == line@.len(),
            0 <= i <= n,
            forall|k: int| 0 <= k < i ==> is_white(#[trigger] line@[k]),
        decreases n - i,
    {
        if !char_is_white(line.get_char(i)) {
            return false;
        }
        i = i + 1;
    }
    true
}

/// The texts of a sequence of strings.
pub open spec fn texts(lines: Seq<String>) -> Seq<Seq<char>> {
    lines.map_values(|s: String| s@)
}

/// The lines that are kept, where `blank` marks the blank lines and `seen`
/// non-blank lines came before: a line is kept when it is not blank or when
/// two non-blank lines came before it.
pub open spec fn kept_lines(lines: Seq<Seq<char>>, blank: Seq<bool>, seen: int) -> Seq<Seq<char>>
    decreases lines.len(),
{
    if lines.len() == 0 {
        Seq::empty()
    } else if seen > 1 {
        lines
    } else if !blank[0] {
        seq![lines[0]] + kept_lines(lines.drop_first(), blank.drop_first(), seen + 1)
    } else {
        kept_lines(lines.drop_first(), blank.drop_first(), seen)
    }
}

/// Lines joined with a newline between each two.
pub open spec fn join_lines(lines: Seq<Seq<char>>) -> Seq<char>
    decreases lines.len(),
{
    if lines.len() == 0 {
        Seq::empty()
    } else if lines.len() == 1 {
        lines[0]
    } else {
        join_lines(lines.drop_last()) + seq!['\n'] + lines.last()
    }
}

/// The content that kept lines give: the first is the subject, the others,
/// joined, the body; no line gives no content.
pub open spec fn content_of(kept: Seq<Seq<char>>, r: Option<Content>) -> bool {
    if kept.len() == 0 {
        r is None
    } else {
        r matches Some(c) && c.subject@ == kept[0] && c.body@ == join_lines(kept.drop_first())
    }
}

/// The text the editor starts from: the subject alone, or the subject, an
/// empty line and the body.
pub open spec fn editor_text(subject: Seq<char>, body: Seq<char>) -> Seq<char> {
    if body.len() == 0 {
        subject
    } else {
        subject + seq!['\n', '\n'] + body
    }
}

proof fn lemma_kept_step(lines: Seq<Seq<char>>, blank: Seq<bool>, i: int, seen: int)
    requires
        0 <= i < lines.len(),
        blank.len() == lines.len(),
        0 <= seen,
    ensures
        ({
            let keep = seen > 1 || !blank[i];
            let next = if seen <= 1 && !blank[i] { seen + 1 } else { seen };
            kept_lines(lines.subrange(i, lines.len() as int), blank.subrange(i, lines.len() as int), seen)
                == if keep {
                seq![lines[i]] + kept_lines(
                    lines.subrange(i + 1, lines.len() as int),
                    blank.subrange(i + 1, lines.len() as int),
                    next,
                )
            } else {
                kept_lines(
                    lines.subrange(i + 1, lines.len() as int),
                    blank.subrange(i + 1, lines.len() as int),
                    next,
                )
            }
        }),
{
    let n = lines.len() as int;
    let ls = lines.subrange(i, n);
    let bs = blank.subrange(i, n);
    assert(ls.drop_first() =~= lines.subrange(i + 1, n));
    assert(bs.drop_first() =~= blank.subrange(i + 1, n));
    if seen > 1 {
        let rest = lines.subrange(i + 1, n);
        assert(ls =~= seq![lines[i]] + rest);
        if rest.len() > 0 {
            assert(kept_lines(rest, blank.subrange(i + 1, n), seen) == rest);
        }
    }
}

/// The content of the editor's lines, where `blank[i]` says whether line `i`
/// is blank.
pub fn content_from_marked_lines(lines: &Vec<String>, blank: &Vec<bool>) -> (r: Option<Content>)
    requires
        lines.len() == blank.len(),
    ensures
        content_of(kept_lines(texts(lines@), blank@, 0), r),
{
    let ghost all = texts(lines@);
    let ghost n = lines.len() as int;
    let ghost mut prefix: Seq<Seq<char>> = Seq::empty();
    let mut subject: Option<String> = None;
    let mut body = String::new();
    let mut seen: usize = 0;
    let mut n_kept: usize = 0;
    let mut i: usize = 0;
    proof {
        assert(all.subrange(0, n) =~= all);
        assert(blank@.subrange(0, n) =~= blank@);
    }
    while i < lines.len()
        invariant
            n == lines.len(),
            all == texts(lines@),
            all.len() == n,
            lines.len() == blank.len(),
            0 <= i <= n,
            seen <= 2,
            n_kept == prefix.len(),
            n_kept <= i,
            prefix + kept_lines(all.subrange(i as int, n), blank@.subrange(i as int, n), seen as int)
                == kept_lines(all, blank@, 0),
            subject is None <==> prefix.len() == 0,
            subject matches Some(s) ==> s@ == prefix[0],
            prefix.len() > 0 ==> body@ == join_lines(prefix.drop_first()),
            prefix.len() == 0 ==> body@.len() == 0,
        decreases n - i,
    {
        proof {
            lemma_kept_step(all, blank@, i as int, seen as int);
        }
        let keep = seen > 1 || !blank[i];
        if seen <= 1 && !blank[i] {
            seen = seen + 1;
        }
        if keep {
            let line = &lines[i];
            assert(line@ == all[i as int]);
            match subject {
                None => {
                    subject = Some(line.clone());
                },
                Some(_) => {
                    proof {
                        reveal_strlit("\n");
                    }
                    if n_kept > 1 {
                        body.append("\n");
                    }
                    body.append(line.as_str());
                    proof {
                        let old_rest = prefix.drop_first();
                        assert(prefix.push(all[i as int]).drop_first() =~= old_rest.push(all[i as int]));
                        assert(old_rest.push(all[i as int]).drop_last() =~= old_rest);
                    }
                },
            }
            proof {
                let p2 = prefix.push(all[i as int]);
                assert(p2 + kept_lines(all.subrange(i + 1, n), blank@.subrange(i + 1, n), seen as int)
                    =~= prefix + (seq![all[i as int]] + kept_lines(
                    all.subrange(i + 1, n),
                    blank@.subrange(i + 1, n),
                    seen as int,
                )));
                prefix = p2;
            }
            n_kept = n_kept + 1;
        }
        i = i + 1;
    }
    proof {
        assert(prefix =~= kept_lines(all, blank@, 0));
    }
    match subject {
        Some(s) => Some(Content { subject: s, body }),
        None => None,
    }
}

/// The content of the editor's lines: the first non-blank line is the
/// subject; the body starts at the next non-blank line and runs to the end.
/// No content where every line is blank (white space only).
pub fn content_from_lines(lines: &Vec<String>) -> (r: Option<Content>)
    ensures
        content_of(kept_lines(texts(lines@), texts(lines@).map_values(|t: Seq<char>| is_blank(t)), 0), r),
{
    let mut blank: Vec<bool> = Vec::new();
    let mut i: usize = 0;
    while i < lines.len()
        invariant
            0 <= i <= lines.len(),
            blank@ =~= texts(lines@).subrange(0, i as int).map_values(|t: Seq<char>| is_blank(t)),
        decreases lines.len() - i,
    {
        blank.push(line_is_blank(lines[i].as_str()));
        i = i + 1;
    }
    assert(texts(lines@).subrange(0, lines.len() as int) =~= texts(lines@));
    content_from_marked_lines(lines, &blank)
}

/// The text the editor starts from for a task's subject and body.
pub fn initial_text(subject: &str, body: &str) -> (r: String)
    ensures
        r@ == editor_text(subject@, body@),
{
    let mut text = String::from_str(subject);
    if !body.is_empty() {
        proof {
            reveal_strlit("\n\n");
        }
        text.append("\n\n");
        text.append(body);
    }
    text
}

} // verus!

//! The text of a file as a sequence of lines, and its rewriting line by line.

use vstd::prelude::*;
use crate::strings::{chars_of, string_of};
use crate::text::{contains, first_index_found, first_index_is_first, first_index_of,
    has_foreign_char, occurs, replace_all, replace_round_trip, replaced, replaced_ends_alike,
    replaced_holds_no_new_char, replaced_without_occurrence};

verus! {

/// `line` without one carriage return at its end, if it has one there.
pub open spec fn without_cr(line: Seq<char>) -> Seq<char> {
    if line.len() > 0 && line.last() == '\r' {
        line.drop_last()
    } else {
        line
    }
}

/// The lines of `text`. A line ends at a line feed, which does not belong to
/// it, nor does a carriage return just before that line feed. What follows the
/// last line feed is a line of its own unless it is empty.
pub open spec fn lines_of(text: Seq<char>) -> Seq<Seq<char>>
    decreases text.len(),
{
    let k = first_index_of(text, '\n');
    if text.len() == 0 {
        Seq::empty()
    } else if 0 <= k < text.len() {
        seq![without_cr(text.take(k))] + lines_of(text.skip(k + 1))
    } else {
        seq![text]
    }
}

/// The lines with one line feed between each two of them, and none at the end.
pub open spec fn joined(lines: Seq<Seq<char>>) -> Seq<char>
    decreases lines.len(),
{
    if lines.len() == 0 {
        Seq::empty()
    } else if lines.len() == 1 {
        lines[0]
    } else {
        joined(lines.drop_last()) + seq!['\n'] + lines.last()
    }
}

/// Some line holds `from`.
pub open spec fn touched(lines: Seq<Seq<char>>, from: Seq<char>) -> bool {
    exists|i: int| 0 <= i < lines.len() && occurs(#[trigger] lines[i], from)
}

/// Every line with every occurrence of `from` replaced by `to`.
pub open spec fn rewritten(lines: Seq<Seq<char>>, from: Seq<char>, to: Seq<char>) -> Seq<
    Seq<char>,
> {
    Seq::new(lines.len(), |i: int| replaced(lines[i], from, to))
}

/// The text that is staged for a file that holds `text`.
pub open spec fn staged_text(text: Seq<char>, from: Seq<char>, to: Seq<char>) -> Seq<char> {
    joined(rewritten(lines_of(text), from, to))
}

/// The text does not end in a line feed, and no carriage return in it stands
/// just before a line feed: splitting and joining loses nothing of it.
pub open spec fn is_plain(text: Seq<char>) -> bool {
    &&& text.len() > 0 ==> text.last() != '\n'
    &&& forall|i: int|
        0 <= i && i + 1 < text.len() && #[trigger] text[i] == '\r' ==> text[i + 1] != '\n'
}

/// Splits `text` into its lines.
pub fn split_lines(text: &str) -> (lines: Vec<String>)
    ensures
        lines.deep_view() == lines_of(text@),
{
    let chars = chars_of(text);
    let n: usize = chars.len();
    let mut lines: Vec<String> = Vec::new();
    let mut start: usize = 0;
    assert(chars@.skip(0) =~= chars@);
    assert(lines.deep_view() =~= Seq::<Seq<char>>::empty());
    while start < n
        invariant
            start <= n,
            n == chars.len(),
            chars@ == text@,
            lines.deep_view() + lines_of(chars@.skip(start as int)) == lines_of(chars@),
        decreases n - start,
    {
        let ghost rest = chars@.skip(start as int);
        let ghost before = lines.deep_view();
        let mut end: usize = start;
        while end < n && chars[end] != '\n'
            invariant
                start <= end <= n,
                n == chars.len(),
                forall|j: int| start <= j < end ==> chars@[j] != '\n',
            decreases n - end,
        {
            end += 1;
        }
        proof {
            first_index_found(rest, '\n', end - start);
        }
        if end < n {
            let stop: usize = if end > start && chars[end - 1] == '\r' {
                end - 1
            } else {
                end
            };
            let line = string_of(&chars, start, stop);
            proof {
                assert(rest.take(end - start) =~= chars@.subrange(start as int, end as int));
                assert(line@ =~= without_cr(rest.take(end - start)));
                assert(rest.skip(end - start + 1) =~= chars@.skip(end + 1));
            }
            lines.push(line);
            start = end + 1;
        } else {
            let line = string_of(&chars, start, n);
            proof {
                assert(line@ =~= rest);
                assert(chars@.skip(n as int) =~= Seq::<char>::empty());
            }
            lines.push(line);
            start = n;
        }
        proof {
            assert(lines.deep_view() =~= before.push(lines@[lines.len() - 1]@));
            assert(lines.deep_view() + lines_of(chars@.skip(start as int)) =~= before + lines_of(
                rest,
            ));
        }
    }
    proof {
        assert(lines.deep_view() + lines_of(chars@.skip(start as int)) =~= lines.deep_view());
    }
    lines
}

/// Joins the lines with one line feed between each two of them.
pub fn join_lines(lines: &Vec<String>) -> (text: String)
    ensures
        text@ == joined(lines.deep_view()),
{
    let mut text = String::new();
    let mut i: usize = 0;
    while i < lines.len()
        invariant
            i <= lines.len(),
            text@ == joined(lines.deep_view().take(i as int)),
        decreases lines.len() - i,
    {
        let ghost before = lines.deep_view().take(i as int);
        let ghost now = lines.deep_view().take(i + 1);
        if i > 0 {
            text.push('\n');
        }
        text.append(lines[i].as_str());
        proof {
            assert(now.drop_last() =~= before);
            assert(now.last() == lines@[i as int]@);
            if i == 0 {
                assert(text@ =~= now[0]);
            }
        }
        i += 1;
    }
    proof {
        assert(lines.deep_view().take(lines.len() as int) =~= lines.deep_view());
    }
    text
}

/// Whether some line holds `from`.
pub fn any_line_contains(lines: &Vec<String>, from: &str) -> (found: bool)
    ensures
        found == touched(lines.deep_view(), from@),
{
    let mut i: usize = 0;
    while i < lines.len()
        invariant
            i <= lines.len(),
            forall|j: int| 0 <= j < i ==> !occurs(#[trigger] lines.deep_view()[j], from@),
        decreases lines.len() - i,
    {
        if contains(lines[i].as_str(), from) {
            assert(occurs(lines.deep_view()[i as int], from@));
            return true;
        }
        i += 1;
    }
    false
}

/// Rewrites the lines of one file: every occurrence of `from` in every line
/// becomes `to`. The flag says whether any line held `from`; it is the one
/// update that the file counts for, however many lines matched.
pub fn rewrite_lines(lines: Vec<String>, from: &str, to: &str) -> (r: (Vec<String>, bool))
    ensures
        r.0.deep_view() == rewritten(lines.deep_view(), from@, to@),
        r.1 == touched(lines.deep_view(), from@),
{
    if !any_line_contains(&lines, from) {
        proof {
            untouched_lines_unchanged(lines.deep_view(), from@, to@);
        }
        return (lines, false);
    }
    let mut out: Vec<String> = Vec::new();
    let mut i: usize = 0;
    while i < lines.len()
        invariant
            i <= lines.len(),
            out.deep_view() == rewritten(lines.deep_view(), from@, to@).take(i as int),
        decreases lines.len() - i,
    {
        let ghost before = out.deep_view();
        let line = replace_all(lines[i].as_str(), from, to);
        let ghost new_line = line@;
        out.push(line);
        proof {
            assert(lines.deep_view()[i as int] == lines@[i as int]@);
            assert(out.deep_view() =~= before.push(new_line));
            assert(out.deep_view() =~= rewritten(lines.deep_view(), from@, to@).take(i + 1));
        }
        i += 1;
    }
    proof {
        let all = rewritten(lines.deep_view(), from@, to@);
        assert(all.take(lines.len() as int) =~= all);
    }
    (out, true)
}

/// What is staged for one file.
#[derive(Debug, PartialEq, Eq)]
pub struct Staged {
    /// The rewritten lines, joined.
    pub text: String,
    /// Whether any line of the file held the string that is replaced.
    pub updated: bool,
}

/// Computes what is staged for a file that holds `text`: its lines, each with
/// every `from` replaced by `to`, joined again.
pub fn stage_text(text: &str, from: &str, to: &str) -> (staged: Staged)
    ensures
        staged.text@ == staged_text(text@, from@, to@),
        staged.updated == touched(lines_of(text@), from@),
{
    let lines = split_lines(text);
    let (lines, updated) = rewrite_lines(lines, from, to);
    Staged { text: join_lines(&lines), updated }
}

/// The lines of a file of which no line holds `from` are left as they are.
pub proof fn untouched_lines_unchanged(lines: Seq<Seq<char>>, from: Seq<char>, to: Seq<char>)
    requires
        !touched(lines, from),
    ensures
        rewritten(lines, from, to) == lines,
{
    assert forall|i: int| 0 <= i < lines.len() implies replaced(lines[i], from, to)
        == lines[i] by {
        assert(!occurs(lines[i], from));
        replaced_without_occurrence(lines[i], from, to);
    }
    assert(rewritten(lines, from, to) =~= lines);
}

/// A line put before lines that follow it is joined to them by a line feed.
proof fn joined_front(first: Seq<char>, rest: Seq<Seq<char>>)
    requires
        rest.len() > 0,
    ensures
        joined(seq![first] + rest) == first + seq!['\n'] + joined(rest),
    decreases rest.len(),
{
    let all = seq![first] + rest;
    assert(all.drop_last() =~= seq![first] + rest.drop_last());
    assert(all.last() == rest.last());
    if rest.len() == 1 {
        assert(all.drop_last() =~= seq![first]);
        assert(joined(all.drop_last()) == first);
    } else {
        joined_front(first, rest.drop_last());
        assert(joined(all) =~= first + seq!['\n'] + joined(rest));
    }
}

/// A plain text is the join of its lines.
proof fn plain_text_is_kept(text: Seq<char>)
    requires
        is_plain(text),
    ensures
        joined(lines_of(text)) == text,
    decreases text.len(),
{
    let k = first_index_of(text, '\n');
    first_index_is_first(text, '\n');
    if text.len() > 0 && k < text.len() {
        let line = text.take(k);
        let rest = text.skip(k + 1);
        assert(without_cr(line) == line) by {
            if k > 0 && text[k - 1] == '\r' {
                assert(text[(k - 1) + 1] == '\n');
            }
        }
        assert(rest.len() > 0);
        assert(is_plain(rest)) by {
            assert forall|i: int|
                0 <= i && i + 1 < rest.len() && #[trigger] rest[i] == '\r' implies rest[i + 1]
                != '\n' by {
                assert(text[i + k + 1] == '\r');
            }
        }
        plain_text_is_kept(rest);
        joined_front(line, lines_of(rest));
        assert(line + seq!['\n'] + rest =~= text);
    }
}

/// The join of the lines of a text is no longer than the text, and shorter
/// where the text is not plain.
proof fn join_of_lines_len(text: Seq<char>)
    ensures
        joined(lines_of(text)).len() <= text.len(),
        !is_plain(text) ==> joined(lines_of(text)).len() < text.len(),
    decreases text.len(),
{
    let k = first_index_of(text, '\n');
    first_index_is_first(text, '\n');
    if text.len() > 0 && k < text.len() {
        let line = text.take(k);
        let rest = text.skip(k + 1);
        join_of_lines_len(rest);
        if rest.len() > 0 {
            joined_front(without_cr(line), lines_of(rest));
            if is_plain(rest) && without_cr(line) == line {
                assert(is_plain(text)) by {
                    assert(text.last() == rest.last());
                    assert forall|i: int|
                        0 <= i && i + 1 < text.len() && #[trigger] text[i] == '\r' implies text[i
                            + 1] != '\n' by {
                        if i + 1 < k {
                        } else if i + 1 == k {
                            assert(line.last() == text[i]);
                        } else {
                            assert(i > k);
                            assert(rest[i - k - 1] == '\r');
                            assert(rest[(i - k - 1) + 1] == text[i + 1]);
                        }
                    }
                }
            }
        }
    } else if text.len() > 0 {
        assert(is_plain(text)) by {
            assert forall|i: int|
                0 <= i && i + 1 < text.len() && #[trigger] text[i] == '\r' implies text[i + 1]
                != '\n' by {}
        }
    }
}

/// Splitting a text into lines and joining them gives the text back exactly
/// where the text is plain. Elsewhere a line feed at the end, or a carriage
/// return before a line feed, is lost.
pub proof fn join_of_lines_is_text(text: Seq<char>)
    ensures
        joined(lines_of(text)) == text <==> is_plain(text),
{
    if is_plain(text) {
        plain_text_is_kept(text);
    } else {
        join_of_lines_len(text);
    }
}

/// A plain text of which no line holds `from` is staged as it is.
pub proof fn untouched_text_unchanged(text: Seq<char>, from: Seq<char>, to: Seq<char>)
    requires
        !touched(lines_of(text), from),
        is_plain(text),
    ensures
        staged_text(text, from, to) == text,
{
    untouched_lines_unchanged(lines_of(text), from, to);
    join_of_lines_is_text(text);
}

/// The lines can be had back from their join: none holds a line feed, none
/// but the last ends in a carriage return, and the last is not empty.
pub open spec fn splits_back(lines: Seq<Seq<char>>) -> bool {
    &&& forall|i: int| 0 <= i < lines.len() ==> !(#[trigger] lines[i]).contains('\n')
    &&& forall|i: int|
        0 <= i < lines.len() - 1 ==> (#[trigger] lines[i]).len() == 0 || lines[i].last() != '\r'
    &&& lines.len() > 0 ==> lines.last().len() > 0
}

/// Lines that can be had back from their join are the lines of their join.
proof fn lines_of_join(lines: Seq<Seq<char>>)
    requires
        splits_back(lines),
    ensures
        lines_of(joined(lines)) == lines,
    decreases lines.len(),
{
    if lines.len() == 1 {
        let only = lines[0];
        assert(joined(lines) == only);
        assert(only == lines.last());
        assert forall|j: int| 0 <= j < only.len() implies only[j] != '\n' by {
            if only[j] == '\n' {
                assert(only.contains('\n'));
            }
        }
        first_index_found(only, '\n', only.len() as int);
        assert(lines_of(only) =~= lines);
    } else if lines.len() > 1 {
        let first = lines[0];
        let rest = lines.skip(1);
        let text = joined(lines);
        assert(lines =~= seq![first] + rest);
        joined_front(first, rest);
        assert(text == first + seq!['\n'] + joined(rest));
        assert forall|j: int| 0 <= j < first.len() implies text[j] != '\n' by {
            if first[j] == '\n' {
                assert(first.contains('\n'));
            }
        }
        first_index_found(text, '\n', first.len() as int);
        assert(text.take(first.len() as int) =~= first);
        assert(text.skip(first.len() as int + 1) =~= joined(rest));
        assert(splits_back(rest)) by {
            assert forall|i: int| 0 <= i < rest.len() implies !(#[trigger] rest[i]).contains(
                '\n',
            ) by {
                assert(rest[i] == lines[i + 1]);
            }
            assert forall|i: int| 0 <= i < rest.len() - 1 implies (#[trigger] rest[i]).len() == 0
                || rest[i].last() != '\r' by {
                assert(rest[i] == lines[i + 1]);
            }
            assert(rest.last() == lines.last());
        }
        lines_of_join(rest);
        assert(without_cr(first) == first);
        assert(lines_of(text) =~= lines);
    } else {
        assert(joined(lines).len() == 0);
    }
}

/// The lines of a text hold no line feed and no character that the text
/// does not hold.
proof fn lines_hold_text_chars(text: Seq<char>, i: int, c: char)
    requires
        0 <= i < lines_of(text).len(),
        lines_of(text)[i].contains(c),
    ensures
        text.contains(c),
        c != '\n',
    decreases text.len(),
{
    let k = first_index_of(text, '\n');
    first_index_is_first(text, '\n');
    let line = lines_of(text)[i];
    let p = choose|p: int| 0 <= p < line.len() && line[p] == c;
    if text.len() > 0 && k < text.len() {
        let rest = text.skip(k + 1);
        if i == 0 {
            assert(line == without_cr(text.take(k)));
            assert(text.take(k)[p] == c);
            assert(text[p] == c);
        } else {
            assert(lines_of(rest)[i - 1] == line);
            lines_hold_text_chars(rest, i - 1, c);
            let q = choose|q: int| 0 <= q < rest.len() && rest[q] == c;
            assert(text[q + k + 1] == c);
        }
    } else if text.len() > 0 {
        assert(line == text);
    }
}

/// The lines of a plain text can be had back from their join.
proof fn plain_text_splits_back(text: Seq<char>)
    requires
        is_plain(text),
    ensures
        splits_back(lines_of(text)),
    decreases text.len(),
{
    let lines = lines_of(text);
    let k = first_index_of(text, '\n');
    first_index_is_first(text, '\n');
    assert forall|i: int| 0 <= i < lines.len() implies !(#[trigger] lines[i]).contains('\n') by {
        if lines[i].contains('\n') {
            lines_hold_text_chars(text, i, '\n');
        }
    }
    if text.len() > 0 && k < text.len() {
        let line = text.take(k);
        let rest = text.skip(k + 1);
        assert(rest.len() > 0);
        assert(is_plain(rest)) by {
            assert forall|i: int|
                0 <= i && i + 1 < rest.len() && #[trigger] rest[i] == '\r' implies rest[i + 1]
                != '\n' by {
                assert(text[i + k + 1] == '\r');
            }
        }
        plain_text_splits_back(rest);
        assert(without_cr(line) == line && (line.len() == 0 || line.last() != '\r')) by {
            if k > 0 && text[k - 1] == '\r' {
                assert(text[(k - 1) + 1] == '\n');
            }
        }
        assert forall|i: int| 0 <= i < lines.len() - 1 implies (#[trigger] lines[i]).len() == 0
            || lines[i].last() != '\r' by {
            if i > 0 {
                assert(lines[i] == lines_of(rest)[i - 1]);
            }
        }
        assert(lines.last() == lines_of(rest).last());
    }
}

/// Rewritten lines can be had back from their join where the lines before
/// could, and `to` is not empty and holds neither line feed nor carriage return.
proof fn rewritten_splits_back(lines: Seq<Seq<char>>, from: Seq<char>, to: Seq<char>)
    requires
        splits_back(lines),
        to.len() > 0,
        !to.contains('\n'),
        !to.contains('\r'),
    ensures
        splits_back(rewritten(lines, from, to)),
{
    let out = rewritten(lines, from, to);
    assert forall|i: int| 0 <= i < out.len() implies !(#[trigger] out[i]).contains('\n') by {
        if out[i].contains('\n') {
            replaced_holds_no_new_char(lines[i], from, to, '\n');
        }
    }
    assert forall|i: int| 0 <= i < out.len() - 1 implies (#[trigger] out[i]).len() == 0
        || out[i].last() != '\r' by {
        replaced_ends_alike(lines[i], from, to);
        if out[i].len() > 0 && out[i].last() == '\r' {
            if to.last() == '\r' {
                assert(to[to.len() - 1] == '\r');
            }
        }
    }
    if lines.len() > 0 {
        replaced_ends_alike(lines.last(), from, to);
        assert(out.last() == replaced(lines.last(), from, to));
    }
}

/// Staging a plain text with `a` replaced by `b`, and the result with `b`
/// replaced by `a`, gives the text back, where `b` holds a character that the
/// text does not, and neither a line feed nor a carriage return.
pub proof fn stage_round_trip(text: Seq<char>, a: Seq<char>, b: Seq<char>)
    requires
        is_plain(text),
        has_foreign_char(b, text),
        !b.contains('\n'),
        !b.contains('\r'),
    ensures
        staged_text(staged_text(text, a, b), b, a) == text,
{
    let lines = lines_of(text);
    let there = rewritten(lines, a, b);
    plain_text_splits_back(text);
    rewritten_splits_back(lines, a, b);
    lines_of_join(there);
    let k = choose|k: int| 0 <= k < b.len() && !text.contains(#[trigger] b[k]);
    assert forall|i: int| 0 <= i < lines.len() implies has_foreign_char(
        b,
        #[trigger] lines[i],
    ) by {
        if lines[i].contains(b[k]) {
            lines_hold_text_chars(text, i, b[k]);
        }
    }
    rewrite_round_trip(lines, a, b);
    join_of_lines_is_text(text);
}

/// Rewriting `a` to `b` and then `b` to `a` gives the lines back, where `b`
/// holds for each line a character that the line does not.
pub proof fn rewrite_round_trip(lines: Seq<Seq<char>>, a: Seq<char>, b: Seq<char>)
    requires
        forall|i: int| 0 <= i < lines.len() ==> has_foreign_char(b, #[trigger] lines[i]),
    ensures
        rewritten(rewritten(lines, a, b), b, a) == lines,
{
    assert forall|i: int| 0 <= i < lines.len() implies replaced(replaced(lines[i], a, b), b, a)
        == lines[i] by {
        replace_round_trip(lines[i], a, b);
    }
    assert(rewritten(rewritten(lines, a, b), b, a) =~= lines);
}

} // verus!

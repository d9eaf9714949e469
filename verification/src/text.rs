//! Literal substring search and replacement: case-sensitive, no patterns,
//! every occurrence from left to right.

use vstd::prelude::*;
use crate::strings::{chars_of, string_of};

verus! {

/// `pat` stands in `s` at index `i`.
pub open spec fn occurs_at(s: Seq<char>, pat: Seq<char>, i: int) -> bool {
    0 <= i && i + pat.len() <= s.len() && s.subrange(i, i + pat.len()) == pat
}

/// `pat` stands somewhere in `s`.
pub open spec fn occurs(s: Seq<char>, pat: Seq<char>) -> bool {
    exists|i: int| occurs_at(s, pat, i)
}

/// `s` with every occurrence of `from` replaced by `to`, scanning from the
/// left: where `from` stands, `to` is put and the scan goes on behind it;
/// elsewhere one character is kept. An empty `from` stands before every
/// character and once more at the end.
pub open spec fn replaced(s: Seq<char>, from: Seq<char>, to: Seq<char>) -> Seq<char>
    decreases s.len(),
{
    if from.len() == 0 {
        if s.len() == 0 {
            to
        } else {
            to + seq![s[0]] + replaced(s.skip(1), from, to)
        }
    } else if occurs_at(s, from, 0) {
        to + replaced(s.skip(from.len() as int), from, to)
    } else if s.len() == 0 {
        s
    } else {
        seq![s[0]] + replaced(s.skip(1), from, to)
    }
}

/// The index of the first `z` in `s`, or the length of `s` where it holds none.
pub open spec fn first_index_of(s: Seq<char>, z: char) -> int
    decreases s.len(),
{
    if s.len() == 0 {
        0
    } else if s[0] == z {
        0
    } else {
        1 + first_index_of(s.skip(1), z)
    }
}

/// `to` holds a character that `s` does not.
pub open spec fn has_foreign_char(to: Seq<char>, s: Seq<char>) -> bool {
    exists|k: int| 0 <= k < to.len() && !s.contains(#[trigger] to[k])
}

/// Whether `pat` stands in `hay` at index `i`.
fn matches_at(hay: &Vec<char>, pat: &Vec<char>, i: usize) -> (m: bool)
    requires
        i + pat.len() <= hay.len(),
    ensures
        m == occurs_at(hay@, pat@, i as int),
{
    let mut j: usize = 0;
    while j < pat.len()
        invariant
            j <= pat.len(),
            i + pat.len() <= hay.len(),
            forall|k: int| 0 <= k < j ==> hay@[i + k] == pat@[k],
        decreases pat.len() - j,
    {
        if hay[i + j] != pat[j] {
            assert(hay@.subrange(i as int, i + pat.len())[j as int] != pat@[j as int]);
            return false;
        }
        j += 1;
    }
    assert(hay@.subrange(i as int, i + pat.len()) =~= pat@);
    true
}

/// Whether `pat` occurs in `hay`.
fn contains_chars(hay: &Vec<char>, pat: &Vec<char>) -> (found: bool)
    ensures
        found == occurs(hay@, pat@),
{
    if pat.len() > hay.len() {
        return false;
    }
    let last: usize = hay.len() - pat.len();
    let mut i: usize = 0;
    loop
        invariant
            last == hay.len() - pat.len(),
            i <= last,
            forall|k: int| 0 <= k < i ==> !occurs_at(hay@, pat@, k),
        decreases last - i,
    {
        if matches_at(hay, pat, i) {
            return true;
        }
        if i == last {
            return false;
        }
        i += 1;
    }
}

/// Appends the characters of `src` to `out`.
fn push_all(out: &mut Vec<char>, src: &Vec<char>)
    ensures
        final(out)@ == old(out)@ + src@,
{
    let mut j: usize = 0;
    while j < src.len()
        invariant
            j <= src.len(),
            out@ == old(out)@ + src@.take(j as int),
        decreases src.len() - j,
    {
        out.push(src[j]);
        j += 1;
    }
}

/// `hay` with every occurrence of `from` replaced by `to`.
fn replace_chars(hay: &Vec<char>, from: &Vec<char>, to: &Vec<char>) -> (out: Vec<char>)
    ensures
        out@ == replaced(hay@, from@, to@),
{
    let n: usize = hay.len();
    let m: usize = from.len();
    let mut out: Vec<char> = Vec::new();
    let mut i: usize = 0;
    assert(hay@.skip(0) =~= hay@);
    while i < n
        invariant
            i <= n,
            n == hay.len(),
            m == from.len(),
            out@ + replaced(hay@.skip(i as int), from@, to@) == replaced(hay@, from@, to@),
        decreases n - i,
    {
        let ghost rest = hay@.skip(i as int);
        let ghost before = out@;
        if m == 0 {
            push_all(&mut out, to);
            out.push(hay[i]);
            proof {
                assert(rest.skip(1) =~= hay@.skip(i + 1));
                assert(out@ + replaced(rest.skip(1), from@, to@) =~= before + replaced(
                    rest,
                    from@,
                    to@,
                ));
            }
            i += 1;
        } else if n - i >= m && matches_at(hay, from, i) {
            push_all(&mut out, to);
            proof {
                assert(rest.subrange(0, m as int) =~= hay@.subrange(i as int, i + m));
                assert(rest.skip(m as int) =~= hay@.skip(i + m));
            }
            i += m;
        } else {
            out.push(hay[i]);
            proof {
                if n - i >= m {
                    assert(rest.subrange(0, m as int) =~= hay@.subrange(i as int, i + m));
                }
                assert(rest.skip(1) =~= hay@.skip(i + 1));
            }
            i += 1;
        }
    }
    if m == 0 {
        push_all(&mut out, to);
    }
    out
}

/// Whether `pat` occurs in `s` as a literal substring.
pub fn contains(s: &str, pat: &str) -> (found: bool)
    ensures
        found == occurs(s@, pat@),
{
    let hay = chars_of(s);
    let needle = chars_of(pat);
    contains_chars(&hay, &needle)
}

/// `s` with every occurrence of the literal `from` replaced by `to`.
pub fn replace_all(s: &str, from: &str, to: &str) -> (out: String)
    ensures
        out@ == replaced(s@, from@, to@),
{
    let hay = chars_of(s);
    let old_chars = chars_of(from);
    let new_chars = chars_of(to);
    let out = replace_chars(&hay, &old_chars, &new_chars);
    string_of(&out, 0, out.len())
}

/// An occurrence in the tail of `s` is an occurrence in `s`, one further on.
proof fn occurrence_in_tail(s: Seq<char>, pat: Seq<char>, j: int)
    requires
        s.len() > 0,
        occurs_at(s.skip(1), pat, j),
    ensures
        occurs_at(s, pat, j + 1),
{
    assert(s.skip(1).subrange(j, j + pat.len()) =~= s.subrange(j + 1, j + 1 + pat.len()));
}

/// A text in which `from` does not occur is left as it is.
pub proof fn replaced_without_occurrence(s: Seq<char>, from: Seq<char>, to: Seq<char>)
    requires
        !occurs(s, from),
    ensures
        replaced(s, from, to) == s,
    decreases s.len(),
{
    if from.len() == 0 {
        assert(s.subrange(0, 0) =~= from);
        assert(occurs_at(s, from, 0));
    } else if s.len() > 0 {
        assert(!occurs_at(s, from, 0));
        assert forall|j: int| !occurs_at(s.skip(1), from, j) by {
            if occurs_at(s.skip(1), from, j) {
                occurrence_in_tail(s, from, j);
            }
        }
        replaced_without_occurrence(s.skip(1), from, to);
        assert(seq![s[0]] + s.skip(1) =~= s);
    }
}

/// The first occurrence of `from` is replaced: what stands before it is kept,
/// `to` is put in its place, and what follows it is replaced in the same way.
pub proof fn replaced_at_first_occurrence(s: Seq<char>, from: Seq<char>, to: Seq<char>, i: int)
    requires
        from.len() > 0,
        occurs_at(s, from, i),
        forall|j: int| 0 <= j < i ==> !occurs_at(s, from, j),
    ensures
        replaced(s, from, to) == s.take(i) + to + replaced(s.skip(i + from.len()), from, to),
    decreases i,
{
    if i == 0 {
        assert(s.take(0) + to =~= to);
    } else {
        let tail = s.skip(1);
        assert(tail.subrange(i - 1, i - 1 + from.len()) =~= s.subrange(i, i + from.len()));
        assert forall|j: int| 0 <= j < i - 1 implies !occurs_at(tail, from, j) by {
            if occurs_at(tail, from, j) {
                occurrence_in_tail(s, from, j);
            }
        }
        replaced_at_first_occurrence(tail, from, to, i - 1);
        assert(tail.skip(i - 1 + from.len()) =~= s.skip(i + from.len()));
        assert(seq![s[0]] + tail.take(i - 1) =~= s.take(i));
        assert(seq![s[0]] + (tail.take(i - 1) + to + replaced(
            s.skip(i + from.len()),
            from,
            to,
        )) =~= s.take(i) + to + replaced(s.skip(i + from.len()), from, to));
    }
}

/// Replacing a string by itself changes nothing.
pub proof fn replaced_by_itself(s: Seq<char>, a: Seq<char>)
    ensures
        replaced(s, a, a) == s,
    decreases s.len(),
{
    if a.len() == 0 {
        if s.len() > 0 {
            replaced_by_itself(s.skip(1), a);
            assert(a + seq![s[0]] + s.skip(1) =~= s);
        } else {
            assert(a =~= s);
        }
    } else if occurs_at(s, a, 0) {
        replaced_by_itself(s.skip(a.len() as int), a);
        assert(s.subrange(0, a.len() as int) + s.skip(a.len() as int) =~= s);
    } else if s.len() > 0 {
        replaced_by_itself(s.skip(1), a);
        assert(seq![s[0]] + s.skip(1) =~= s);
    }
}

/// Replacement by a longer string does not shorten a text, nor does
/// replacement by a shorter one lengthen it.
proof fn replaced_len(s: Seq<char>, from: Seq<char>, to: Seq<char>)
    ensures
        to.len() >= from.len() ==> replaced(s, from, to).len() >= s.len(),
        to.len() <= from.len() ==> replaced(s, from, to).len() <= s.len(),
    decreases s.len(),
{
    if from.len() == 0 {
        if s.len() > 0 {
            replaced_len(s.skip(1), from, to);
        }
    } else if occurs_at(s, from, 0) {
        replaced_len(s.skip(from.len() as int), from, to);
    } else if s.len() > 0 {
        replaced_len(s.skip(1), from, to);
    }
}

/// Where `from` occurs, replacement by a string of another length changes
/// the length of the text.
proof fn replaced_len_strict(s: Seq<char>, from: Seq<char>, to: Seq<char>)
    requires
        occurs(s, from),
    ensures
        to.len() > from.len() ==> replaced(s, from, to).len() > s.len(),
        to.len() < from.len() ==> replaced(s, from, to).len() < s.len(),
    decreases s.len(),
{
    if from.len() == 0 {
        if s.len() > 0 {
            replaced_len(s.skip(1), from, to);
        }
    } else if occurs_at(s, from, 0) {
        replaced_len(s.skip(from.len() as int), from, to);
    } else {
        let i = choose|i: int| occurs_at(s, from, i);
        assert(i > 0);
        assert(s.skip(1).subrange(i - 1, i - 1 + from.len()) =~= s.subrange(i, i + from.len()));
        assert(occurs_at(s.skip(1), from, i - 1));
        replaced_len_strict(s.skip(1), from, to);
    }
}

/// Where `from` occurs and `to` is another string, replacement changes the text.
pub proof fn replaced_with_occurrence(s: Seq<char>, from: Seq<char>, to: Seq<char>)
    requires
        occurs(s, from),
        from != to,
    ensures
        replaced(s, from, to) != s,
    decreases s.len(),
{
    if to.len() != from.len() {
        replaced_len_strict(s, from, to);
    } else if occurs_at(s, from, 0) {
        let r = replaced(s, from, to);
        assert(from.len() > 0) by {
            if from.len() == 0 {
                assert(from =~= to);
            }
        }
        assert(r.subrange(0, to.len() as int) =~= to);
    } else {
        let i = choose|i: int| occurs_at(s, from, i);
        assert(i > 0);
        assert(s.skip(1).subrange(i - 1, i - 1 + from.len()) =~= s.subrange(i, i + from.len()));
        assert(occurs_at(s.skip(1), from, i - 1));
        replaced_with_occurrence(s.skip(1), from, to);
        let r = replaced(s, from, to);
        assert(r.skip(1) =~= replaced(s.skip(1), from, to));
    }
}

/// A character of a text made by replacement is one of the text before or
/// one of `to`.
pub proof fn replaced_holds_no_new_char(s: Seq<char>, from: Seq<char>, to: Seq<char>, c: char)
    requires
        replaced(s, from, to).contains(c),
    ensures
        s.contains(c) || to.contains(c),
    decreases s.len(),
{
    let r = replaced(s, from, to);
    let p = choose|p: int| 0 <= p < r.len() && r[p] == c;
    if from.len() == 0 {
        if s.len() == 0 {
            assert(to[p] == c);
        } else if p < to.len() {
            assert(to[p] == c);
        } else if p == to.len() {
            assert(s[0] == c);
        } else {
            let tail = replaced(s.skip(1), from, to);
            assert(tail[p - to.len() - 1] == c);
            replaced_holds_no_new_char(s.skip(1), from, to, c);
            if s.skip(1).contains(c) {
                let i = choose|i: int| 0 <= i < s.skip(1).len() && s.skip(1)[i] == c;
                assert(s[i + 1] == c);
            }
        }
    } else if occurs_at(s, from, 0) {
        if p < to.len() {
            assert(to[p] == c);
        } else {
            let rest = s.skip(from.len() as int);
            let tail = replaced(rest, from, to);
            assert(tail[p - to.len()] == c);
            replaced_holds_no_new_char(rest, from, to, c);
            if rest.contains(c) {
                let i = choose|i: int| 0 <= i < rest.len() && rest[i] == c;
                assert(s[i + from.len()] == c);
            }
        }
    } else if s.len() > 0 {
        if p == 0 {
            assert(s[0] == c);
        } else {
            let tail = replaced(s.skip(1), from, to);
            assert(tail[p - 1] == c);
            replaced_holds_no_new_char(s.skip(1), from, to, c);
            if s.skip(1).contains(c) {
                let i = choose|i: int| 0 <= i < s.skip(1).len() && s.skip(1)[i] == c;
                assert(s[i + 1] == c);
            }
        }
    }
}

/// Where `to` is not empty, a text made by replacement ends as the text
/// before did, or as `to` does, and is empty only where the text before was.
pub proof fn replaced_ends_alike(s: Seq<char>, from: Seq<char>, to: Seq<char>)
    requires
        to.len() > 0,
    ensures
        replaced(s, from, to).len() > 0 ==> (s.len() > 0 && replaced(s, from, to).last()
            == s.last()) || replaced(s, from, to).last() == to.last(),
        s.len() > 0 ==> replaced(s, from, to).len() > 0,
    decreases s.len(),
{
    let r = replaced(s, from, to);
    if from.len() == 0 {
        if s.len() > 0 {
            let tail = replaced(s.skip(1), from, to);
            replaced_ends_alike(s.skip(1), from, to);
            assert(tail.len() > 0);
            assert(r.last() == tail.last());
            if s.skip(1).len() > 0 {
                assert(s.skip(1).last() == s.last());
            }
        }
    } else if occurs_at(s, from, 0) {
        let rest = s.skip(from.len() as int);
        let tail = replaced(rest, from, to);
        replaced_ends_alike(rest, from, to);
        if tail.len() > 0 {
            assert(r.last() == tail.last());
            assert(rest.len() > 0 ==> rest.last() == s.last());
        } else {
            assert(r =~= to);
        }
    } else if s.len() > 0 {
        let tail = replaced(s.skip(1), from, to);
        replaced_ends_alike(s.skip(1), from, to);
        if tail.len() > 0 {
            assert(r.last() == tail.last());
            assert(s.skip(1).len() > 0 ==> s.skip(1).last() == s.last());
        } else {
            assert(r =~= seq![s[0]]);
            assert(s.skip(1).len() == 0);
        }
    }
}

/// The first index of `z` is an index of `z` where there is one, and none
/// comes before it.
pub proof fn first_index_is_first(s: Seq<char>, z: char)
    ensures
        0 <= first_index_of(s, z) <= s.len(),
        forall|j: int| 0 <= j < first_index_of(s, z) ==> s[j] != z,
        first_index_of(s, z) < s.len() ==> s[first_index_of(s, z)] == z,
        s.contains(z) ==> first_index_of(s, z) < s.len(),
    decreases s.len(),
{
    if s.len() > 0 && s[0] != z {
        let t = s.skip(1);
        first_index_is_first(t, z);
        assert forall|j: int| 0 <= j < first_index_of(s, z) implies s[j] != z by {
            if j > 0 {
                assert(s[j] == t[j - 1]);
            }
        }
        if first_index_of(s, z) < s.len() {
            assert(s[first_index_of(s, z)] == t[first_index_of(t, z)]);
        }
        if s.contains(z) {
            let i = choose|i: int| 0 <= i < s.len() && s[i] == z;
            assert(t[i - 1] == z);
            assert(t.contains(z));
        }
    }
}

/// Where no character before index `k` of `s` is `z`, and `s` ends at `k` or
/// holds `z` there, `k` is the first index of `z`.
pub proof fn first_index_found(s: Seq<char>, z: char, k: int)
    requires
        0 <= k <= s.len(),
        forall|j: int| 0 <= j < k ==> s[j] != z,
        k < s.len() ==> s[k] == z,
    ensures
        first_index_of(s, z) == k,
    decreases s.len(),
{
    if s.len() > 0 && s[0] != z {
        let t = s.skip(1);
        assert forall|j: int| 0 <= j < k - 1 implies t[j] != z by {
            assert(t[j] == s[j + 1]);
        }
        first_index_found(t, z, k - 1);
    }
}

/// In a text made by replacement, a character that the text lacked before
/// stands no nearer to the start than it does in `to`.
proof fn foreign_char_is_late(s: Seq<char>, from: Seq<char>, to: Seq<char>, z: char, p: int)
    requires
        !s.contains(z),
        0 <= p < replaced(s, from, to).len(),
        replaced(s, from, to)[p] == z,
    ensures
        p >= first_index_of(to, z),
    decreases s.len(),
{
    first_index_is_first(to, z);
    let k = first_index_of(to, z);
    if from.len() == 0 {
        if s.len() > 0 {
            let rest = s.skip(1);
            assert(s[0] != z);
            assert forall|c: char| rest.contains(c) implies s.contains(c) by {
                let i = choose|i: int| 0 <= i < rest.len() && rest[i] == c;
                assert(s[i + 1] == c);
            }
            if p > to.len() {
                foreign_char_is_late(rest, from, to, z, p - to.len() - 1);
            }
        }
    } else if occurs_at(s, from, 0) {
        let rest = s.skip(from.len() as int);
        assert forall|c: char| rest.contains(c) implies s.contains(c) by {
            let i = choose|i: int| 0 <= i < rest.len() && rest[i] == c;
            assert(s[i + from.len()] == c);
        }
        if p >= to.len() {
            foreign_char_is_late(rest, from, to, z, p - to.len());
        }
    } else if s.len() > 0 {
        let rest = s.skip(1);
        assert(s[0] != z);
        assert forall|c: char| rest.contains(c) implies s.contains(c) by {
            let i = choose|i: int| 0 <= i < rest.len() && rest[i] == c;
            assert(s[i + 1] == c);
        }
        foreign_char_is_late(rest, from, to, z, p - 1);
    }
}

/// Behind a character other than `z`, a text made by replacement does not
/// start with `to`, where `to` holds `z` and the text before did not.
proof fn no_match_across_kept_char(
    s: Seq<char>,
    from: Seq<char>,
    to: Seq<char>,
    z: char,
    c: char,
)
    requires
        !s.contains(z),
        to.contains(z),
        c != z,
    ensures
        !occurs_at(seq![c] + replaced(s, from, to), to, 0),
{
    let t = replaced(s, from, to);
    let u = seq![c] + t;
    first_index_is_first(to, z);
    let k = first_index_of(to, z);
    if occurs_at(u, to, 0) {
        assert(u.subrange(0, to.len() as int)[k] == to[k]);
        assert(u[k] == z);
        assert(k > 0);
        assert(t[k - 1] == z);
        foreign_char_is_late(s, from, to, z, k - 1);
    }
}

proof fn round_trip_with_marker(s: Seq<char>, a: Seq<char>, b: Seq<char>, z: char)
    requires
        !s.contains(z),
        b.contains(z),
    ensures
        replaced(replaced(s, a, b), b, a) == s,
    decreases s.len(),
{
    let t = replaced(s, a, b);
    assert(b.len() > 0);
    assert(b.subrange(0, b.len() as int) =~= b);
    if a.len() == 0 {
        if s.len() == 0 {
            assert(t == b);
            assert(occurs_at(t, b, 0));
            let rest = t.skip(b.len() as int);
            assert(rest.len() == 0);
            assert(!occurs_at(rest, b, 0));
            assert(replaced(rest, b, a) == rest);
            assert(replaced(t, b, a) == a + rest);
            assert(a + rest =~= s);
        } else {
            let rest = s.skip(1);
            let tail = replaced(rest, a, b);
            let u = seq![s[0]] + tail;
            assert(t =~= b + u);
            assert(t.subrange(0, b.len() as int) =~= b);
            assert(occurs_at(t, b, 0));
            assert(t.skip(b.len() as int) =~= u);
            assert forall|c: char| rest.contains(c) implies s.contains(c) by {
                let i = choose|i: int| 0 <= i < rest.len() && rest[i] == c;
                assert(s[i + 1] == c);
            }
            assert(s[0] != z);
            no_match_across_kept_char(rest, a, b, z, s[0]);
            round_trip_with_marker(rest, a, b, z);
            assert(u.skip(1) =~= tail);
            assert(replaced(u, b, a) == seq![s[0]] + rest);
            assert(seq![s[0]] + rest =~= s);
            assert(a + s =~= s);
        }
    } else if occurs_at(s, a, 0) {
        let rest = s.skip(a.len() as int);
        let tail = replaced(rest, a, b);
        assert(t == b + tail);
        assert(t.subrange(0, b.len() as int) =~= b);
        assert(occurs_at(t, b, 0));
        assert(t.skip(b.len() as int) =~= tail);
        assert forall|c: char| rest.contains(c) implies s.contains(c) by {
            let i = choose|i: int| 0 <= i < rest.len() && rest[i] == c;
            assert(s[i + a.len()] == c);
        }
        round_trip_with_marker(rest, a, b, z);
        assert(a + rest =~= s);
    } else if s.len() == 0 {
        assert(!occurs_at(t, b, 0));
    } else {
        let rest = s.skip(1);
        let tail = replaced(rest, a, b);
        assert(t == seq![s[0]] + tail);
        assert forall|c: char| rest.contains(c) implies s.contains(c) by {
            let i = choose|i: int| 0 <= i < rest.len() && rest[i] == c;
            assert(s[i + 1] == c);
        }
        assert(s[0] != z);
        no_match_across_kept_char(rest, a, b, z, s[0]);
        round_trip_with_marker(rest, a, b, z);
        assert(t.skip(1) =~= tail);
        assert(seq![s[0]] + rest =~= s);
    }
}

/// Replacing `a` by `b` and then `b` by `a` gives the text back, where `b`
/// holds a character that the text does not: then `b` stands in the replaced
/// text only where it was put.
pub proof fn replace_round_trip(s: Seq<char>, a: Seq<char>, b: Seq<char>)
    requires
        has_foreign_char(b, s),
    ensures
        replaced(replaced(s, a, b), b, a) == s,
{
    let k = choose|k: int| 0 <= k < b.len() && !s.contains(#[trigger] b[k]);
    round_trip_with_marker(s, a, b, b[k]);
}

} // verus!

//! Paths as strings: which entries of a directory are markdown files, where a
//! file is staged, and where it goes.

use vstd::prelude::*;
use crate::strings::{chars_of, string_of};
use crate::text::{has_foreign_char, occurs, replace_all, replace_round_trip, replaced,
    replaced_by_itself, replaced_with_occurrence, replaced_without_occurrence};

verus! {

/// The index at which the base name of `path` starts: behind its last `/`, or
/// at 0 where it has none.
pub open spec fn base_start(path: Seq<char>) -> int
    decreases path.len(),
{
    if path.len() == 0 {
        0
    } else if path.last() == '/' {
        path.len() as int
    } else {
        base_start(path.drop_last())
    }
}

/// The directory part of `path`: all up to its last `/`, that `/` included.
pub open spec fn directory_of(path: Seq<char>) -> Seq<char> {
    path.take(base_start(path))
}

/// The base name of `path`: what follows its last `/`.
pub open spec fn base_name(path: Seq<char>) -> Seq<char> {
    path.skip(base_start(path))
}

/// The base name of `path` has the extension `md`: it ends in `.md` and has
/// at least one character before that.
pub open spec fn is_markdown(path: Seq<char>) -> bool {
    let name = base_name(path);
    name.len() > 3 && name.skip(name.len() - 3) == seq!['.', 'm', 'd']
}

/// The entries that are markdown files, in their order.
pub open spec fn markdown_only(entries: Seq<Seq<char>>) -> Seq<Seq<char>> {
    entries.filter(|path: Seq<char>| is_markdown(path))
}

/// The path under `dir` at which the file `source` is staged: `dir`, a `/`
/// unless `dir` is empty or ends in one, and the base name of `source`.
pub open spec fn staged_at(dir: Seq<char>, source: Seq<char>) -> Seq<char> {
    if dir.len() == 0 || dir.last() == '/' {
        dir + base_name(source)
    } else {
        dir + seq!['/'] + base_name(source)
    }
}

/// The path to which `source` goes: the whole path string, directory
/// included, with every `from` replaced by `to`.
pub open spec fn destination_of(source: Seq<char>, from: Seq<char>, to: Seq<char>) -> Seq<char> {
    replaced(source, from, to)
}

/// A file goes to another path exactly where its path holds `from`, and
/// `to` is another string than `from`.
pub proof fn destination_differs_on_occurrence(source: Seq<char>, from: Seq<char>, to: Seq<char>)
    ensures
        destination_of(source, from, to) != source <==> occurs(source, from) && from != to,
{
    if !occurs(source, from) {
        replaced_without_occurrence(source, from, to);
    } else if from == to {
        replaced_by_itself(source, from);
    } else {
        replaced_with_occurrence(source, from, to);
    }
}

/// The base name starts inside the path.
proof fn base_start_in_range(path: Seq<char>)
    ensures
        0 <= base_start(path) <= path.len(),
    decreases path.len(),
{
    if path.len() > 0 && path.last() != '/' {
        base_start_in_range(path.drop_last());
    }
}

/// Two files of one directory are staged at two paths: within one flat
/// directory the staged path tells the files apart.
pub proof fn staged_paths_differ_in_one_directory(dir: Seq<char>, a: Seq<char>, b: Seq<char>)
    requires
        directory_of(a) == directory_of(b),
        a != b,
    ensures
        staged_at(dir, a) != staged_at(dir, b),
{
    base_start_in_range(a);
    base_start_in_range(b);
    assert(directory_of(a) + base_name(a) =~= a);
    assert(directory_of(b) + base_name(b) =~= b);
    if staged_at(dir, a) == staged_at(dir, b) {
        let lead = if dir.len() == 0 || dir.last() == '/' {
            dir
        } else {
            dir + seq!['/']
        };
        assert(staged_at(dir, a) =~= lead + base_name(a));
        assert(staged_at(dir, b) =~= lead + base_name(b));
        assert((lead + base_name(a)).skip(lead.len() as int) =~= base_name(a));
        assert((lead + base_name(b)).skip(lead.len() as int) =~= base_name(b));
    }
}

/// Renaming `a` to `b` and then `b` to `a` gives the path back, where `b`
/// holds a character that the path does not.
pub proof fn destination_round_trip(source: Seq<char>, a: Seq<char>, b: Seq<char>)
    requires
        has_foreign_char(b, source),
    ensures
        destination_of(destination_of(source, a, b), b, a) == source,
{
    replace_round_trip(source, a, b);
}

/// The index at which the base name starts.
fn find_base_start(chars: &Vec<char>) -> (start: usize)
    ensures
        start == base_start(chars@),
        start <= chars.len(),
{
    let mut i: usize = chars.len();
    assert(chars@.take(i as int) =~= chars@);
    while i > 0 && chars[i - 1] != '/'
        invariant
            i <= chars.len(),
            base_start(chars@) == base_start(chars@.take(i as int)),
        decreases i,
    {
        assert(chars@.take(i as int).drop_last() =~= chars@.take(i - 1));
        i -= 1;
    }
    i
}

/// The base name of `path`.
pub fn file_name(path: &str) -> (name: String)
    ensures
        name@ == base_name(path@),
{
    let chars = chars_of(path);
    let start: usize = find_base_start(&chars);
    string_of(&chars, start, chars.len())
}

/// Whether `path` names a markdown file.
pub fn has_markdown_extension(path: &str) -> (yes: bool)
    ensures
        yes == is_markdown(path@),
{
    let chars = chars_of(path);
    let n: usize = chars.len();
    let start: usize = find_base_start(&chars);
    if n - start <= 3 {
        return false;
    }
    let ghost name = base_name(chars@);
    assert(name.skip(name.len() - 3) =~= chars@.skip(n - 3));
    let yes = chars[n - 3] == '.' && chars[n - 2] == 'm' && chars[n - 1] == 'd';
    proof {
        let tail = chars@.skip(n - 3);
        if yes {
            assert(tail =~= seq!['.', 'm', 'd']);
        } else {
            assert(tail[0] == chars@[n - 3] && tail[1] == chars@[n - 2] && tail[2] == chars@[n - 1]);
        }
    }
    yes
}

/// Keeps the entries that name markdown files, in their order; the others are
/// skipped without a word.
pub fn select_markdown(entries: &Vec<String>) -> (sources: Vec<String>)
    ensures
        sources.deep_view() == markdown_only(entries.deep_view()),
{
    let mut sources: Vec<String> = Vec::new();
    let mut i: usize = 0;
    assert(sources.deep_view() =~= Seq::<Seq<char>>::empty());
    while i < entries.len()
        invariant
            i <= entries.len(),
            sources.deep_view() == markdown_only(entries.deep_view().take(i as int)),
        decreases entries.len() - i,
    {
        let ghost before = sources.deep_view();
        let ghost seen = entries.deep_view().take(i + 1);
        proof {
            reveal(Seq::filter);
            assert(seen.drop_last() =~= entries.deep_view().take(i as int));
            assert(seen.last() == entries@[i as int]@);
        }
        if has_markdown_extension(entries[i].as_str()) {
            sources.push(entries[i].clone());
            assert(sources.deep_view() =~= before.push(entries@[i as int]@));
        }
        i += 1;
    }
    assert(entries.deep_view().take(entries.len() as int) =~= entries.deep_view());
    sources
}

/// The path under `staging_dir` at which `source` is staged. It is named by
/// the base name that the source has now, whatever its name will become.
pub fn staged_path(staging_dir: &str, source: &str) -> (path: String)
    ensures
        path@ == staged_at(staging_dir@, source@),
{
    let dir = chars_of(staging_dir);
    let name = file_name(source);
    let mut path = string_of(&dir, 0, dir.len());
    assert(path@ =~= staging_dir@);
    if dir.len() > 0 && dir[dir.len() - 1] != '/' {
        path.push('/');
    }
    path.append(name.as_str());
    path
}

/// The path to which `source` goes. Where `from` does not occur in the path
/// string, that is the source path itself.
pub fn destination_path(source: &str, from: &str, to: &str) -> (path: String)
    ensures
        path@ == destination_of(source@, from@, to@),
        !occurs(source@, from@) ==> path@ == source@,
{
    proof {
        if !occurs(source@, from@) {
            replaced_without_occurrence(source@, from@, to@);
        }
    }
    replace_all(source, from, to)
}

} // verus!

//! A model of the directory walk. A directory tree is held as plain values;
//! flattening it depth-first yields the full path of every regular file
//! exactly once, and never a path for a directory entry. The surrounding
//! program reads the real file system into this shape and executes the
//! renames that the library plans from it.

use vstd::prelude::*;

verus! {

/// One file-system entry: a regular file, or a directory with its entries.
pub enum FsTree {
    File(String),
    Dir(String, Vec<FsTree>),
}

/// How many regular files the tree holds, at any nesting depth.
pub open spec fn file_count(t: FsTree) -> nat
    decreases t, 0int,
{
    match t {
        FsTree::File(_) => 1,
        FsTree::Dir(_, children) => file_count_upto(children@, children@.len() as int),
    }
}

/// How many regular files the first `k` entries of `s` hold.
pub open spec fn file_count_upto(s: Seq<FsTree>, k: int) -> nat
    recommends
        k <= s.len(),
    decreases s, k,
{
    if k <= 0 || k > s.len() {
        0
    } else {
        file_count_upto(s, k - 1) + file_count(s[k - 1])
    }
}

/// The full paths of the regular files under `t`, depth first, each prefixed
/// by `prefix` (the path of the enclosing directory, ending in a separator).
pub open spec fn files_under(t: FsTree, prefix: Seq<char>) -> Seq<Seq<char>>
    decreases t, 0int,
{
    match t {
        FsTree::File(name) => seq![prefix + name@],
        FsTree::Dir(name, children) => files_under_upto(
            children@,
            prefix + name@ + seq!['/'],
            children@.len() as int,
        ),
    }
}

/// The file paths contributed by the first `k` entries of `s`.
pub open spec fn files_under_upto(s: Seq<FsTree>, prefix: Seq<char>, k: int) -> Seq<Seq<char>>
    recommends
        k <= s.len(),
    decreases s, k,
{
    if k <= 0 || k > s.len() {
        Seq::empty()
    } else {
        files_under_upto(s, prefix, k - 1) + files_under(s[k - 1], prefix)
    }
}

/// Law: the walk is complete — a tree with `N` regular files yields exactly
/// `N` paths, however the files are nested, and directory entries themselves
/// yield none.
pub proof fn lemma_walk_complete(t: FsTree, prefix: Seq<char>)
    ensures
        files_under(t, prefix).len() == file_count(t),
    decreases t, 0int,
{
    match t {
        FsTree::File(_) => {},
        FsTree::Dir(name, children) => {
            lemma_walk_complete_upto(
                children@,
                prefix + name@ + seq!['/'],
                children@.len() as int,
            );
        },
    }
}

/// Law: the paths contributed by the first `k` entries of a directory are
/// exactly as many as the regular files those entries hold.
pub proof fn lemma_walk_complete_upto(s: Seq<FsTree>, prefix: Seq<char>, k: int)
    requires
        k <= s.len(),
    ensures
        files_under_upto(s, prefix, k).len() == file_count_upto(s, k),
    decreases s, k,
{
    if k > 0 {
        lemma_walk_complete_upto(s, prefix, k - 1);
        lemma_walk_complete(s[k - 1], prefix);
    }
}

/// Appends to `out` the full path of every regular file under `t`, depth
/// first, with `dir` (ending in a separator) as the enclosing path.
pub fn walk_files(t: &FsTree, dir: &str, out: &mut Vec<String>)
    ensures
        final(out).deep_view() == old(out).deep_view() + files_under(*t, dir@),
    decreases *t,
{
    match t {
        FsTree::File(name) => {
            let p = String::from_str(dir).concat(name.as_str());
            out.push(p);
            proof {
                assert(out.deep_view() =~= old(out).deep_view() + files_under(*t, dir@));
            }
        },
        FsTree::Dir(name, children) => {
            let sub = String::from_str(dir).concat(name.as_str()).concat("/");
            proof {
                reveal_strlit("/");
                assert("/"@ =~= seq!['/']);
                assert(sub@ == dir@ + name@ + seq!['/']);
                assert(out.deep_view() =~= old(out).deep_view() + files_under_upto(
                    children@,
                    sub@,
                    0,
                ));
            }
            let mut j: usize = 0;
            while j < children.len()
                invariant
                    j <= children@.len(),
                    sub@ == dir@ + name@ + seq!['/'],
                    *t == FsTree::Dir(*name, *children),
                    out.deep_view() == old(out).deep_view() + files_under_upto(
                        children@,
                        sub@,
                        j as int,
                    ),
                decreases children@.len() - j,
            {
                proof {
                    assert(decreases_to!(*t => t->Dir_1));
                    assert(t->Dir_1 == *children);
                    assert(decreases_to!(*children => children@));
                    assert(decreases_to!(children@ => children@[j as int]));
                    assert(decreases_to!(*t => children@[j as int]));
                }
                walk_files(&children[j], sub.as_str(), out);
                proof {
                    assert((old(out).deep_view() + files_under_upto(children@, sub@, j as int))
                        + files_under(children@[j as int], sub@) =~= old(out).deep_view() + (
                    files_under_upto(children@, sub@, j as int) + files_under(
                        children@[j as int],
                        sub@,
                    )));
                }
                j += 1;
            }
        },
    }
}

/// The full paths of every regular file under the entries of the root
/// directory `dir`, depth first: the verified core of the directory walk.
pub fn collect_files(entries: &Vec<FsTree>, dir: &str, out: &mut Vec<String>)
    ensures
        final(out).deep_view() == old(out).deep_view() + files_under_upto(
            entries@,
            dir@,
            entries@.len() as int,
        ),
{
    let mut j: usize = 0;
    proof {
        assert(out.deep_view() =~= old(out).deep_view() + files_under_upto(entries@, dir@, 0));
    }
    while j < entries.len()
        invariant
            j <= entries@.len(),
            out.deep_view() == old(out).deep_view() + files_under_upto(entries@, dir@, j as int),
        decreases entries@.len() - j,
    {
        walk_files(&entries[j], dir, out);
        proof {
            assert((old(out).deep_view() + files_under_upto(entries@, dir@, j as int))
                + files_under(entries@[j as int], dir@) =~= old(out).deep_view() + (
            files_under_upto(entries@, dir@, j as int) + files_under(entries@[j as int], dir@)));
        }
        j += 1;
    }
}

} // verus!

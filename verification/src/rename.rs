//! The renamer's logic: the rename strategy, its selection from mutually
//! exclusive flags, the name transformer, and the per-file rename plan.
//! All of it works on plain strings; the directory walk and the actual
//! renames are performed by the surrounding program.

use vstd::prelude::*;

use crate::search::contains_substring;
use crate::search::is_match_at;
use crate::search::match_at;

verus! {

/// The single rename strategy selected for a run: replace every occurrence
/// of a pattern, prepend text, or append text.
#[derive(PartialEq, Eq, Debug)]
pub enum Modification {
    Replacement(String),
    Start,
    End,
}

/// A configuration fault found while selecting the rename strategy.
#[derive(Clone, Copy, PartialEq, Eq, Debug)]
pub enum ConfigError {
    /// None of the three strategies was requested.
    NoModification,
    /// More than one of the three mutually exclusive strategies was requested.
    ConflictingModes,
    /// Prepending or appending was requested without the text to add.
    MissingWith,
}

/// `s` with every non-overlapping occurrence of `pat` replaced by `with`,
/// scanning left to right. An empty pattern leaves `s` unchanged.
pub open spec fn spec_replace(s: Seq<char>, pat: Seq<char>, with: Seq<char>) -> Seq<char>
    decreases s.len(),
{
    if pat.len() == 0 || s.len() < pat.len() {
        s
    } else if s.take(pat.len() as int) == pat {
        with + spec_replace(s.skip(pat.len() as int), pat, with)
    } else {
        seq![s[0]] + spec_replace(s.drop_first(), pat, with)
    }
}

/// Law: replacing a pattern that does not occur in the name leaves the name
/// unchanged.
pub proof fn lemma_replace_absent(name: Seq<char>, pat: Seq<char>, with: Seq<char>)
    requires
        !contains_substring(name, pat),
    ensures
        spec_replace(name, pat, with) == name,
    decreases name.len(),
{
    if pat.len() == 0 {
        assert(name.subrange(0, 0) =~= pat);
        assert(is_match_at(name, pat, 0));
    } else if name.len() < pat.len() {
    } else if name.take(pat.len() as int) == pat {
        assert(name.subrange(0, pat.len() as int) =~= name.take(pat.len() as int));
        assert(is_match_at(name, pat, 0));
    } else {
        assert forall|i: int| !is_match_at(name.drop_first(), pat, i) by {
            if is_match_at(name.drop_first(), pat, i) {
                assert(name.subrange(i + 1, i + 1 + pat.len()) =~= name.drop_first().subrange(
                    i,
                    i + pat.len(),
                ));
                assert(is_match_at(name, pat, i + 1));
            }
        }
        lemma_replace_absent(name.drop_first(), pat, with);
        assert(seq![name[0]] + name.drop_first() =~= name);
    }
}

/// `s` with every non-overlapping occurrence of `pat` replaced by `with`,
/// scanning left to right; an empty `pat` is treated as absent, so `s` comes
/// back unchanged.
pub fn replace_all(s: &str, pat: &str, with: &str) -> (r: String)
    ensures
        r@ == spec_replace(s@, pat@, with@),
{
    let n = s.unicode_len();
    let p = pat.unicode_len();
    if p == 0 {
        return String::from_str(s);
    }
    let mut out = String::new();
    let mut pos: usize = 0;
    proof {
        assert(s@.skip(0) =~= s@);
        assert(Seq::<char>::empty() + spec_replace(s@, pat@, with@) =~= spec_replace(
            s@,
            pat@,
            with@,
        ));
    }
    while pos < n
        invariant
            pos <= n,
            n == s@.len(),
            p == pat@.len(),
            p >= 1,
            spec_replace(s@, pat@, with@) == out@ + spec_replace(
                s@.skip(pos as int),
                pat@,
                with@,
            ),
        decreases n - pos,
    {
        let ghost u = s@.skip(pos as int);
        let hit = p <= n - pos && match_at(s, pat, pos);
        if hit {
            proof {
                assert(u.take(p as int) =~= s@.subrange(pos as int, pos + p));
                assert(u.skip(p as int) =~= s@.skip(pos + p));
                assert((out@ + with@) + spec_replace(s@.skip(pos + p), pat@, with@) =~= out@ + (
                with@ + spec_replace(s@.skip(pos + p), pat@, with@)));
            }
            out.append(with);
            pos += p;
        } else {
            proof {
                assert(u.drop_first() =~= s@.skip(pos as int + 1));
                assert(seq![u[0]] =~= s@.subrange(pos as int, pos as int + 1));
                if p <= n - pos {
                    assert(u.take(p as int) =~= s@.subrange(pos as int, pos + p));
                } else {
                    assert(seq![u[0]] + u.drop_first() =~= u);
                }
                assert((out@ + seq![u[0]]) + spec_replace(s@.skip(pos as int + 1), pat@, with@)
                    =~= out@ + (seq![u[0]] + spec_replace(s@.skip(pos as int + 1), pat@, with@)));
            }
            let c = s.substring_char(pos, pos + 1);
            out.append(c);
            pos += 1;
        }
    }
    proof {
        assert(s@.skip(pos as int).len() == 0);
        assert(out@ + spec_replace(s@.skip(pos as int), pat@, with@) =~= out@);
    }
    out
}

/// The new file name under a modification: pattern replacement, text
/// prepended, or text appended.
pub open spec fn spec_new_name(name: Seq<char>, m: Modification, with: Seq<char>) -> Seq<char> {
    match m {
        Modification::Replacement(p) => spec_replace(name, p@, with),
        Modification::Start => with + name,
        Modification::End => name + with,
    }
}

/// Computes the new file name from the old one: `Replacement` substitutes
/// `with` for every occurrence of its pattern, `Start` prepends `with`, and
/// `End` appends it. Extensions get no special treatment: they are part of
/// the name like any other characters.
pub fn apply_modification(name: &str, m: &Modification, with: &str) -> (r: String)
    ensures
        r@ == spec_new_name(name@, *m, with@),
{
    match m {
        Modification::Replacement(p) => replace_all(name, p.as_str(), with),
        Modification::Start => String::from_str(with).concat(name),
        Modification::End => String::from_str(name).concat(with),
    }
}

/// How many of the three mutually exclusive strategies were requested.
pub open spec fn mode_count(has_replace: bool, start: bool, end: bool) -> int {
    (if has_replace {
        1int
    } else {
        0int
    }) + (if start {
        1int
    } else {
        0int
    }) + (if end {
        1int
    } else {
        0int
    })
}

/// The replacement text, or empty when none was supplied.
pub open spec fn with_or_empty(w: Option<String>) -> Seq<char> {
    match w {
        Some(s) => s@,
        None => Seq::empty(),
    }
}

/// Selects exactly one rename strategy from the parsed flags. Requesting
/// none, more than one, or `Start`/`End` without the companion text is a
/// configuration fault, reported before any file is touched.
pub fn select_modification(
    replace: Option<String>,
    start: bool,
    end: bool,
    with: Option<String>,
) -> (r: Result<(Modification, String), ConfigError>)
    ensures
        match r {
            Ok(mw) => {
                &&& mode_count(replace is Some, start, end) == 1
                &&& (match replace {
                    Some(pat) => mw.0 matches Modification::Replacement(p) && p@ == pat@,
                    None => true,
                })
                &&& (start ==> mw.0 is Start)
                &&& (end ==> mw.0 is End)
                &&& mw.1@ == with_or_empty(with)
                &&& ((start || end) ==> with is Some)
            },
            Err(e) => {
                ||| (e == ConfigError::NoModification && mode_count(replace is Some, start, end)
                    == 0)
                ||| (e == ConfigError::ConflictingModes && mode_count(
                    replace is Some,
                    start,
                    end,
                ) > 1)
                ||| (e == ConfigError::MissingWith && mode_count(replace is Some, start, end) == 1
                    && (start || end) && with is None)
            },
        },
{
    let count: u32 = (if replace.is_some() {
        1
    } else {
        0
    }) + (if start {
        1
    } else {
        0
    }) + (if end {
        1
    } else {
        0
    });
    if count == 0 {
        return Err(ConfigError::NoModification);
    }
    if count > 1 {
        return Err(ConfigError::ConflictingModes);
    }
    if (start || end) && with.is_none() {
        return Err(ConfigError::MissingWith);
    }
    let w: String = match with {
        Some(s) => s,
        None => String::new(),
    };
    match replace {
        Some(p) => Ok((Modification::Replacement(p), w)),
        None => if start {
            Ok((Modification::Start, w))
        } else {
            Ok((Modification::End, w))
        },
    }
}

/// Where the file-name component of a path begins: just after the last
/// separator, or at the start when the path has no separator.
pub open spec fn file_name_start(p: Seq<char>) -> nat
    decreases p.len(),
{
    if p.len() == 0 {
        0
    } else if p[p.len() - 1] == '/' {
        p.len()
    } else {
        file_name_start(p.drop_last())
    }
}

/// `file_name_start` is pinned down by its characteristic properties.
pub proof fn lemma_file_name_start_eq(p: Seq<char>, k: nat)
    requires
        k <= p.len(),
        forall|j: int| k <= j < p.len() ==> p[j] != '/',
        k > 0 ==> p[k - 1] == '/',
    ensures
        file_name_start(p) == k,
    decreases p.len(),
{
    if p.len() == 0 {
    } else if p[p.len() - 1] == '/' {
        assert(k == p.len());
    } else {
        assert(k < p.len());
        assert forall|j: int| k <= j < p.drop_last().len() implies p.drop_last()[j] != '/' by {
            assert(p.drop_last()[j] == p[j]);
        }
        lemma_file_name_start_eq(p.drop_last(), k);
    }
}

/// The directory part of a path, up to and including the last separator.
pub open spec fn spec_dir_part(p: Seq<char>) -> Seq<char> {
    p.take(file_name_start(p) as int)
}

/// The file-name component of a path: everything after the last separator.
pub open spec fn spec_file_name(p: Seq<char>) -> Seq<char> {
    p.skip(file_name_start(p) as int)
}

/// The path a file is renamed to: the directory part is kept and only the
/// file-name component is transformed.
pub open spec fn spec_rename_target(p: Seq<char>, m: Modification, with: Seq<char>) -> Seq<char> {
    spec_dir_part(p) + spec_new_name(spec_file_name(p), m, with)
}

/// The character position where the file-name component of `path` begins.
pub fn file_name_split_point(path: &str) -> (i: usize)
    ensures
        i as nat == file_name_start(path@),
        i <= path@.len(),
{
    let n = path.unicode_len();
    let mut i: usize = n;
    while i > 0 && path.get_char(i - 1) != '/'
        invariant
            i <= n,
            n == path@.len(),
            forall|j: int| i <= j < n ==> path@[j] != '/',
        decreases i,
    {
        i -= 1;
    }
    proof {
        lemma_file_name_start_eq(path@, i as nat);
    }
    i
}

/// The file-name component of `path`: everything after the last `/`, or the
/// whole path when it has none.
pub fn file_name_of(path: &str) -> (r: &str)
    ensures
        r@ == spec_file_name(path@),
{
    let i = file_name_split_point(path);
    let n = path.unicode_len();
    let r = path.substring_char(i, n);
    proof {
        assert(path@.subrange(i as int, n as int) =~= spec_file_name(path@));
    }
    r
}

/// The new full path for one file: the directory part of `path` unchanged,
/// and the file-name component transformed by `m` and `with`.
pub fn rename_target(path: &str, m: &Modification, with: &str) -> (r: String)
    ensures
        r@ == spec_rename_target(path@, *m, with@),
{
    let i = file_name_split_point(path);
    let n = path.unicode_len();
    let dir = path.substring_char(0, i);
    let name = path.substring_char(i, n);
    proof {
        assert(path@.subrange(0, i as int) =~= spec_dir_part(path@));
        assert(path@.subrange(i as int, n as int) =~= spec_file_name(path@));
    }
    let new_name = apply_modification(name, m, with);
    String::from_str(dir).concat(new_name.as_str())
}

/// One intended rename: the path a file was found under and the path it is
/// to be moved to.
pub struct RenameJob {
    pub old_path: String,
    pub new_path: String,
}

/// Plans the renames: exactly one job per discovered file, no more and no
/// fewer, in the order the files were found, each job transforming only the
/// file-name component of its own path.
pub fn plan_renames(paths: &Vec<String>, m: &Modification, with: &str) -> (jobs: Vec<RenameJob>)
    ensures
        jobs@.len() == paths@.len(),
        forall|i: int|
            0 <= i < paths@.len() ==> {
                &&& (#[trigger] jobs@[i]).old_path@ == paths@[i]@
                &&& jobs@[i].new_path@ == spec_rename_target(paths@[i]@, *m, with@)
            },
{
    let mut jobs: Vec<RenameJob> = Vec::new();
    let mut idx: usize = 0;
    while idx < paths.len()
        invariant
            idx <= paths@.len(),
            jobs@.len() == idx,
            forall|i: int|
                0 <= i < idx ==> {
                    &&& (#[trigger] jobs@[i]).old_path@ == paths@[i]@
                    &&& jobs@[i].new_path@ == spec_rename_target(paths@[i]@, *m, with@)
                },
        decreases paths@.len() - idx,
    {
        let old_path = paths[idx].clone();
        let new_path = rename_target(old_path.as_str(), m, with);
        jobs.push(RenameJob { old_path, new_path });
        idx += 1;
    }
    jobs
}

} // verus!

//! The search primitive: split a text into lines and keep the lines that
//! contain a query as a contiguous, case-sensitive substring.

use vstd::prelude::*;

verus! {

/// Index of the first line feed in `t`, or `t.len()` if there is none.
pub open spec fn first_nl(t: Seq<char>) -> nat
    decreases t.len(),
{
    if t.len() == 0 {
        0
    } else if t[0] == '\n' {
        0
    } else {
        1 + first_nl(t.drop_first())
    }
}

/// `first_nl` is pinned down by its characteristic properties.
pub proof fn lemma_first_nl_eq(t: Seq<char>, k: nat)
    requires
        k <= t.len(),
        forall|j: int| 0 <= j < k ==> t[j] != '\n',
        k < t.len() ==> t[k as int] == '\n',
    ensures
        first_nl(t) == k,
    decreases t.len(),
{
    if t.len() == 0 {
    } else if t[0] == '\n' {
        assert(k == 0);
    } else {
        assert(k >= 1);
        assert forall|j: int| 0 <= j < k - 1 implies t.drop_first()[j] != '\n' by {
            assert(t.drop_first()[j] == t[j + 1]);
        }
        lemma_first_nl_eq(t.drop_first(), (k - 1) as nat);
    }
}

/// The lines of a text, split at line feeds; a trailing line without a
/// terminator is still a line, and an empty text has no lines.
pub open spec fn spec_lines(t: Seq<char>) -> Seq<Seq<char>>
    decreases t.len(),
{
    if t.len() == 0 {
        Seq::empty()
    } else {
        let i = first_nl(t);
        if i >= t.len() {
            seq![t]
        } else {
            seq![t.take(i as int)] + spec_lines(t.skip(i as int + 1))
        }
    }
}

/// `needle` occurs in `hay` starting at position `i`.
pub open spec fn is_match_at(hay: Seq<char>, needle: Seq<char>, i: int) -> bool {
    0 <= i && i + needle.len() <= hay.len() && hay.subrange(i, i + needle.len()) == needle
}

/// `hay` contains `needle` as a contiguous substring.
pub open spec fn contains_substring(hay: Seq<char>, needle: Seq<char>) -> bool {
    exists|i: int| is_match_at(hay, needle, i)
}

/// The lines of `t` that contain `q`, in the order they appear in `t`.
/// Mirrors the structure of [`spec_lines`]: each line is kept exactly when
/// it contains `q`.
pub open spec fn matching_lines(q: Seq<char>, t: Seq<char>) -> Seq<Seq<char>>
    decreases t.len(),
{
    if t.len() == 0 {
        Seq::empty()
    } else {
        let i = first_nl(t);
        let line = if i >= t.len() {
            t
        } else {
            t.take(i as int)
        };
        let rest = if i >= t.len() {
            Seq::<Seq<char>>::empty()
        } else {
            matching_lines(q, t.skip(i as int + 1))
        };
        if contains_substring(line, q) {
            seq![line] + rest
        } else {
            rest
        }
    }
}

/// Peeling one line off the front of a text: if the first `k` characters of
/// `t` are free of line feeds and either `t[k]` is a line feed or `k` is the
/// end of the text, then the matches of `t` are the matches of that first
/// line followed by the matches of the remainder.
pub proof fn lemma_matching_lines_step(q: Seq<char>, t: Seq<char>, k: nat)
    requires
        t.len() > 0,
        k <= t.len(),
        forall|j: int| 0 <= j < k ==> t[j] != '\n',
        k < t.len() ==> t[k as int] == '\n',
    ensures
        matching_lines(q, t) == (if contains_substring(t.subrange(0, k as int), q) {
            seq![t.subrange(0, k as int)]
        } else {
            Seq::<Seq<char>>::empty()
        }) + matching_lines(q, t.skip((if k < t.len() {
            k + 1
        } else {
            k
        }) as int)),
{
    lemma_first_nl_eq(t, k);
    if k < t.len() {
        assert(t.take(k as int) =~= t.subrange(0, k as int));
        if !contains_substring(t.subrange(0, k as int), q) {
            assert(Seq::<Seq<char>>::empty() + matching_lines(q, t.skip(k as int + 1)) =~= matching_lines(
                q,
                t.skip(k as int + 1),
            ));
        }
    } else {
        assert(t =~= t.subrange(0, k as int));
        assert(t.skip(k as int).len() == 0);
        assert(matching_lines(q, t.skip(k as int)) =~= Seq::<Seq<char>>::empty());
        if contains_substring(t, q) {
            assert(seq![t.subrange(0, k as int)] + matching_lines(q, t.skip(k as int))
                =~= seq![t]);
        } else {
            assert(Seq::<Seq<char>>::empty() + matching_lines(q, t.skip(k as int))
                =~= Seq::<Seq<char>>::empty());
        }
    }
}

/// Whether `needle` occurs in `hay` at character position `i`.
pub fn match_at(hay: &str, needle: &str, i: usize) -> (r: bool)
    ensures
        r == is_match_at(hay@, needle@, i as int),
{
    let h = hay.unicode_len();
    let q = needle.unicode_len();
    if q > h || i > h - q {
        return false;
    }
    let mut k: usize = 0;
    while k < q
        invariant
            k <= q,
            q == needle@.len(),
            h == hay@.len(),
            q <= h,
            i <= h - q,
            forall|j: int| 0 <= j < k ==> hay@[i + j] == needle@[j],
        decreases q - k,
    {
        if hay.get_char(i + k) != needle.get_char(k) {
            proof {
                assert forall|m: int| !is_match_at(hay@, needle@, m) || m != i as int by {
                    if m == i as int && is_match_at(hay@, needle@, m) {
                        assert(hay@.subrange(m, m + needle@.len())[k as int] == hay@[i + k]);
                    }
                }
            }
            return false;
        }
        k += 1;
    }
    proof {
        assert(hay@.subrange(i as int, i + needle@.len()) =~= needle@);
    }
    true
}

/// Whether `hay` contains `needle` as a contiguous substring. The empty
/// needle is contained in every string.
pub fn contains_substr(hay: &str, needle: &str) -> (r: bool)
    ensures
        r == contains_substring(hay@, needle@),
{
    let h = hay.unicode_len();
    let q = needle.unicode_len();
    if q > h {
        proof {
            assert forall|i: int| !is_match_at(hay@, needle@, i) by {}
        }
        return false;
    }
    let mut i: usize = 0;
    loop
        invariant_except_break
            q <= h,
            h == hay@.len(),
            q == needle@.len(),
            i <= h - q,
            forall|j: int| 0 <= j < i ==> !is_match_at(hay@, needle@, j),
        ensures
            h == hay@.len(),
            q == needle@.len(),
            i == h - q,
            forall|j: int| 0 <= j <= i ==> !is_match_at(hay@, needle@, j),
        decreases h - q - i,
    {
        if match_at(hay, needle, i) {
            return true;
        }
        if i == h - q {
            break;
        }
        i += 1;
    }
    proof {
        assert forall|j: int| !is_match_at(hay@, needle@, j) by {
            if j > i as int {
                assert(j + needle@.len() > hay@.len());
            }
        }
    }
    false
}

/// The lines of `contents` that contain `query` as a substring, in the order
/// they appear in `contents`.
pub fn search(query: &str, contents: &str) -> (matches: Vec<String>)
    ensures
        matches.deep_view() == matching_lines(query@, contents@),
{
    let n = contents.unicode_len();
    let mut out: Vec<String> = Vec::new();
    let mut pos: usize = 0;
    proof {
        assert(out.deep_view() =~= Seq::<Seq<char>>::empty());
        assert(contents@.skip(0) =~= contents@);
        assert(Seq::<Seq<char>>::empty() + matching_lines(query@, contents@) =~= matching_lines(
            query@,
            contents@,
        ));
    }
    while pos < n
        invariant
            pos <= n,
            n == contents@.len(),
            matching_lines(query@, contents@) == out.deep_view() + matching_lines(
                query@,
                contents@.skip(pos as int),
            ),
        decreases n - pos,
    {
        let ghost prev = out.deep_view();
        let ghost u = contents@.skip(pos as int);
        let mut end: usize = pos;
        while end < n && contents.get_char(end) != '\n'
            invariant
                pos <= end <= n,
                n == contents@.len(),
                forall|j: int| pos <= j < end ==> contents@[j] != '\n',
            decreases n - end,
        {
            end += 1;
        }
        proof {
            assert forall|j: int| 0 <= j < end - pos implies u[j] != '\n' by {
                assert(u[j] == contents@[pos + j]);
            }
            if (end as int) < n as int {
                assert(u[(end - pos) as int] == contents@[end as int]);
            }
            lemma_matching_lines_step(query@, u, (end - pos) as nat);
            assert(u.subrange(0, end - pos) =~= contents@.subrange(pos as int, end as int));
        }
        let line = contents.substring_char(pos, end);
        if contains_substr(line, query) {
            out.push(String::from_str(line));
            proof {
                assert(out.deep_view() =~= prev.push(line@));
                assert(prev.push(line@) =~= prev + seq![line@]);
            }
        }
        let newpos = if end < n {
            end + 1
        } else {
            end
        };
        proof {
            if end < n {
                assert(u.skip((end - pos) as int + 1) =~= contents@.skip(newpos as int));
            } else {
                assert(u.skip((end - pos) as int) =~= contents@.skip(newpos as int));
            }
            if contains_substring(line@, query@) {
                assert((prev + seq![line@]) + matching_lines(query@, contents@.skip(newpos as int))
                    =~= prev + (seq![line@] + matching_lines(
                    query@,
                    contents@.skip(newpos as int),
                )));
            }
        }
        pos = newpos;
    }
    proof {
        assert(contents@.skip(pos as int).len() == 0);
        assert(matching_lines(query@, contents@.skip(pos as int)) =~= Seq::<Seq<char>>::empty());
        assert(out.deep_view() + Seq::<Seq<char>>::empty() =~= out.deep_view());
    }
    out
}

/// Law: every line in the search result contains the query; every line of
/// the text that contains the query appears in the result; and the result
/// has at most as many lines as the text.
pub proof fn lemma_search_sound_and_complete(q: Seq<char>, t: Seq<char>)
    ensures
        forall|i: int|
            0 <= i < matching_lines(q, t).len() ==> contains_substring(
                #[trigger] matching_lines(q, t)[i],
                q,
            ),
        forall|i: int|
            0 <= i < spec_lines(t).len() && contains_substring(#[trigger] spec_lines(t)[i], q)
                ==> matching_lines(q, t).contains(spec_lines(t)[i]),
        matching_lines(q, t).len() <= spec_lines(t).len(),
    decreases t.len(),
{
    if t.len() == 0 {
    } else {
        let i = first_nl(t);
        if i >= t.len() {
        } else {
            let rest = t.skip(i as int + 1);
            lemma_search_sound_and_complete(q, rest);
            let line = t.take(i as int);
            let m = matching_lines(q, t);
            let mr = matching_lines(q, rest);
            let lr = spec_lines(rest);
            if contains_substring(line, q) {
                assert forall|j: int|
                    0 <= j < m.len() implies contains_substring(#[trigger] m[j], q) by {
                    if j >= 1 {
                        assert(m[j] == mr[j - 1]);
                    }
                }
                assert forall|j: int|
                    0 <= j < spec_lines(t).len() && contains_substring(
                        #[trigger] spec_lines(t)[j],
                        q,
                    ) implies m.contains(spec_lines(t)[j]) by {
                    if j == 0 {
                        assert(m[0] == line);
                    } else {
                        assert(spec_lines(t)[j] == lr[j - 1]);
                        assert(mr.contains(lr[j - 1]));
                        let w = choose|w: int| 0 <= w < mr.len() && mr[w] == lr[j - 1];
                        assert(m[w + 1] == mr[w]);
                    }
                }
            } else {
                assert forall|j: int|
                    0 <= j < spec_lines(t).len() && contains_substring(
                        #[trigger] spec_lines(t)[j],
                        q,
                    ) implies m.contains(spec_lines(t)[j]) by {
                    if j >= 1 {
                        assert(spec_lines(t)[j] == lr[j - 1]);
                        assert(mr.contains(lr[j - 1]));
                    }
                }
            }
        }
    }
}

/// Law: with an empty query, every line of the text matches, so the search
/// result is exactly the sequence of lines of the text.
pub proof fn lemma_empty_query_matches_all(q: Seq<char>, t: Seq<char>)
    requires
        q.len() == 0,
    ensures
        matching_lines(q, t) == spec_lines(t),
    decreases t.len(),
{
    if t.len() == 0 {
    } else {
        let i = first_nl(t);
        let line = if i >= t.len() {
            t
        } else {
            t.take(i as int)
        };
        assert(contains_substring(line, q)) by {
            assert(line.subrange(0, 0) =~= q);
            assert(is_match_at(line, q, 0));
        }
        if i >= t.len() {
        } else {
            lemma_empty_query_matches_all(q, t.skip(i as int + 1));
        }
    }
}

/// A sequence of one element, filtered.
proof fn lemma_filter_one(l: Seq<char>, pred: spec_fn(Seq<char>) -> bool)
    ensures
        seq![l].filter(pred) == (if pred(l) {
            seq![l]
        } else {
            Seq::<Seq<char>>::empty()
        }),
{
    reveal_with_fuel(Seq::filter, 2);
    assert(seq![l].drop_last() =~= Seq::<Seq<char>>::empty());
    if pred(l) {
        assert(Seq::<Seq<char>>::empty().push(l) =~= seq![l]);
    }
}

/// Law: the search result is exactly the lines of the text filtered, in
/// order, by containment of the query.
pub proof fn lemma_matching_lines_is_filter(q: Seq<char>, t: Seq<char>)
    ensures
        matching_lines(q, t) == spec_lines(t).filter(|l: Seq<char>| contains_substring(l, q)),
    decreases t.len(),
{
    let pred = |l: Seq<char>| contains_substring(l, q);
    if t.len() == 0 {
        reveal_with_fuel(Seq::filter, 1);
        assert(spec_lines(t).filter(pred) =~= Seq::<Seq<char>>::empty());
    } else {
        let i = first_nl(t);
        if i >= t.len() {
            lemma_filter_one(t, pred);
        } else {
            let line = t.take(i as int);
            let rest = t.skip(i as int + 1);
            lemma_matching_lines_is_filter(q, rest);
            Seq::filter_distributes_over_add(seq![line], spec_lines(rest), pred);
            lemma_filter_one(line, pred);
            if !pred(line) {
                assert(Seq::<Seq<char>>::empty() + matching_lines(q, rest) =~= matching_lines(
                    q,
                    rest,
                ));
            }
        }
    }
}

/// The search tool's configuration: the file to read and the query to look
/// for, taken from the first two positional command-line arguments.
pub struct Config {
    pub file: String,
    pub query: String,
}

impl Config {
    /// Builds the configuration from the argument list (whose first element
    /// is the program name): fewer than two positional arguments are
    /// rejected with a diagnostic.
    pub fn build(args: &[String]) -> (r: Result<Self, &'static str>)
        ensures
            match r {
                Ok(c) => args@.len() >= 3 && c.file@ == args@[1]@ && c.query@ == args@[2]@,
                Err(m) => args@.len() < 3 && m@ == "Not enough arguments"@,
            },
    {
        if args.len() < 3 {
            Err("Not enough arguments")
        } else {
            Ok(Self { file: args[1].clone(), query: args[2].clone() })
        }
    }
}

} // verus!

//! Duplicate suggestions: which clusters of look-alike animations are worth
//! showing for a tournament.

use crate::command::is_space;
use crate::submission::{contains_string, listed};
use vstd::prelude::*;
use vstd::string::{StrSliceExecFns, StringExecFns};

verus! {

/// The members of `cluster` that are among `submitted`, in order.
pub open spec fn submitted_members(cluster: Seq<String>, submitted: Seq<String>) -> Seq<String>
    decreases cluster.len(),
{
    if cluster.len() == 0 {
        cluster
    } else if listed(submitted, cluster.last()@) {
        submitted_members(cluster.drop_last(), submitted).push(cluster.last())
    } else {
        submitted_members(cluster.drop_last(), submitted)
    }
}

/// For each cluster, its submitted members, kept when there are at least two.
pub open spec fn suggestions(clusters: Seq<Vec<String>>, submitted: Seq<String>) -> Seq<Seq<String>>
    decreases clusters.len(),
{
    if clusters.len() == 0 {
        Seq::empty()
    } else {
        let rest = suggestions(clusters.drop_last(), submitted);
        let members = submitted_members(clusters.last()@, submitted);
        if members.len() >= 2 {
            rest.push(members)
        } else {
            rest
        }
    }
}

fn members_of(cluster: &Vec<String>, submitted: &Vec<String>) -> (r: Vec<String>)
    ensures
        r@ == submitted_members(cluster@, submitted@),
{
    let mut out: Vec<String> = Vec::new();
    let mut i: usize = 0;
    while i < cluster.len()
        invariant
            i <= cluster@.len(),
            out@ == submitted_members(cluster@.subrange(0, i as int), submitted@),
        decreases cluster@.len() - i,
    {
        proof {
            assert(cluster@.subrange(0, i + 1).drop_last() =~= cluster@.subrange(0, i as int));
        }
        if contains_string(submitted, &cluster[i]) {
            out.push(cluster[i].clone());
        }
        i = i + 1;
    }
    proof {
        assert(cluster@.subrange(0, cluster@.len() as int) =~= cluster@);
    }
    out
}

/// The duplicate suggestions for a tournament: each cluster cut down to the
/// tournament's submitted animations that are not confirmed duplicates,
/// dropping clusters left with fewer than two.
pub fn duplicate_suggestions(clusters: &Vec<Vec<String>>, submitted: &Vec<String>) -> (r: Vec<
    Vec<String>,
>)
    ensures
        r@.len() == suggestions(clusters@, submitted@).len(),
        forall|k: int| 0 <= k < r@.len() ==> (#[trigger] r@[k])@ == suggestions(clusters@, submitted@)[k],
{
    let mut out: Vec<Vec<String>> = Vec::new();
    let mut i: usize = 0;
    while i < clusters.len()
        invariant
            i <= clusters@.len(),
            out@.len() == suggestions(clusters@.subrange(0, i as int), submitted@).len(),
            forall|k: int|
                0 <= k < out@.len() ==> (#[trigger] out@[k])@ == suggestions(
                    clusters@.subrange(0, i as int),
                    submitted@,
                )[k],
        decreases clusters@.len() - i,
    {
        proof {
            assert(clusters@.subrange(0, i + 1).drop_last() =~= clusters@.subrange(0, i as int));
        }
        let members = members_of(&clusters[i], submitted);
        if members.len() >= 2 {
            out.push(members);
        }
        i = i + 1;
    }
    proof {
        assert(clusters@.subrange(0, clusters@.len() as int) =~= clusters@);
    }
    out
}

/// The pieces of `s[lo..hi)` between separators `c`, as index ranges; there
/// is one more piece than separators.
pub open spec fn segments(s: Seq<char>, lo: int, hi: int, c: char) -> Seq<(int, int)>
    decreases hi - lo,
{
    if hi <= lo {
        seq![(lo, lo)]
    } else if s[hi - 1] == c {
        segments(s, lo, hi - 1, c).push((hi, hi))
    } else {
        let p = segments(s, lo, hi - 1, c);
        p.update(p.len() - 1, (p.last().0, hi))
    }
}

/// The lines of `s`: its pieces between newlines, without an empty last one
/// after a final newline.
pub open spec fn line_bounds(s: Seq<char>) -> Seq<(int, int)> {
    if s.len() == 0 {
        Seq::empty()
    } else if s.last() == '\n' {
        segments(s, 0, s.len() - 1, '\n')
    } else {
        segments(s, 0, s.len() as int, '\n')
    }
}

/// The maximal runs of non-white-space characters of `s[lo..hi)`.
pub open spec fn token_bounds(s: Seq<char>, lo: int, hi: int) -> Seq<(int, int)>
    decreases hi - lo,
{
    if hi <= lo {
        Seq::empty()
    } else if is_space(s[hi - 1]) {
        token_bounds(s, lo, hi - 1)
    } else {
        let p = token_bounds(s, lo, hi - 1);
        if hi - 1 > lo && !is_space(s[hi - 2]) {
            p.update(p.len() - 1, (p.last().0, hi))
        } else {
            p.push((hi - 1, hi))
        }
    }
}

/// A path component that names nothing: empty (from repeated or trailing
/// slashes) or `.`.
pub open spec fn is_skipped(s: Seq<char>, r: (int, int)) -> bool {
    r.1 == r.0 || (r.1 == r.0 + 1 && s[r.0] == '.')
}

/// The last component of `comps` that names something.
pub open spec fn last_named(s: Seq<char>, comps: Seq<(int, int)>) -> Option<(int, int)>
    decreases comps.len(),
{
    if comps.len() == 0 {
        None
    } else if is_skipped(s, comps.last()) {
        last_named(s, comps.drop_last())
    } else {
        Some(comps.last())
    }
}

/// The file name of the path `s[lo..hi)`: its last component, unless that is
/// `..` or the path has none.
pub open spec fn file_name_bounds(s: Seq<char>, lo: int, hi: int) -> Option<(int, int)> {
    match last_named(s, segments(s, lo, hi, '/')) {
        Some(r) => if r.1 == r.0 + 2 && s[r.0] == '.' && s[r.0 + 1] == '.' {
            None
        } else {
            Some(r)
        },
        None => None,
    }
}

/// The file names of the paths `toks`, skipping paths without one.
pub open spec fn names_of(s: Seq<char>, toks: Seq<(int, int)>) -> Seq<Seq<char>>
    decreases toks.len(),
{
    if toks.len() == 0 {
        Seq::empty()
    } else {
        let rest = names_of(s, toks.drop_last());
        match file_name_bounds(s, toks.last().0, toks.last().1) {
            Some(r) => rest.push(s.subrange(r.0, r.1)),
            None => rest,
        }
    }
}

/// The clusters that the fingerprint tool prints: one line per cluster, of
/// paths separated by white space; each cluster is the paths' file names.
pub open spec fn clusters_in(s: Seq<char>) -> Seq<Seq<Seq<char>>> {
    Seq::new(
        line_bounds(s).len(),
        |i: int| names_of(s, token_bounds(s, line_bounds(s)[i].0, line_bounds(s)[i].1)),
    )
}

fn is_space_char(c: char) -> (r: bool)
    ensures
        r == is_space(c),
{
    ('\u{9}' <= c && c <= '\u{d}') || c == ' ' || c == '\u{85}' || c == '\u{a0}' || c
        == '\u{1680}' || ('\u{2000}' <= c && c <= '\u{200a}') || c == '\u{2028}' || c
        == '\u{2029}' || c == '\u{202f}' || c == '\u{205f}' || c == '\u{3000}'
}

/// The file name of the path `s[lo..hi)`.
fn file_name_in(s: &str, lo: usize, hi: usize) -> (r: Option<(usize, usize)>)
    requires
        lo <= hi <= s@.len(),
    ensures
        match r {
            Some(p) => file_name_bounds(s@, lo as int, hi as int) == Some((p.0 as int, p.1 as int))
                && lo <= p.0 <= p.1 <= hi,
            None => file_name_bounds(s@, lo as int, hi as int) is None,
        },
{
    let ghost sv = s@;
    let mut best: Option<(usize, usize)> = None;
    let ghost mut done: Seq<(int, int)> = Seq::empty();
    let mut start: usize = lo;
    let mut i: usize = lo;
    while i < hi
        invariant
            sv == s@,
            lo <= start <= i <= hi <= sv.len(),
            segments(sv, lo as int, i as int, '/') == done.push((start as int, i as int)),
            match best {
                Some(p) => last_named(sv, done) == Some((p.0 as int, p.1 as int)) && lo <= p.0
                    <= p.1 <= i,
                None => last_named(sv, done) is None,
            },
        decreases hi - i,
    {
        let c = s.get_char(i);
        if c == '/' {
            let cur = (start, i);
            let skipped = i == start || (i == start + 1 && s.get_char(start) == '.');
            proof {
                assert(done.push((start as int, i as int)).drop_last() =~= done);
                done = done.push((start as int, i as int));
            }
            if !skipped {
                best = Some(cur);
            }
            start = i + 1;
        } else {
            proof {
                assert(done.push((start as int, i as int)).update(done.len() as int, (start as int, i + 1))
                    =~= done.push((start as int, i + 1)));
            }
        }
        i = i + 1;
    }
    let ghost all = done.push((start as int, hi as int));
    assert(all.drop_last() =~= done);
    let skipped = hi == start || (hi == start + 1 && s.get_char(start) == '.');
    let last = if skipped {
        best
    } else {
        Some((start, hi))
    };
    match last {
        None => None,
        Some((a, b)) => {
            if b - a == 2 && s.get_char(a) == '.' && s.get_char(a + 1) == '.' {
                None
            } else {
                Some((a, b))
            }
        },
    }
}

/// The file names of the paths in the line `s[lo..hi)`.
fn names_in_line(s: &str, lo: usize, hi: usize) -> (r: Vec<String>)
    requires
        lo <= hi <= s@.len(),
    ensures
        r@.len() == names_of(s@, token_bounds(s@, lo as int, hi as int)).len(),
        forall|k: int|
            0 <= k < r@.len() ==> (#[trigger] r@[k])@ == names_of(
                s@,
                token_bounds(s@, lo as int, hi as int),
            )[k],
{
    let ghost sv = s@;
    let mut out: Vec<String> = Vec::new();
    let ghost mut done: Seq<(int, int)> = Seq::empty();
    let mut in_token = false;
    let mut start: usize = lo;
    let mut i: usize = lo;
    while i < hi
        invariant
            sv == s@,
            lo <= start <= i <= hi <= sv.len(),
            in_token ==> token_bounds(sv, lo as int, i as int) == done.push((start as int, i as int)),
            !in_token ==> token_bounds(sv, lo as int, i as int) == done,
            in_token ==> start < i && !is_space(sv[i - 1]),
            !in_token && i > lo ==> is_space(sv[i - 1]),
            out@.len() == names_of(sv, done).len(),
            forall|k: int| 0 <= k < out@.len() ==> (#[trigger] out@[k])@ == names_of(sv, done)[k],
        decreases hi - i,
    {
        if is_space_char(s.get_char(i)) {
            if in_token {
                let ghost tok = (start as int, i as int);
                let name = file_name_in(s, start, i);
                proof {
                    assert(done.push(tok).drop_last() =~= done);
                    done = done.push(tok);
                }
                match name {
                    Some((a, b)) => {
                        out.push(String::from_str(s.substring_char(a, b)));
                    },
                    None => {},
                }
                in_token = false;
            }
        } else {
            if !in_token {
                in_token = true;
                start = i;
            } else {
                proof {
                    assert(done.push((start as int, i as int)).update(done.len() as int, (start as int, i + 1))
                        =~= done.push((start as int, i + 1)));
                }
            }
        }
        i = i + 1;
    }
    if in_token {
        let ghost tok = (start as int, hi as int);
        let name = file_name_in(s, start, hi);
        proof {
            assert(done.push(tok).drop_last() =~= done);
            done = done.push(tok);
        }
        match name {
            Some((a, b)) => {
                out.push(String::from_str(s.substring_char(a, b)));
            },
            None => {},
        }
    }
    out
}

/// Reads the fingerprint tool's report: one cluster per line, each the file
/// names of the paths on that line.
pub fn parse_duplicate_clusters(output: &str) -> (r: Vec<Vec<String>>)
    ensures
        r@.len() == clusters_in(output@).len(),
        forall|i: int|
            0 <= i < r@.len() ==> (#[trigger] r@[i])@.len() == clusters_in(output@)[i].len()
                && forall|k: int| 0 <= k < r@[i]@.len() ==> (#[trigger] r@[i]@[k])@ == clusters_in(output@)[i][k],
{
    let ghost sv = output@;
    let n = output.unicode_len();
    let mut out: Vec<Vec<String>> = Vec::new();
    let ghost mut done: Seq<(int, int)> = Seq::empty();
    let mut start: usize = 0;
    let mut i: usize = 0;
    while i < n
        invariant
            sv == output@,
            n == sv.len(),
            start <= i <= n,
            i > 0 && sv[i - 1] == '\n' ==> start == i,
            i > 0 && sv[i - 1] != '\n' ==> start < i,
            segments(sv, 0, i as int, '\n') == done.push((start as int, i as int)),
            out@.len() == done.len(),
            forall|j: int|
                0 <= j < out@.len() ==> (#[trigger] out@[j])@.len() == names_of(
                    sv,
                    token_bounds(sv, done[j].0, done[j].1),
                ).len() && forall|k: int|
                    0 <= k < out@[j]@.len() ==> (#[trigger] out@[j]@[k])@ == names_of(
                        sv,
                        token_bounds(sv, done[j].0, done[j].1),
                    )[k],
        decreases n - i,
    {
        if output.get_char(i) == '\n' {
            let names = names_in_line(output, start, i);
            proof {
                assert(done.push((start as int, i as int)).drop_last() =~= done);
                done = done.push((start as int, i as int));
            }
            out.push(names);
            start = i + 1;
        } else {
            proof {
                assert(done.push((start as int, i as int)).update(done.len() as int, (start as int, i + 1))
                    =~= done.push((start as int, i + 1)));
            }
        }
        i = i + 1;
    }
    if start < n {
        let names = names_in_line(output, start, n);
        proof {
            done = done.push((start as int, n as int));
        }
        out.push(names);
    }
    proof {
        if n > 0 && sv.last() == '\n' {
            assert(start == n);
            assert(segments(sv, 0, n as int, '\n') == segments(sv, 0, n - 1, '\n').push((n as int, n as int)));
            assert(segments(sv, 0, n - 1, '\n') =~= segments(sv, 0, n as int, '\n').drop_last());
            assert(done.push((n as int, n as int)).drop_last() =~= done);
            assert(segments(sv, 0, n - 1, '\n') =~= done);
        }
        assert(line_bounds(sv) =~= done);
    }
    out
}

} // verus!

//! Filesystem pattern resolution: expand a glob pattern under a base
//! directory into the ordered sequence of matches.
//!
//! The filesystem walk itself is done by an outside library; everything it
//! returns is then made relative to the base directory, normalized into an
//! output specifier, and sorted lexicographically by relative path, so the
//! sequence handed to code generation is ordered however the walk enumerated
//! the directories.

use vstd::prelude::*;
use vstd::seq_lib::{group_to_multiset_ensures, to_multiset_insert};
use vstd::multiset::Multiset;
use crate::ast::{GlobMatch, TransformError};
use crate::strnum::{
    join_pattern, join_spec, lemma_lex_le_total, lemma_lex_le_trans, lex_le, normalize_spec,
    normalize_specifier, str_lex_le, strip_base, strip_spec,
};

verus! {

/// View of one match as plain character sequences: (raw path, specifier).
pub open spec fn match_view(m: GlobMatch) -> (Seq<char>, Seq<char>) {
    (m.raw@, m.specifier@)
}

pub open spec fn views_of(s: Seq<GlobMatch>) -> Seq<(Seq<char>, Seq<char>)> {
    s.map_values(|m: GlobMatch| match_view(m))
}

/// Matches are in lexicographic order of their raw relative paths.
pub open spec fn sorted_matches(s: Seq<GlobMatch>) -> bool {
    forall|i: int, j: int|
        0 <= i < j < s.len() ==> lex_le((#[trigger] s[i]).raw@, (#[trigger] s[j]).raw@)
}

/// Each match's specifier is derived from its raw path.
pub open spec fn matches_linked(s: Seq<GlobMatch>) -> bool {
    forall|i: int|
        0 <= i < s.len() ==> (#[trigger] s[i]).specifier@ == normalize_spec(s[i].raw@)
}

/// Whether the walk accepts `p` as a well-formed glob pattern. The verdict
/// is decided by the pattern text alone, before any filesystem access, so
/// it gets a name; nothing else is assumed of it.
pub uninterp spec fn pattern_ok(p: Seq<char>) -> bool;

/// Relies on glob::glob: walks the filesystem for the entries matching the
/// pattern, yielding readable matches and per-entry read failures. It fails
/// exactly when the pattern itself cannot be parsed — a verdict of the
/// pattern text alone, named `pattern_ok`; an unreadable directory entry is
/// reported, never fatal. What the walk yields depends on the filesystem,
/// so nothing is assumed of the contents; order comes from the verified
/// sort downstream.
#[verifier::external_body]
fn glob_walk(pattern: &str) -> (res: Result<(Vec<String>, Vec<String>), ()>)
    ensures
        res is Err <==> !pattern_ok(pattern@),
{
    let paths = match glob::glob(pattern) {
        Ok(paths) => paths,
        Err(_) => return Err(()),
    };
    let mut found: Vec<String> = Vec::new();
    let mut unreadable: Vec<String> = Vec::new();
    for entry in paths {
        match entry {
            Ok(p) => found.push(p.to_string_lossy().into_owned()),
            Err(e) => unreadable.push(e.path().to_string_lossy().into_owned()),
        }
    }
    Ok((found, unreadable))
}

/// Sort matches by raw relative path, keeping exactly the same collection
/// of (raw, specifier) pairs.
fn sort_matches(input: Vec<GlobMatch>) -> (r: Vec<GlobMatch>)
    ensures
        sorted_matches(r@),
        views_of(r@).to_multiset() == views_of(input@).to_multiset(),
{
    broadcast use group_to_multiset_ensures;
    broadcast use vstd::multiset::group_multiset_axioms;

    let ghost input0 = input@;
    let mut rest = input;
    let mut out: Vec<GlobMatch> = Vec::new();
    proof {
        assert(views_of(out@) =~= Seq::<(Seq<char>, Seq<char>)>::empty());
        assert(views_of(out@).to_multiset().add(views_of(rest@).to_multiset()) =~= views_of(
            input0,
        ).to_multiset());
    }
    while rest.len() > 0
        invariant
            sorted_matches(out@),
            views_of(out@).to_multiset().add(views_of(rest@).to_multiset()) == views_of(
                input0,
            ).to_multiset(),
        decreases rest@.len(),
    {
        let ghost rest0 = rest@;
        let m = match rest.pop() {
            Some(m) => m,
            None => {
                proof {
                    assert(false);
                }
                return out;
            },
        };
        proof {
            assert(rest0 =~= rest@.push(m));
            assert(views_of(rest0) =~= views_of(rest@).push(match_view(m)));
        }
        let mut p: usize = 0;
        while p < out.len() && str_lex_le(out[p].raw.as_str(), m.raw.as_str())
            invariant
                0 <= p <= out@.len(),
                forall|i: int| 0 <= i < p ==> lex_le((#[trigger] out@[i]).raw@, m.raw@),
            decreases out@.len() - p,
        {
            p = p + 1;
        }
        let ghost out0 = out@;
        out.insert(p, m);
        proof {
            out0.insert_ensures(p as int, m);
            assert forall|i: int, j: int| 0 <= i < j < out@.len() implies lex_le(
                (#[trigger] out@[i]).raw@,
                (#[trigger] out@[j]).raw@,
            ) by {
                if p < out0.len() {
                    lemma_lex_le_total(out0[p as int].raw@, m.raw@);
                }
                if j == p {
                    assert(out@[j] == m);
                    assert(lex_le(out@[i].raw@, m.raw@));
                } else if i == p {
                    assert(out@[i] == m);
                    assert(out@[j] == out0[j - 1]);
                    assert(lex_le(m.raw@, out0[p as int].raw@));
                    if j - 1 > p {
                        lemma_lex_le_trans(m.raw@, out0[p as int].raw@, out0[j - 1].raw@);
                    }
                } else if i < p && j > p {
                    assert(out@[i] == out0[i]);
                    assert(out@[j] == out0[j - 1]);
                }
            }
            assert(views_of(out@) =~= views_of(out0).insert(p as int, match_view(m)));
            to_multiset_insert(views_of(out0), p as int, match_view(m));
            assert(views_of(out@).to_multiset() == views_of(out0).to_multiset().insert(
                match_view(m),
            ));
            assert(views_of(rest0).to_multiset() == views_of(rest@).to_multiset().insert(
                match_view(m),
            )) by {
                views_of(rest@).to_multiset_ensures();
                assert(views_of(rest@).push(match_view(m)).to_multiset() =~= views_of(
                    rest@,
                ).to_multiset().insert(match_view(m)));
            }
            assert(views_of(out@).to_multiset().add(views_of(rest@).to_multiset())
                =~= views_of(out0).to_multiset().add(views_of(rest0).to_multiset()));
        }
    }
    proof {
        assert(views_of(rest@) =~= Seq::<(Seq<char>, Seq<char>)>::empty());
        assert(views_of(out@).to_multiset().add(views_of(rest@).to_multiset()) =~= views_of(
            out@,
        ).to_multiset());
    }
    out
}

/// The view one walked path contributes: its raw form relative to the base
/// directory and the output specifier derived from it.
pub open spec fn path_view(p: Seq<char>, base: Seq<char>) -> (Seq<char>, Seq<char>) {
    (strip_spec(p, base), normalize_spec(strip_spec(p, base)))
}

/// Turn the paths the filesystem walk yielded, in whatever order it
/// enumerated them, into the ordered match sequence: each path made
/// relative to the base directory and normalized into a specifier, the
/// whole collection sorted lexicographically by relative path. Exactly the
/// walked paths appear, once each.
pub fn arrange_matches(paths: &Vec<String>, base_dir: &str) -> (r: Vec<GlobMatch>)
    ensures
        sorted_matches(r@),
        matches_linked(r@),
        views_of(r@).to_multiset() == paths@.map_values(
            |p: String| path_view(p@, base_dir@),
        ).to_multiset(),
{
    let mut ms: Vec<GlobMatch> = Vec::new();
    let mut i: usize = 0;
    while i < paths.len()
        invariant
            0 <= i <= paths@.len(),
            ms@.len() == i,
            matches_linked(ms@),
            forall|j: int|
                0 <= j < i ==> match_view(#[trigger] ms@[j]) == path_view(
                    paths@[j]@,
                    base_dir@,
                ),
        decreases paths@.len() - i,
    {
        let raw = strip_base(paths[i].as_str(), base_dir);
        let specifier = normalize_specifier(raw.as_str());
        ms.push(GlobMatch { raw, specifier });
        i = i + 1;
    }
    let ghost ms0 = ms@;
    let sorted = sort_matches(ms);
    proof {
        assert(views_of(ms0) =~= paths@.map_values(|p: String| path_view(p@, base_dir@))) by {
            assert forall|j: int| 0 <= j < paths@.len() implies views_of(ms0)[j] == paths@.map_values(
                |p: String| path_view(p@, base_dir@),
            )[j] by {
                assert(views_of(ms0)[j] == match_view(ms0[j]));
                assert(paths@.map_values(|p: String| path_view(p@, base_dir@))[j] == path_view(
                    paths@[j]@,
                    base_dir@,
                ));
            }
        }
        assert forall|t: int| 0 <= t < sorted@.len() implies (#[trigger] sorted@[t]).specifier@
            == normalize_spec(sorted@[t].raw@) by {
            views_of(sorted@).to_multiset_ensures();
            views_of(ms0).to_multiset_ensures();
            let v = match_view(sorted@[t]);
            assert(views_of(sorted@)[t] == v);
            assert(views_of(sorted@).contains(v));
            assert(views_of(sorted@).to_multiset().count(v) > 0);
            assert(views_of(ms0).to_multiset().count(v) > 0);
            assert(views_of(ms0).contains(v));
            let u = choose|u: int| 0 <= u < views_of(ms0).len() && views_of(ms0)[u] == v;
            assert(views_of(ms0)[u] == match_view(ms0[u]));
            assert(ms0[u].specifier@ == normalize_spec(ms0[u].raw@));
        }
    }
    sorted
}

/// Expand `pattern` under `base_dir` into the ordered sequence of matches,
/// plus the paths of directory entries that could not be read (non-fatal,
/// reported as warnings). The filesystem walk decides which paths exist;
/// everything after it is `arrange_matches`, verified for every walk
/// outcome. Fails with `GlobPatternInvalid` exactly when the pattern cannot
/// be parsed; a pattern matching zero files is a valid, empty outcome.
pub fn resolve(base_dir: &str, pattern: &str) -> (res: Result<
    (Vec<GlobMatch>, Vec<String>),
    TransformError,
>)
    ensures
        res matches Ok(out) ==> sorted_matches(out.0@) && matches_linked(out.0@),
        res is Err ==> res == Err::<(Vec<GlobMatch>, Vec<String>), TransformError>(
            TransformError::GlobPatternInvalid,
        ),
        res is Err <==> !pattern_ok(join_spec(base_dir@, pattern@)),
{
    let full = join_pattern(base_dir, pattern);
    let (paths, unreadable) = match glob_walk(full.as_str()) {
        Ok(w) => w,
        Err(_) => {
            return Err(TransformError::GlobPatternInvalid);
        },
    };
    let sorted = arrange_matches(&paths, base_dir);
    Ok((sorted, unreadable))
}

} // verus!

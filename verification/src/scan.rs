//! Candidate discovery on scanned paths.
//!
//! The scanner's decisions work on paths as byte strings with a given
//! separator byte: a path is a candidate when its file name is exactly the
//! requested component name and its parent directory is named `bin`, and
//! each candidate's co-located compiler binary lives beside it in that same
//! directory.  Walking the directory tree itself is the caller's business;
//! the paths it found are handed in as plain values.

use vstd::prelude::*;

use crate::parse::copy_range;

verus! {

/// Start of the file-name part of `p`: the index just past the last
/// separator, or 0 when the path holds none.
pub open spec fn name_start(p: Seq<u8>, sep: u8) -> int
    decreases p.len(),
{
    if p.len() == 0 {
        0
    } else if p[p.len() - 1] == sep {
        p.len() as int
    } else {
        name_start(p.drop_last(), sep)
    }
}

/// The file-name part: the bytes after the last separator.
pub open spec fn file_name(p: Seq<u8>, sep: u8) -> Seq<u8> {
    p.subrange(name_start(p, sep), p.len() as int)
}

/// The parent part: the bytes before the last separator, empty when the
/// path holds none.
pub open spec fn parent_dir(p: Seq<u8>, sep: u8) -> Seq<u8> {
    if name_start(p, sep) == 0 {
        Seq::empty()
    } else {
        p.subrange(0, name_start(p, sep) - 1)
    }
}

/// A path is a candidate for `target`: its file name is exactly `target`,
/// and its parent directory's own name is `bin`.
pub open spec fn spec_is_candidate(p: Seq<u8>, sep: u8, target: Seq<u8>) -> bool {
    file_name(p, sep) == target && file_name(parent_dir(p, sep), sep) == seq![98u8, 105u8, 110u8]
}

/// The compiler binary beside a candidate: the candidate's parent
/// directory, the separator, the compiler's file name.
pub open spec fn sibling_path(p: Seq<u8>, sep: u8, compiler: Seq<u8>) -> Seq<u8> {
    parent_dir(p, sep) + seq![sep] + compiler
}

fn name_start_upto(p: &Vec<u8>, j: usize, sep: u8) -> (r: usize)
    requires
        j <= p@.len(),
    ensures
        r <= j,
        r == name_start(p@.subrange(0, j as int), sep),
{
    let mut i = j;
    while i > 0
        invariant
            i <= j <= p@.len(),
            name_start(p@.subrange(0, j as int), sep) == name_start(
                p@.subrange(0, i as int),
                sep,
            ),
        decreases i,
    {
        if p[i - 1] == sep {
            return i;
        }
        i = i - 1;
        assert(p@.subrange(0, (i + 1) as int).drop_last() =~= p@.subrange(0, i as int));
    }
    assert(p@.subrange(0, 0) =~= Seq::<u8>::empty());
    0
}

fn range_eq(a: &Vec<u8>, ia: usize, ja: usize, b: &Vec<u8>, ib: usize, jb: usize) -> (r: bool)
    requires
        ia <= ja && ja <= a@.len(),
        ib <= jb && jb <= b@.len(),
    ensures
        r == (a@.subrange(ia as int, ja as int) == b@.subrange(ib as int, jb as int)),
{
    if ja - ia != jb - ib {
        assert(a@.subrange(ia as int, ja as int).len() == ja - ia);
        assert(b@.subrange(ib as int, jb as int).len() == jb - ib);
        return false;
    }
    let mut k: usize = 0;
    while k < ja - ia
        invariant
            ia <= ja <= a@.len(),
            ib <= jb <= b@.len(),
            ja - ia == jb - ib,
            k <= ja - ia,
            forall|t: int| 0 <= t < k ==> #[trigger] a@[ia + t] == b@[ib + t],
        decreases ja - ia - k,
    {
        if a[ia + k] != b[ib + k] {
            assert(a@.subrange(ia as int, ja as int)[k as int] == a@[ia + k]);
            assert(b@.subrange(ib as int, jb as int)[k as int] == b@[ib + k]);
            return false;
        }
        k = k + 1;
    }
    assert forall|t: int| 0 <= t < ja - ia implies a@.subrange(ia as int, ja as int)[t]
        == b@.subrange(ib as int, jb as int)[t] by {
        assert(a@[ia + t] == b@[ib + t]);
    }
    assert(a@.subrange(ia as int, ja as int) =~= b@.subrange(ib as int, jb as int));
    true
}

/// Decides whether a scanned path is a candidate for the component named
/// `target`.
pub fn is_candidate_path(p: &Vec<u8>, sep: u8, target: &Vec<u8>) -> (r: bool)
    ensures
        r == spec_is_candidate(p@, sep, target@),
{
    let n = p.len();
    let ns = name_start_upto(p, n, sep);
    proof {
        assert(p@.subrange(0, n as int) =~= p@);
        assert(target@.subrange(0, target@.len() as int) =~= target@);
    }
    if !range_eq(p, ns, n, target, 0, target.len()) {
        return false;
    }
    if ns == 0 {
        assert(file_name(parent_dir(p@, sep), sep).len() == 0);
        return false;
    }
    let pe = ns - 1;
    let ns2 = name_start_upto(p, pe, sep);
    let r = pe - ns2 == 3 && p[ns2] == 98 && p[ns2 + 1] == 105 && p[ns2 + 2] == 110;
    proof {
        let parent = parent_dir(p@, sep);
        assert(parent =~= p@.subrange(0, pe as int));
        assert(file_name(parent, sep) =~= p@.subrange(ns2 as int, pe as int));
        if r {
            assert(p@.subrange(ns2 as int, pe as int) =~= seq![98u8, 105u8, 110u8]);
        }
    }
    r
}

/// The platform file name for a base name: unchanged, or with `.exe`
/// appended on platforms that use executable suffixes.
pub fn executable_name(base: &Vec<u8>, windows: bool) -> (r: Vec<u8>)
    ensures
        r@ == if windows {
            base@ + seq![46u8, 101u8, 120u8, 101u8]
        } else {
            base@
        },
{
    proof {
        assert(base@.subrange(0, base@.len() as int) =~= base@);
    }
    let mut out = copy_range(base.as_slice(), 0, base.len());
    if windows {
        out.push(46);
        out.push(101);
        out.push(120);
        out.push(101);
        proof {
            assert(out@ =~= base@ + seq![46u8, 101u8, 120u8, 101u8]);
        }
    }
    out
}

/// Builds the path of the compiler binary co-located with a candidate.
pub fn compiler_path_for(p: &Vec<u8>, sep: u8, compiler: &Vec<u8>) -> (r: Vec<u8>)
    ensures
        r@ == sibling_path(p@, sep, compiler@),
{
    let n = p.len();
    let ns = name_start_upto(p, n, sep);
    proof {
        assert(p@.subrange(0, n as int) =~= p@);
    }
    let mut out: Vec<u8> = if ns == 0 {
        Vec::new()
    } else {
        copy_range(p.as_slice(), 0, ns - 1)
    };
    out.push(sep);
    proof {
        assert(out@ =~= parent_dir(p@, sep) + seq![sep] + compiler@.subrange(0, 0));
    }
    let mut k: usize = 0;
    while k < compiler.len()
        invariant
            k <= compiler@.len(),
            out@ == parent_dir(p@, sep) + seq![sep] + compiler@.subrange(0, k as int),
        decreases compiler@.len() - k,
    {
        out.push(compiler[k]);
        k = k + 1;
        assert(out@ =~= parent_dir(p@, sep) + seq![sep] + compiler@.subrange(0, k as int));
    }
    proof {
        assert(compiler@.subrange(0, compiler@.len() as int) =~= compiler@);
    }
    out
}

/// The candidate pairs among `ps`, kept in order: each path that is a
/// candidate for `target`, with its co-located compiler path.
pub open spec fn spec_candidates(ps: Seq<Seq<u8>>, target: Seq<u8>, compiler: Seq<u8>, sep: u8) -> Seq<
    (Seq<u8>, Seq<u8>),
>
    decreases ps.len(),
{
    if ps.len() == 0 {
        Seq::empty()
    } else {
        let rest = spec_candidates(ps.drop_last(), target, compiler, sep);
        if spec_is_candidate(ps.last(), sep, target) {
            rest.push((ps.last(), sibling_path(ps.last(), sep, compiler)))
        } else {
            rest
        }
    }
}

/// Filters scanned paths down to the candidate pairs: every path whose file
/// name is `target` inside a `bin` directory appears, in scan order, with
/// its derived compiler path; nothing else does.
pub fn locate_candidates(
    paths: &Vec<Vec<u8>>,
    target: &Vec<u8>,
    compiler: &Vec<u8>,
    sep: u8,
) -> (r: Vec<(Vec<u8>, Vec<u8>)>)
    ensures
        r.deep_view() == spec_candidates(paths.deep_view(), target@, compiler@, sep),
{
    let mut out: Vec<(Vec<u8>, Vec<u8>)> = Vec::new();
    let mut i: usize = 0;
    proof {
        assert(out.deep_view() =~= spec_candidates(
            paths.deep_view().take(0),
            target@,
            compiler@,
            sep,
        ));
    }
    while i < paths.len()
        invariant
            i <= paths@.len(),
            out.deep_view() == spec_candidates(
                paths.deep_view().take(i as int),
                target@,
                compiler@,
                sep,
            ),
        decreases paths@.len() - i,
    {
        let p = &paths[i];
        if is_candidate_path(p, sep, target) {
            let comp = compiler_path_for(p, sep, compiler);
            proof {
                assert(p@.subrange(0, p@.len() as int) =~= p@);
            }
            let path_copy = copy_range(p.as_slice(), 0, p.len());
            proof {
                assert(path_copy.deep_view() =~= p@);
                assert(comp.deep_view() =~= sibling_path(p@, sep, compiler@));
            }
            out.push((path_copy, comp));
        }
        i = i + 1;
        proof {
            let dv = paths.deep_view();
            assert(dv.take(i as int).drop_last() =~~= dv.take(i - 1));
            assert(dv.take(i as int).last() =~= paths@[i - 1]@);
            assert(out.deep_view() =~~= spec_candidates(dv.take(i as int), target@, compiler@, sep));
        }
    }
    proof {
        assert(paths.deep_view().take(paths@.len() as int) =~~= paths.deep_view());
    }
    out
}

} // verus!

//! Format normalization of a scanned tree: every file whose extension names
//! a known non-target raster codec, outside the thumbnails subtree, is
//! converted in place to the target codec; one file's codec failure never
//! aborts the pass. The walk itself and the byte I/O belong to the caller,
//! which feeds the scanned paths in and reports each conversion's outcome
//! back; planning, bookkeeping and the resulting state are verified here.

use vstd::prelude::*;
use crate::paths::{
    has_extension,
    has_extension_sp,
    under_thumbnails,
    under_thumbnails_sp,
    with_webp_ext_sp,
    with_webp_extension,
};

verus! {

/// A file is a normalization source when its extension names a known
/// non-target raster codec and it lies outside the thumbnails subtree.
pub open spec fn convertible_sp(p: Seq<char>) -> bool {
    (has_extension_sp(p, "jpg"@) || has_extension_sp(p, "jpeg"@) || has_extension_sp(p, "png"@))
        && !under_thumbnails_sp(p)
}

pub fn convertible(p: &str) -> (r: bool)
    ensures
        r == convertible_sp(p@),
{
    (has_extension(p, "jpg") || has_extension(p, "jpeg") || has_extension(p, "png"))
        && !under_thumbnails(p)
}

/// Number of normalization sources in a file list.
pub open spec fn count_convertible(files: Seq<Seq<char>>) -> int
    decreases files.len(),
{
    if files.len() == 0 {
        0
    } else {
        (if convertible_sp(files[0]) {
            1int
        } else {
            0int
        }) + count_convertible(files.skip(1))
    }
}

/// Number of sources whose conversion succeeded, given one outcome per file.
pub open spec fn count_converted(files: Seq<Seq<char>>, ok: Seq<bool>) -> int
    decreases files.len(),
{
    if files.len() == 0 {
        0
    } else {
        (if convertible_sp(files[0]) && ok[0] {
            1int
        } else {
            0int
        }) + count_converted(files.skip(1), ok.skip(1))
    }
}

proof fn lemma_count_convertible_push(files: Seq<Seq<char>>, p: Seq<char>)
    ensures
        count_convertible(files.push(p)) == count_convertible(files) + (if convertible_sp(p) {
            1int
        } else {
            0int
        }),
    decreases files.len(),
{
    let t = files.push(p);
    assert(count_convertible(t) == (if convertible_sp(t[0]) {
        1int
    } else {
        0int
    }) + count_convertible(t.skip(1)));
    if files.len() == 0 {
        assert(t.skip(1) =~= Seq::<Seq<char>>::empty());
    } else {
        lemma_count_convertible_push(files.skip(1), p);
        assert(t[0] == files[0]);
        assert(t.skip(1) =~= files.skip(1).push(p));
    }
}

proof fn lemma_count_converted_push(files: Seq<Seq<char>>, ok: Seq<bool>, p: Seq<char>, b: bool)
    requires
        files.len() == ok.len(),
    ensures
        count_converted(files.push(p), ok.push(b)) == count_converted(files, ok) + (
        if convertible_sp(p) && b {
            1int
        } else {
            0int
        }),
    decreases files.len(),
{
    let t = files.push(p);
    let u = ok.push(b);
    assert(count_converted(t, u) == (if convertible_sp(t[0]) && u[0] {
        1int
    } else {
        0int
    }) + count_converted(t.skip(1), u.skip(1)));
    if files.len() == 0 {
        assert(t.skip(1) =~= Seq::<Seq<char>>::empty());
        assert(u.skip(1) =~= Seq::<bool>::empty());
    } else {
        lemma_count_converted_push(files.skip(1), ok.skip(1), p, b);
        assert(t[0] == files[0]);
        assert(u[0] == ok[0]);
        assert(t.skip(1) =~= files.skip(1).push(p));
        assert(u.skip(1) =~= ok.skip(1).push(b));
    }
}

pub proof fn lemma_counts_bounds(files: Seq<Seq<char>>, ok: Seq<bool>)
    requires
        files.len() == ok.len(),
    ensures
        0 <= count_converted(files, ok) <= count_convertible(files) <= files.len(),
    decreases files.len(),
{
    if files.len() > 0 {
        lemma_counts_bounds(files.skip(1), ok.skip(1));
    }
}

/// One planned conversion: the position of the source in the scanned list,
/// its path, and the target path carrying the target codec's extension.
pub struct ConvertJob {
    pub index: usize,
    pub source: String,
    pub target: String,
}

/// Select, in scan order, every file that normalization must convert, with
/// its in-place target path. Exactly the convertible files are planned.
pub fn plan_conversions(files: &Vec<String>) -> (jobs: Vec<ConvertJob>)
    ensures
        jobs@.len() == count_convertible(files.deep_view()),
        forall|k: int|
            0 <= k < jobs@.len() ==> {
                &&& (#[trigger] jobs@[k]).index < files@.len()
                &&& jobs@[k].source@ == files.deep_view()[jobs@[k].index as int]
                &&& convertible_sp(jobs@[k].source@)
                &&& jobs@[k].target@ == with_webp_ext_sp(jobs@[k].source@)
            },
        forall|k1: int, k2: int|
            0 <= k1 < k2 < jobs@.len() ==> (#[trigger] jobs@[k1]).index < (
            #[trigger] jobs@[k2]).index,
        forall|i: int|
            0 <= i < files@.len() && #[trigger] convertible_sp(files.deep_view()[i])
                ==> exists|k: int| 0 <= k < jobs@.len() && (#[trigger] jobs@[k]).index == i,
{
    let ghost fv = files.deep_view();
    let mut jobs: Vec<ConvertJob> = Vec::new();
    let mut i: usize = 0;
    while i < files.len()
        invariant
            i <= files@.len(),
            fv == files.deep_view(),
            jobs@.len() == count_convertible(fv.take(i as int)),
            forall|k: int|
                0 <= k < jobs@.len() ==> {
                    &&& (#[trigger] jobs@[k]).index < i
                    &&& jobs@[k].source@ == fv[jobs@[k].index as int]
                    &&& convertible_sp(jobs@[k].source@)
                    &&& jobs@[k].target@ == with_webp_ext_sp(jobs@[k].source@)
                },
            forall|k1: int, k2: int|
                0 <= k1 < k2 < jobs@.len() ==> (#[trigger] jobs@[k1]).index < (
                #[trigger] jobs@[k2]).index,
            forall|j: int|
                0 <= j < i && #[trigger] convertible_sp(fv[j]) ==> exists|k: int|
                    0 <= k < jobs@.len() && (#[trigger] jobs@[k]).index == j,
        decreases files@.len() - i,
    {
        let p: &String = &files[i];
        let ghost prev = jobs@;
        if convertible(p.as_str()) {
            let t = with_webp_extension(p.as_str());
            jobs.push(ConvertJob { index: i, source: p.clone(), target: t });
        }
        proof {
            assert(fv.take(i + 1) =~= fv.take(i as int).push(fv[i as int]));
            lemma_count_convertible_push(fv.take(i as int), fv[i as int]);
            assert forall|j: int|
                0 <= j < i + 1 && #[trigger] convertible_sp(fv[j]) implies exists|k: int|
                    0 <= k < jobs@.len() && (#[trigger] jobs@[k]).index == j by {
                if j == i as int {
                    assert(jobs@[jobs@.len() - 1].index == i);
                } else {
                    let k = choose|k: int|
                        0 <= k < prev.len() && (#[trigger] prev[k]).index == j;
                    assert(jobs@[k].index == j);
                }
            }
        }
        i = i + 1;
    }
    proof {
        assert(fv.take(files@.len() as int) =~= fv);
    }
    jobs
}

/// The path a file has after the normalization pass: a source that converted
/// successfully stands at the same location with the target extension and
/// its original is gone; everything else is untouched.
pub open spec fn normalized_file_sp(p: Seq<char>, ok: bool) -> Seq<char> {
    if convertible_sp(p) && ok {
        with_webp_ext_sp(p)
    } else {
        p
    }
}

/// Fold the per-file outcomes of a normalization pass into the resulting
/// tree state and the converted and failed counts. A failure only keeps that
/// one source in place; the pass always covers the whole list.
pub fn apply_conversions(files: &Vec<String>, ok: &Vec<bool>) -> (r: (Vec<String>, usize, usize))
    requires
        files@.len() == ok@.len(),
    ensures
        r.0@.len() == files@.len(),
        forall|i: int|
            0 <= i < files@.len() ==> r.0.deep_view()[i] == normalized_file_sp(
                files.deep_view()[i],
                ok@[i],
            ),
        r.1 == count_converted(files.deep_view(), ok@),
        r.1 + r.2 == count_convertible(files.deep_view()),
{
    let ghost fv = files.deep_view();
    let mut out: Vec<String> = Vec::new();
    let mut converted: usize = 0;
    let mut failed: usize = 0;
    let mut i: usize = 0;
    while i < files.len()
        invariant
            i <= files@.len(),
            files@.len() == ok@.len(),
            fv == files.deep_view(),
            out@.len() == i,
            forall|j: int|
                0 <= j < i ==> (#[trigger] out@[j])@ == normalized_file_sp(fv[j], ok@[j]),
            converted == count_converted(fv.take(i as int), ok@.take(i as int)),
            converted + failed == count_convertible(fv.take(i as int)),
        decreases files@.len() - i,
    {
        proof {
            lemma_counts_bounds(fv.take(i as int), ok@.take(i as int));
        }
        let p: &String = &files[i];
        let okay = ok[i];
        let ghost prev = out@;
        if convertible(p.as_str()) {
            if okay {
                out.push(with_webp_extension(p.as_str()));
                converted = converted + 1;
            } else {
                out.push(p.clone());
                failed = failed + 1;
            }
        } else {
            out.push(p.clone());
        }
        proof {
            assert forall|j: int|
                0 <= j < i + 1 implies (#[trigger] out@[j])@ == normalized_file_sp(
                fv[j],
                ok@[j],
            ) by {
                if j < i {
                    assert(out@[j] == prev[j]);
                } else {
                    assert(fv[j] == files@[j]@);
                }
            }
            assert(fv.take(i + 1) =~= fv.take(i as int).push(fv[i as int]));
            assert(ok@.take(i + 1) =~= ok@.take(i as int).push(ok@[i as int]));
            lemma_count_convertible_push(fv.take(i as int), fv[i as int]);
            lemma_count_converted_push(
                fv.take(i as int),
                ok@.take(i as int),
                fv[i as int],
                ok@[i as int],
            );
        }
        i = i + 1;
    }
    proof {
        assert(fv.take(files@.len() as int) =~= fv);
        assert(ok@.take(ok@.len() as int) =~= ok@);
        assert forall|j: int|
            0 <= j < files@.len() implies out.deep_view()[j] == normalized_file_sp(
            fv[j],
            ok@[j],
        ) by {
            assert(out.deep_view()[j] == out@[j]@);
        }
    }
    (out, converted, failed)
}

proof fn lemma_all_ok(files: Seq<Seq<char>>, ok: Seq<bool>)
    requires
        files.len() == ok.len(),
        forall|i: int| 0 <= i < ok.len() ==> ok[i],
    ensures
        count_converted(files, ok) == count_convertible(files),
    decreases files.len(),
{
    if files.len() > 0 {
        assert(forall|i: int| 0 <= i < ok.skip(1).len() ==> ok.skip(1)[i] == ok[i + 1]);
        lemma_all_ok(files.skip(1), ok.skip(1));
    }
}

/// Partial-failure containment: when exactly one source fails to convert and
/// every other source succeeds, the pass still covers the whole list, every
/// other source is converted, and exactly one failure is reported.
pub proof fn lemma_partial_failure(files: Seq<Seq<char>>, ok: Seq<bool>, bad: int)
    requires
        files.len() == ok.len(),
        0 <= bad < files.len(),
        convertible_sp(files[bad]),
        !ok[bad],
        forall|i: int| 0 <= i < ok.len() && i != bad ==> ok[i],
    ensures
        count_converted(files, ok) == count_convertible(files) - 1,
    decreases files.len(),
{
    assert(forall|i: int| 0 <= i < ok.skip(1).len() ==> ok.skip(1)[i] == ok[i + 1]);
    if bad == 0 {
        lemma_all_ok(files.skip(1), ok.skip(1));
    } else {
        lemma_partial_failure(files.skip(1), ok.skip(1), bad - 1);
    }
}

} // verus!

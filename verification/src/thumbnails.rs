//! Thumbnail caching over a scanned tree: every target-codec image outside
//! the thumbnails subtree owns at most one thumbnail, stored flat under the
//! thumbnails subtree under the image's own base name. Presence of that file
//! is the cache-hit signal: a planned pass only selects images whose
//! thumbnail is absent, so a repeated pass after a fully successful one
//! plans nothing and repeats no codec work. The caller walks the disk and
//! reports each derivation's outcome; selection and bookkeeping are
//! verified here.

use vstd::prelude::*;
use crate::paths::{
    concat_strs,
    contains_at,
    segment_at,
    file_name,
    file_name_sp,
    has_extension,
    has_extension_sp,
    str_eq,
    under_thumbnails,
    under_thumbnails_sp,
};

verus! {

/// A file owes a thumbnail when it carries the target codec's extension and
/// lies outside the thumbnails subtree.
pub open spec fn thumb_source_sp(p: Seq<char>) -> bool {
    has_extension_sp(p, "webp"@) && !under_thumbnails_sp(p)
}

pub fn thumb_source(p: &str) -> (r: bool)
    ensures
        r == thumb_source_sp(p@),
{
    has_extension(p, "webp") && !under_thumbnails(p)
}

/// The path of an image's thumbnail: the thumbnails subtree of `root`
/// joined with the image's own base name — the lookup key is name equality.
pub open spec fn thumb_target_sp(root: Seq<char>, p: Seq<char>) -> Seq<char> {
    root + "/thumbnails/"@ + file_name_sp(p)
}

pub fn thumb_target(root: &str, p: &str) -> (r: String)
    ensures
        r@ == thumb_target_sp(root@, p@),
{
    let name = file_name(p);
    let joined = concat_strs(root, "/thumbnails/");
    concat_strs(joined.as_str(), name.as_str())
}

/// A thumbnail path always lies under the thumbnails subtree.
pub proof fn lemma_thumb_target_excluded(root: Seq<char>, p: Seq<char>)
    ensures
        under_thumbnails_sp(thumb_target_sp(root, p)),
{
    reveal_strlit("/thumbnails/");
    reveal_strlit("thumbnails");
    let t = thumb_target_sp(root, p);
    let i = root.len() as int + 1;
    assert(t.subrange(i, i + 10) =~= "thumbnails"@);
    assert(contains_at(t, i, "thumbnails"@));
    assert(t[i - 1] == '/' && t[i + 10] == '/');
    assert(segment_at(t, i, "thumbnails"@));
}

/// A file needs a thumbnail in state `all` when it is a source and its
/// thumbnail path is not yet present.
pub open spec fn thumb_needed_sp(all: Seq<Seq<char>>, root: Seq<char>, p: Seq<char>) -> bool {
    thumb_source_sp(p) && !all.contains(thumb_target_sp(root, p))
}

/// The thumbnail paths a pass over `files` in state `all` would create,
/// in scan order.
pub open spec fn needed_targets(
    all: Seq<Seq<char>>,
    root: Seq<char>,
    files: Seq<Seq<char>>,
) -> Seq<Seq<char>>
    decreases files.len(),
{
    if files.len() == 0 {
        Seq::empty()
    } else if thumb_needed_sp(all, root, files[0]) {
        seq![thumb_target_sp(root, files[0])] + needed_targets(all, root, files.skip(1))
    } else {
        needed_targets(all, root, files.skip(1))
    }
}

proof fn lemma_needed_targets_push(
    all: Seq<Seq<char>>,
    root: Seq<char>,
    files: Seq<Seq<char>>,
    p: Seq<char>,
)
    ensures
        needed_targets(all, root, files.push(p)) == needed_targets(all, root, files) + (
        if thumb_needed_sp(all, root, p) {
            seq![thumb_target_sp(root, p)]
        } else {
            Seq::<Seq<char>>::empty()
        }),
    decreases files.len(),
{
    let t = files.push(p);
    assert(t.len() == files.len() + 1);
    assert(needed_targets(all, root, t) == (if thumb_needed_sp(all, root, t[0]) {
        seq![thumb_target_sp(root, t[0])] + needed_targets(all, root, t.skip(1))
    } else {
        needed_targets(all, root, t.skip(1))
    }));
    if files.len() == 0 {
        assert(t[0] == p);
        assert(t.skip(1) =~= Seq::<Seq<char>>::empty());
        assert(needed_targets(all, root, Seq::<Seq<char>>::empty()) == Seq::<Seq<char>>::empty());
        if thumb_needed_sp(all, root, p) {
            assert(seq![thumb_target_sp(root, p)] + Seq::<Seq<char>>::empty()
                =~= seq![thumb_target_sp(root, p)]);
            assert(Seq::<Seq<char>>::empty() + seq![thumb_target_sp(root, p)]
                =~= seq![thumb_target_sp(root, p)]);
        } else {
            assert(Seq::<Seq<char>>::empty() + Seq::<Seq<char>>::empty()
                =~= Seq::<Seq<char>>::empty());
        }
    } else {
        lemma_needed_targets_push(all, root, files.skip(1), p);
        assert(t[0] == files[0]);
        assert(t.skip(1) =~= files.skip(1).push(p));
        let head = seq![thumb_target_sp(root, files[0])];
        let tail = needed_targets(all, root, files.skip(1));
        if thumb_needed_sp(all, root, p) {
            assert((head + tail) + seq![thumb_target_sp(root, p)] =~= head + (tail + seq![
                thumb_target_sp(root, p),
            ]));
        } else {
            assert(tail + Seq::<Seq<char>>::empty() =~= tail);
            assert((head + tail) + Seq::<Seq<char>>::empty() =~= head + tail);
        }
    }
}

/// Whether `p` is one of the paths in `files`.
pub fn contains_path(files: &Vec<String>, p: &str) -> (r: bool)
    ensures
        r == files.deep_view().contains(p@),
{
    let mut i: usize = 0;
    while i < files.len()
        invariant
            i <= files@.len(),
            forall|j: int| 0 <= j < i ==> files.deep_view()[j] != p@,
        decreases files@.len() - i,
    {
        let q: &String = &files[i];
        if str_eq(q.as_str(), p) {
            proof {
                assert(files.deep_view()[i as int] == p@);
            }
            return true;
        }
        i = i + 1;
    }
    false
}

/// One planned thumbnail derivation: the position of the source image in the
/// scanned list, its path, and the thumbnail path to create.
pub struct ThumbJob {
    pub index: usize,
    pub source: String,
    pub target: String,
}

/// Select, in scan order, every image whose thumbnail is absent from the
/// scanned state. Exactly the images that need a thumbnail are planned; a
/// present thumbnail is a cache hit and is skipped without codec work.
pub fn plan_thumbnails(files: &Vec<String>, root: &str) -> (jobs: Vec<ThumbJob>)
    ensures
        jobs@.map_values(|j: ThumbJob| j.target@) == needed_targets(
            files.deep_view(),
            root@,
            files.deep_view(),
        ),
        forall|k: int|
            0 <= k < jobs@.len() ==> {
                &&& (#[trigger] jobs@[k]).index < files@.len()
                &&& jobs@[k].source@ == files.deep_view()[jobs@[k].index as int]
                &&& thumb_needed_sp(files.deep_view(), root@, jobs@[k].source@)
                &&& jobs@[k].target@ == thumb_target_sp(root@, jobs@[k].source@)
            },
        forall|k1: int, k2: int|
            0 <= k1 < k2 < jobs@.len() ==> (#[trigger] jobs@[k1]).index < (
            #[trigger] jobs@[k2]).index,
        forall|i: int|
            0 <= i < files@.len() && #[trigger] thumb_needed_sp(
                files.deep_view(),
                root@,
                files.deep_view()[i],
            ) ==> exists|k: int| 0 <= k < jobs@.len() && (#[trigger] jobs@[k]).index == i,
{
    let ghost fv = files.deep_view();
    let mut jobs: Vec<ThumbJob> = Vec::new();
    let mut i: usize = 0;
    while i < files.len()
        invariant
            i <= files@.len(),
            fv == files.deep_view(),
            jobs@.map_values(|j: ThumbJob| j.target@) == needed_targets(fv, root@, fv.take(
                i as int,
            )),
            forall|k: int|
                0 <= k < jobs@.len() ==> {
                    &&& (#[trigger] jobs@[k]).index < i
                    &&& jobs@[k].source@ == fv[jobs@[k].index as int]
                    &&& thumb_needed_sp(fv, root@, jobs@[k].source@)
                    &&& jobs@[k].target@ == thumb_target_sp(root@, jobs@[k].source@)
                },
            forall|k1: int, k2: int|
                0 <= k1 < k2 < jobs@.len() ==> (#[trigger] jobs@[k1]).index < (
                #[trigger] jobs@[k2]).index,
            forall|j: int|
                0 <= j < i && #[trigger] thumb_needed_sp(fv, root@, fv[j]) ==> exists|k: int|
                    0 <= k < jobs@.len() && (#[trigger] jobs@[k]).index == j,
        decreases files@.len() - i,
    {
        let p: &String = &files[i];
        let ghost prev = jobs@;
        if thumb_source(p.as_str()) {
            let target = thumb_target(root, p.as_str());
            if !contains_path(files, target.as_str()) {
                jobs.push(ThumbJob { index: i, source: p.clone(), target });
            }
        }
        proof {
            assert(fv.take(i + 1) =~= fv.take(i as int).push(fv[i as int]));
            lemma_needed_targets_push(fv, root@, fv.take(i as int), fv[i as int]);
            assert(jobs@.map_values(|j: ThumbJob| j.target@) =~= needed_targets(
                fv,
                root@,
                fv.take(i + 1),
            ));
            assert forall|j: int|
                0 <= j < i + 1 && #[trigger] thumb_needed_sp(fv, root@, fv[j]) implies exists|
                k: int,
            |
                0 <= k < jobs@.len() && (#[trigger] jobs@[k]).index == j by {
                if j == i as int {
                    assert(jobs@[jobs@.len() - 1].index == i);
                } else {
                    let k = choose|k: int|
                        0 <= k < prev.len() && (#[trigger] prev[k]).index == j;
                    assert(jobs@[k].index == j);
                }
            }
        }
        i = i + 1;
    }
    proof {
        assert(fv.take(files@.len() as int) =~= fv);
    }
    jobs
}

/// Number of successful outcomes.
pub open spec fn count_true(ok: Seq<bool>) -> int
    decreases ok.len(),
{
    if ok.len() == 0 {
        0
    } else {
        (if ok[0] {
            1int
        } else {
            0int
        }) + count_true(ok.skip(1))
    }
}

proof fn lemma_count_true_push(ok: Seq<bool>, b: bool)
    ensures
        count_true(ok.push(b)) == count_true(ok) + (if b {
            1int
        } else {
            0int
        }),
    decreases ok.len(),
{
    let t = ok.push(b);
    assert(t.len() == ok.len() + 1);
    assert(count_true(t) == (if t[0] {
        1int
    } else {
        0int
    }) + count_true(t.skip(1)));
    if ok.len() == 0 {
        assert(t[0] == b);
        assert(t.skip(1) =~= Seq::<bool>::empty());
        assert(count_true(Seq::<bool>::empty()) == 0);
    } else {
        lemma_count_true_push(ok.skip(1), b);
        assert(t[0] == ok[0]);
        assert(t.skip(1) =~= ok.skip(1).push(b));
    }
}

/// The targets of the jobs that succeeded, in order.
pub open spec fn kept_targets(targets: Seq<Seq<char>>, ok: Seq<bool>) -> Seq<Seq<char>>
    decreases targets.len(),
{
    if targets.len() == 0 {
        Seq::empty()
    } else if ok[0] {
        seq![targets[0]] + kept_targets(targets.skip(1), ok.skip(1))
    } else {
        kept_targets(targets.skip(1), ok.skip(1))
    }
}

proof fn lemma_kept_targets_push(targets: Seq<Seq<char>>, ok: Seq<bool>, t: Seq<char>, b: bool)
    requires
        targets.len() == ok.len(),
    ensures
        kept_targets(targets.push(t), ok.push(b)) == kept_targets(targets, ok) + (if b {
            seq![t]
        } else {
            Seq::<Seq<char>>::empty()
        }),
    decreases targets.len(),
{
    let ts = targets.push(t);
    let os = ok.push(b);
    assert(ts.len() == targets.len() + 1);
    assert(kept_targets(ts, os) == (if os[0] {
        seq![ts[0]] + kept_targets(ts.skip(1), os.skip(1))
    } else {
        kept_targets(ts.skip(1), os.skip(1))
    }));
    if targets.len() == 0 {
        assert(ts[0] == t);
        assert(os[0] == b);
        assert(ts.skip(1) =~= Seq::<Seq<char>>::empty());
        assert(os.skip(1) =~= Seq::<bool>::empty());
        assert(kept_targets(Seq::<Seq<char>>::empty(), Seq::<bool>::empty())
            == Seq::<Seq<char>>::empty());
        if b {
            assert(seq![t] + Seq::<Seq<char>>::empty() =~= seq![t]);
            assert(Seq::<Seq<char>>::empty() + seq![t] =~= seq![t]);
        } else {
            assert(Seq::<Seq<char>>::empty() + Seq::<Seq<char>>::empty()
                =~= Seq::<Seq<char>>::empty());
        }
    } else {
        lemma_kept_targets_push(targets.skip(1), ok.skip(1), t, b);
        assert(ts[0] == targets[0]);
        assert(os[0] == ok[0]);
        assert(ts.skip(1) =~= targets.skip(1).push(t));
        assert(os.skip(1) =~= ok.skip(1).push(b));
        let head = seq![targets[0]];
        let tail = kept_targets(targets.skip(1), ok.skip(1));
        if ok[0] {
            if b {
                assert((head + tail) + seq![t] =~= head + (tail + seq![t]));
            } else {
                assert(tail + Seq::<Seq<char>>::empty() =~= tail);
                assert((head + tail) + Seq::<Seq<char>>::empty() =~= head + tail);
            }
        } else {
            if !b {
                assert(tail + Seq::<Seq<char>>::empty() =~= tail);
            }
        }
    }
}

/// When every job succeeded, the pass created exactly the planned targets.
pub proof fn lemma_kept_all(targets: Seq<Seq<char>>, ok: Seq<bool>)
    requires
        targets.len() == ok.len(),
        forall|i: int| 0 <= i < ok.len() ==> ok[i],
    ensures
        kept_targets(targets, ok) == targets,
    decreases targets.len(),
{
    if targets.len() > 0 {
        assert(forall|i: int| 0 <= i < ok.skip(1).len() ==> ok.skip(1)[i] == ok[i + 1]);
        lemma_kept_all(targets.skip(1), ok.skip(1));
        assert(seq![targets[0]] + targets.skip(1) =~= targets);
    }
}

/// Fold the outcomes of a thumbnail pass into the resulting tree state and
/// the created and failed counts. A failure skips only that one image; the
/// pass always covers every planned job.
pub fn apply_thumbnails(files: &Vec<String>, jobs: &Vec<ThumbJob>, ok: &Vec<bool>) -> (r: (
    Vec<String>,
    usize,
    usize,
))
    requires
        jobs@.len() == ok@.len(),
    ensures
        r.0.deep_view() == files.deep_view() + kept_targets(
            jobs@.map_values(|j: ThumbJob| j.target@),
            ok@,
        ),
        r.1 == count_true(ok@),
        r.1 + r.2 == ok@.len(),
{
    let ghost targets = jobs@.map_values(|j: ThumbJob| j.target@);
    let mut out: Vec<String> = Vec::new();
    let mut i: usize = 0;
    while i < files.len()
        invariant
            i <= files@.len(),
            out@.len() == i,
            forall|j: int| 0 <= j < i ==> (#[trigger] out@[j])@ == files.deep_view()[j],
        decreases files@.len() - i,
    {
        let p: &String = &files[i];
        let ghost prev = out@;
        out.push(p.clone());
        proof {
            assert forall|j: int|
                0 <= j < i + 1 implies (#[trigger] out@[j])@ == files.deep_view()[j] by {
                if j < i {
                    assert(out@[j] == prev[j]);
                } else {
                    assert(files.deep_view()[j] == files@[j]@);
                }
            }
        }
        i = i + 1;
    }
    let mut created: usize = 0;
    let mut failed: usize = 0;
    let mut j: usize = 0;
    while j < jobs.len()
        invariant
            j <= jobs@.len(),
            jobs@.len() == ok@.len(),
            targets == jobs@.map_values(|jb: ThumbJob| jb.target@),
            out.deep_view() == files.deep_view() + kept_targets(
                targets.take(j as int),
                ok@.take(j as int),
            ),
            created == count_true(ok@.take(j as int)),
            created + failed == j,
        decreases jobs@.len() - j,
    {
        let jb: &ThumbJob = &jobs[j];
        let okay = ok[j];
        let ghost prev_dv = out.deep_view();
        if okay {
            out.push(jb.target.clone());
            created = created + 1;
        } else {
            failed = failed + 1;
        }
        proof {
            assert(targets.take(j + 1) =~= targets.take(j as int).push(targets[j as int]));
            assert(ok@.take(j + 1) =~= ok@.take(j as int).push(ok@[j as int]));
            lemma_kept_targets_push(
                targets.take(j as int),
                ok@.take(j as int),
                targets[j as int],
                ok@[j as int],
            );
            lemma_count_true_push(ok@.take(j as int), ok@[j as int]);
            if okay {
                assert(targets[j as int] == jb.target@);
                assert(out.deep_view() =~= prev_dv + seq![jb.target@]);
                assert(prev_dv + seq![jb.target@] =~= files.deep_view() + kept_targets(
                    targets.take(j + 1),
                    ok@.take(j + 1),
                ));
            } else {
                assert(kept_targets(targets.take(j + 1), ok@.take(j + 1)) =~= kept_targets(
                    targets.take(j as int),
                    ok@.take(j as int),
                ));
            }
        }
        j = j + 1;
    }
    proof {
        assert(targets.take(targets.len() as int) =~= targets);
        assert(ok@.take(ok@.len() as int) =~= ok@);
    }
    (out, created, failed)
}

proof fn lemma_needed_under_thumbnails(
    all: Seq<Seq<char>>,
    root: Seq<char>,
    files: Seq<Seq<char>>,
    idx: int,
)
    requires
        0 <= idx < needed_targets(all, root, files).len(),
    ensures
        under_thumbnails_sp(needed_targets(all, root, files)[idx]),
    decreases files.len(),
{
    if files.len() > 0 {
        if thumb_needed_sp(all, root, files[0]) {
            if idx == 0 {
                lemma_thumb_target_excluded(root, files[0]);
            } else {
                lemma_needed_under_thumbnails(all, root, files.skip(1), idx - 1);
            }
        } else {
            lemma_needed_under_thumbnails(all, root, files.skip(1), idx);
        }
    }
}

proof fn lemma_needed_complete(
    all: Seq<Seq<char>>,
    root: Seq<char>,
    files: Seq<Seq<char>>,
    i: int,
)
    requires
        0 <= i < files.len(),
        thumb_needed_sp(all, root, files[i]),
    ensures
        needed_targets(all, root, files).contains(thumb_target_sp(root, files[i])),
    decreases files.len(),
{
    let out = needed_targets(all, root, files);
    if i == 0 {
        assert(out[0] == thumb_target_sp(root, files[0]));
    } else {
        lemma_needed_complete(all, root, files.skip(1), i - 1);
        let rest = needed_targets(all, root, files.skip(1));
        let w = choose|k: int| 0 <= k < rest.len() && rest[k] == thumb_target_sp(
            root,
            files[i],
        );
        if thumb_needed_sp(all, root, files[0]) {
            assert(out[w + 1] == rest[w]);
        } else {
            assert(out[w] == rest[w]);
        }
    }
}

proof fn lemma_none_needed(all: Seq<Seq<char>>, root: Seq<char>, files: Seq<Seq<char>>)
    requires
        forall|i: int| 0 <= i < files.len() ==> !thumb_needed_sp(all, root, #[trigger] files[i]),
    ensures
        needed_targets(all, root, files) == Seq::<Seq<char>>::empty(),
    decreases files.len(),
{
    if files.len() > 0 {
        assert(forall|i: int|
            0 <= i < files.skip(1).len() ==> files.skip(1)[i] == files[i + 1]);
        lemma_none_needed(all, root, files.skip(1));
    }
}

/// What one `ensure_thumbnail` call did.
pub enum ThumbOutcome {
    /// The thumbnail was derived; these are its bytes, for the caller to
    /// store at the thumbnail path.
    Created(Vec<u8>),
    /// The thumbnail already existed: a cache hit, no codec work done.
    AlreadyPresent,
}

/// Ensure one image's thumbnail: when the thumbnail path already exists the
/// call is a cache hit and returns at once, without touching the source
/// image — the source bytes need not even be supplied. Otherwise the source
/// is decoded, scaled within the bounds preserving its aspect ratio, and
/// encoded; the caller stores the bytes at the thumbnail path. On a miss,
/// success and the produced bytes are exactly those of the thumbnail
/// derivation; an undecodable source is the decode error, a failure past
/// decoding the encode error.
pub fn ensure_thumbnail(
    thumb_exists: bool,
    source: Option<&Vec<u8>>,
    max_width: u32,
    max_height: u32,
) -> (r: Result<ThumbOutcome, crate::codec::CodecError>)
    requires
        thumb_exists || source is Some,
    ensures
        thumb_exists ==> r == Result::<ThumbOutcome, crate::codec::CodecError>::Ok(
            ThumbOutcome::AlreadyPresent,
        ),
        !thumb_exists ==> ({
            let b = source->Some_0@;
            &&& ((r is Ok) == crate::codec::thumb_ok_sp(b, max_width, max_height))
            &&& (r matches Ok(o) ==> o matches ThumbOutcome::Created(v) && v@
                == crate::codec::thumb_bytes_sp(b, max_width, max_height))
            &&& (r matches Err(e) ==> ((e is Decode) == !crate::codec::webp_decode_ok(b)))
        }),
{
    if thumb_exists {
        Ok(ThumbOutcome::AlreadyPresent)
    } else {
        match source {
            Some(bytes) => match crate::codec::thumbnail_from_bytes(
                bytes,
                max_width,
                max_height,
            ) {
                Ok(v) => Ok(ThumbOutcome::Created(v)),
                Err(e) => Err(e),
            },
            None => {
                proof {
                    assert(false);
                }
                Err(crate::codec::CodecError::Decode)
            },
        }
    }
}

/// Idempotence of thumbnailing: after a pass in which every planned
/// thumbnail was created, the state holds each image's thumbnail, so a
/// repeated pass over that state plans nothing — the repeated call is a
/// cache hit for every image and performs no decode or encode work.
pub proof fn lemma_thumbnail_idempotent(files: Seq<Seq<char>>, root: Seq<char>)
    ensures
        ({
            let made = needed_targets(files, root, files);
            needed_targets(files + made, root, files + made) == Seq::<Seq<char>>::empty()
        }),
{
    let made = needed_targets(files, root, files);
    let all2 = files + made;
    assert forall|i: int| 0 <= i < all2.len() implies !thumb_needed_sp(
        all2,
        root,
        #[trigger] all2[i],
    ) by {
        if i < files.len() {
            let p = files[i];
            if thumb_source_sp(p) {
                let t = thumb_target_sp(root, p);
                if files.contains(t) {
                    let w = choose|k: int| 0 <= k < files.len() && files[k] == t;
                    assert(all2[w] == t);
                    assert(all2.contains(t));
                } else {
                    lemma_needed_complete(files, root, files, i);
                    let w = choose|k: int| 0 <= k < made.len() && made[k] == t;
                    assert(all2[files.len() + w] == t);
                    assert(all2.contains(t));
                }
            }
        } else {
            lemma_needed_under_thumbnails(files, root, files, i - files.len());
            assert(all2[i] == made[i - files.len()]);
        }
    }
    lemma_none_needed(all2, root, all2);
}

} // verus!

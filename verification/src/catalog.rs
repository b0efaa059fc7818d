//! The in-memory catalog: built once from a completed normalize-and-
//! thumbnail pass, it partitions image paths by the name of their immediate
//! parent directory into the two fixed categories, and backs lookup by
//! category (with a reserved "all" union), lookup by file name, and uniform
//! random selection. It is read-only after construction.

use vstd::prelude::*;
use crate::paths::{
    file_name_sp,
    has_extension,
    has_extension_sp,
    parent_name,
    parent_name_sp,
    str_eq,
    under_thumbnails_sp,
};
use rand::Rng;

verus! {

broadcast use vstd::string::group_string_axioms;

/// A path belongs to category `cat` when it carries the target codec's
/// extension, its immediate parent directory is named `cat`, and it does not
/// lie inside the thumbnails subtree — the catalog's own invariant, not a
/// layout assumption.
pub open spec fn in_category_sp(p: Seq<char>, cat: Seq<char>) -> bool {
    has_extension_sp(p, "webp"@) && parent_name_sp(p) == cat && !under_thumbnails_sp(p)
}

pub open spec fn is_pc_image(p: Seq<char>) -> bool {
    in_category_sp(p, "pc"@)
}

pub open spec fn is_mp_image(p: Seq<char>) -> bool {
    in_category_sp(p, "mp"@)
}

/// A path the catalog is allowed to hold at all: a target-codec file that
/// does not lie inside the thumbnails subtree.
pub open spec fn is_catalog_image(p: Seq<char>) -> bool {
    has_extension_sp(p, "webp"@) && !under_thumbnails_sp(p)
}

/// The first category's partition of a scanned file list.
pub open spec fn pc_partition(files: Seq<Seq<char>>) -> Seq<Seq<char>> {
    files.filter(|p: Seq<char>| is_pc_image(p))
}

/// The second category's partition of a scanned file list.
pub open spec fn mp_partition(files: Seq<Seq<char>>) -> Seq<Seq<char>> {
    files.filter(|p: Seq<char>| is_mp_image(p))
}

/// Every target-codec file outside the thumbnails subtree.
pub open spec fn catalog_images(files: Seq<Seq<char>>) -> Seq<Seq<char>> {
    files.filter(|p: Seq<char>| is_catalog_image(p))
}

proof fn lemma_filter_push<A>(s: Seq<A>, pred: spec_fn(A) -> bool, x: A)
    ensures
        s.push(x).filter(pred) == (if pred(x) {
            s.filter(pred).push(x)
        } else {
            s.filter(pred)
        }),
{
    reveal(Seq::filter);
    assert(s.push(x).drop_last() =~= s);
    assert(s.push(x).last() == x);
}

/// The in-memory index mapping each fixed category to its image paths.
pub struct Catalog {
    pub pc: Vec<String>,
    pub mp: Vec<String>,
}

/// Copy a path list.
fn clone_paths(v: &Vec<String>) -> (r: Vec<String>)
    ensures
        r.deep_view() == v.deep_view(),
        r@.len() == v@.len(),
{
    let mut r: Vec<String> = Vec::new();
    let mut i: usize = 0;
    while i < v.len()
        invariant
            i <= v@.len(),
            r@.len() == i,
            forall|j: int| 0 <= j < i ==> (#[trigger] r@[j])@ == v.deep_view()[j],
        decreases v@.len() - i,
    {
        let p: &String = &v[i];
        let ghost prev = r@;
        r.push(p.clone());
        proof {
            assert forall|j: int|
                0 <= j < i + 1 implies (#[trigger] r@[j])@ == v.deep_view()[j] by {
                if j < i {
                    assert(r@[j] == prev[j]);
                } else {
                    assert(v.deep_view()[j] == v@[j]@);
                }
            }
        }
        i = i + 1;
    }
    proof {
        assert(r.deep_view() =~= v.deep_view());
    }
    r
}

/// Copy `a` followed by `b`.
fn concat_paths(a: &Vec<String>, b: &Vec<String>) -> (r: Vec<String>)
    ensures
        r.deep_view() == a.deep_view() + b.deep_view(),
{
    let mut r = clone_paths(a);
    let mut i: usize = 0;
    while i < b.len()
        invariant
            i <= b@.len(),
            r@.len() == a@.len() + i,
            forall|j: int| 0 <= j < a@.len() ==> (#[trigger] r@[j])@ == a.deep_view()[j],
            forall|j: int|
                a@.len() <= j < a@.len() + i ==> (#[trigger] r@[j])@ == b.deep_view()[
                    j - a@.len()
                ],
        decreases b@.len() - i,
    {
        let p: &String = &b[i];
        let ghost prev = r@;
        r.push(p.clone());
        proof {
            assert forall|j: int|
                0 <= j < a@.len() + i + 1 && j >= a@.len() implies (#[trigger] r@[j])@
                == b.deep_view()[j - a@.len()] by {
                if j < a@.len() + i {
                    assert(r@[j] == prev[j]);
                } else {
                    assert(b.deep_view()[j - a@.len()] == b@[j - a@.len()]@);
                }
            }
            assert forall|j: int|
                0 <= j < a@.len() implies (#[trigger] r@[j])@ == a.deep_view()[j] by {
                assert(r@[j] == prev[j]);
            }
        }
        i = i + 1;
    }
    proof {
        assert(r.deep_view() =~= a.deep_view() + b.deep_view());
    }
    r
}

/// Build the catalog from one scan of the tree: every target-codec file is
/// appended, in scan order, to the partition named by its immediate parent
/// directory; files under any other parent (the thumbnails subtree, or an
/// unknown third directory) are silently excluded from both partitions.
pub fn index_images(files: &Vec<String>) -> (c: Catalog)
    ensures
        c.pc.deep_view() == pc_partition(files.deep_view()),
        c.mp.deep_view() == mp_partition(files.deep_view()),
{
    proof {
        reveal_strlit("pc");
        reveal_strlit("mp");
    }
    let ghost fv = files.deep_view();
    let mut pc: Vec<String> = Vec::new();
    let mut mp: Vec<String> = Vec::new();
    let mut i: usize = 0;
    while i < files.len()
        invariant
            i <= files@.len(),
            fv == files.deep_view(),
            pc.deep_view() == pc_partition(fv.take(i as int)),
            mp.deep_view() == mp_partition(fv.take(i as int)),
        decreases files@.len() - i,
    {
        let p: &String = &files[i];
        let ghost prev_pc = pc.deep_view();
        let ghost prev_mp = mp.deep_view();
        let ghost prev_pcv = pc@;
        let ghost prev_mpv = mp@;
        if has_extension(p.as_str(), "webp") && !crate::paths::under_thumbnails(p.as_str()) {
            let parent = parent_name(p.as_str());
            if str_eq(parent.as_str(), "pc") {
                pc.push(p.clone());
            } else if str_eq(parent.as_str(), "mp") {
                mp.push(p.clone());
            }
        }
        proof {
            reveal_strlit("pc");
            reveal_strlit("mp");
            assert("pc"@[0] == 'p' && "mp"@[0] == 'm');
            assert(fv.take(i + 1) =~= fv.take(i as int).push(fv[i as int]));
            lemma_filter_push(fv.take(i as int), |q: Seq<char>| is_pc_image(q), fv[i as int]);
            lemma_filter_push(fv.take(i as int), |q: Seq<char>| is_mp_image(q), fv[i as int]);
            assert(fv[i as int] == files@[i as int]@);
            assert forall|j: int| 0 <= j < prev_pcv.len() implies #[trigger] prev_pc[j]
                == prev_pcv[j]@ by {}
            assert forall|j: int| 0 <= j < prev_mpv.len() implies #[trigger] prev_mp[j]
                == prev_mpv[j]@ by {}
            if is_pc_image(fv[i as int]) {
                assert(pc@ == prev_pcv.push(pc@[pc@.len() - 1]));
                assert(pc@[pc@.len() - 1]@ == fv[i as int]);
                assert(pc.deep_view() =~= prev_pc.push(fv[i as int]));
            } else {
                assert(pc@ == prev_pcv);
                assert(pc.deep_view() =~= prev_pc);
            }
            if is_mp_image(fv[i as int]) {
                assert(mp@ == prev_mpv.push(mp@[mp@.len() - 1]));
                assert(mp@[mp@.len() - 1]@ == fv[i as int]);
                assert(mp.deep_view() =~= prev_mp.push(fv[i as int]));
            } else {
                assert(mp@ == prev_mpv);
                assert(mp.deep_view() =~= prev_mp);
            }
        }
        i = i + 1;
    }
    proof {
        assert(fv.take(files@.len() as int) =~= fv);
    }
    Catalog { pc, mp }
}

/// What a category selector denotes: one partition, their union for the
/// reserved "all" selector, or nothing for an unknown name.
pub open spec fn category_view_sp(c: Catalog, cat: Seq<char>) -> Option<Seq<Seq<char>>> {
    if cat == "pc"@ {
        Some(c.pc.deep_view())
    } else if cat == "mp"@ {
        Some(c.mp.deep_view())
    } else if cat == "all"@ {
        Some(c.pc.deep_view() + c.mp.deep_view())
    } else {
        None
    }
}

/// The first path in `s` whose final segment equals `name`.
pub open spec fn first_match_sp(s: Seq<Seq<char>>, name: Seq<char>) -> Option<Seq<char>>
    decreases s.len(),
{
    if s.len() == 0 {
        None
    } else if file_name_sp(s[0]) == name {
        Some(s[0])
    } else {
        first_match_sp(s.skip(1), name)
    }
}

proof fn lemma_first_match_concat(a: Seq<Seq<char>>, b: Seq<Seq<char>>, name: Seq<char>)
    ensures
        first_match_sp(a + b, name) == (if first_match_sp(a, name) is Some {
            first_match_sp(a, name)
        } else {
            first_match_sp(b, name)
        }),
    decreases a.len(),
{
    if a.len() == 0 {
        assert(a + b =~= b);
    } else {
        lemma_first_match_concat(a.skip(1), b, name);
        assert((a + b).len() > 0);
        assert((a + b)[0] == a[0]);
        assert((a + b).skip(1) =~= a.skip(1) + b);
    }
}

/// First path in `v` whose final segment equals `name`.
fn find_by_name(v: &Vec<String>, name: &str) -> (r: Option<String>)
    ensures
        match r {
            Some(p) => first_match_sp(v.deep_view(), name@) == Some(p@),
            None => first_match_sp(v.deep_view(), name@) is None,
        },
{
    let ghost fv = v.deep_view();
    proof {
        assert(fv.skip(0) =~= fv);
    }
    let mut i: usize = 0;
    while i < v.len()
        invariant
            i <= v@.len(),
            fv == v.deep_view(),
            first_match_sp(fv, name@) == first_match_sp(fv.skip(i as int), name@),
        decreases v@.len() - i,
    {
        let p: &String = &v[i];
        let f = crate::paths::file_name(p.as_str());
        proof {
            assert(fv.skip(i as int).len() > 0);
            assert(fv.skip(i as int)[0] == fv[i as int]);
            assert(fv[i as int] == v@[i as int]@);
        }
        if str_eq(f.as_str(), name) {
            return Some(p.clone());
        }
        proof {
            assert(fv.skip(i as int).skip(1) =~= fv.skip(i + 1));
        }
        i = i + 1;
    }
    proof {
        assert(fv.skip(fv.len() as int) =~= Seq::<Seq<char>>::empty());
    }
    None
}

/// Relies on rand::Rng::gen_range (thread_rng) over the half-open range
/// below `n`: the result is always below `n`; the range is non-empty by the
/// precondition, so the call cannot panic.
#[verifier::external_body]
fn random_below(n: usize) -> (r: usize)
    requires
        n > 0,
    ensures
        r < n,
{
    let mut rng = rand::thread_rng();
    rng.gen_range(0..n)
}

impl Catalog {
    /// The paths of one category, of every category for the reserved "all"
    /// selector, or a caller-visible not-found for an unknown name.
    pub fn by_category(&self, name: &str) -> (r: Option<Vec<String>>)
        ensures
            match r {
                Some(v) => category_view_sp(*self, name@) == Some(v.deep_view()),
                None => category_view_sp(*self, name@) is None,
            },
    {
        proof {
            reveal_strlit("pc");
            reveal_strlit("mp");
            reveal_strlit("all");
        }
        if str_eq(name, "pc") {
            Some(clone_paths(&self.pc))
        } else if str_eq(name, "mp") {
            Some(clone_paths(&self.mp))
        } else if str_eq(name, "all") {
            Some(concat_paths(&self.pc, &self.mp))
        } else {
            None
        }
    }

    /// The first catalog path, scanning the first category then the second,
    /// whose final segment equals `name`; not-found when no path matches.
    /// Names are unique by construction of the content addresser, but the
    /// catalog itself does not enforce that.
    pub fn by_filename(&self, name: &str) -> (r: Option<String>)
        ensures
            match r {
                Some(p) => first_match_sp(
                    self.pc.deep_view() + self.mp.deep_view(),
                    name@,
                ) == Some(p@),
                None => first_match_sp(self.pc.deep_view() + self.mp.deep_view(), name@) is None,
            },
    {
        proof {
            lemma_first_match_concat(self.pc.deep_view(), self.mp.deep_view(), name@);
        }
        match find_by_name(&self.pc, name) {
            Some(p) => Some(p),
            None => find_by_name(&self.mp, name),
        }
    }

    /// A random path of the category (or of their union for "all"): never a
    /// path outside the selected category, and a not-found — never a panic
    /// or an out-of-range access — for an unknown category or an empty
    /// selection.
    pub fn random(&self, name: &str) -> (r: Option<String>)
        ensures
            match r {
                Some(p) => category_view_sp(*self, name@) is Some && category_view_sp(
                    *self,
                    name@,
                )->Some_0.contains(p@),
                None => category_view_sp(*self, name@) is None || category_view_sp(
                    *self,
                    name@,
                )->Some_0.len() == 0,
            },
    {
        match self.by_category(name) {
            Some(v) => {
                if v.len() == 0 {
                    None
                } else {
                    let i = random_below(v.len());
                    let p: &String = &v[i];
                    proof {
                        assert(v.deep_view()[i as int] == p@);
                    }
                    Some(p.clone())
                }
            },
            None => None,
        }
    }
}

/// The base file names of a list of paths, in order: what a listing
/// returns to the caller.
pub fn file_names(v: &Vec<String>) -> (r: Vec<String>)
    ensures
        r@.len() == v@.len(),
        forall|i: int| 0 <= i < v@.len() ==> (#[trigger] r@[i])@ == file_name_sp(v.deep_view()[i]),
{
    let mut r: Vec<String> = Vec::new();
    let mut i: usize = 0;
    while i < v.len()
        invariant
            i <= v@.len(),
            r@.len() == i,
            forall|j: int|
                0 <= j < i ==> (#[trigger] r@[j])@ == file_name_sp(v.deep_view()[j]),
        decreases v@.len() - i,
    {
        let p: &String = &v[i];
        let ghost prev = r@;
        r.push(crate::paths::file_name(p.as_str()));
        proof {
            assert forall|j: int|
                0 <= j < i + 1 implies (#[trigger] r@[j])@ == file_name_sp(
                v.deep_view()[j],
            ) by {
                if j < i {
                    assert(r@[j] == prev[j]);
                } else {
                    assert(v.deep_view()[j] == v@[j]@);
                }
            }
        }
        i = i + 1;
    }
    r
}

/// Catalog partition completeness: when every scanned file lies in one of
/// the two category subtrees or in the thumbnails subtree — the validated
/// folder layout — the union of the two category partitions holds exactly
/// the target-codec files outside the thumbnails subtree.
pub proof fn lemma_catalog_complete(files: Seq<Seq<char>>)
    requires
        forall|i: int|
            0 <= i < files.len() ==> parent_name_sp(#[trigger] files[i]) == "pc"@
                || parent_name_sp(files[i]) == "mp"@ || under_thumbnails_sp(files[i]),
    ensures
        forall|p: Seq<char>|
            (#[trigger] pc_partition(files).contains(p) || mp_partition(files).contains(p))
                <==> catalog_images(files).contains(p),
{
    assert forall|p: Seq<char>|
        (#[trigger] pc_partition(files).contains(p) || mp_partition(files).contains(p))
            <==> catalog_images(files).contains(p) by {
        if pc_partition(files).contains(p) {
            let k = choose|k: int|
                0 <= k < pc_partition(files).len() && pc_partition(files)[k] == p;
            files.lemma_filter_pred(|q: Seq<char>| is_pc_image(q), k);
            files.lemma_filter_contains_rev(|q: Seq<char>| is_pc_image(q), p);
            let w = choose|w: int| 0 <= w < files.len() && files[w] == p;
            files.lemma_filter_contains(|q: Seq<char>| is_catalog_image(q), w);
        }
        if mp_partition(files).contains(p) {
            let k = choose|k: int|
                0 <= k < mp_partition(files).len() && mp_partition(files)[k] == p;
            files.lemma_filter_pred(|q: Seq<char>| is_mp_image(q), k);
            files.lemma_filter_contains_rev(|q: Seq<char>| is_mp_image(q), p);
            let w = choose|w: int| 0 <= w < files.len() && files[w] == p;
            files.lemma_filter_contains(|q: Seq<char>| is_catalog_image(q), w);
        }
        if catalog_images(files).contains(p) {
            let k = choose|k: int|
                0 <= k < catalog_images(files).len() && catalog_images(files)[k] == p;
            files.lemma_filter_pred(|q: Seq<char>| is_catalog_image(q), k);
            files.lemma_filter_contains_rev(|q: Seq<char>| is_catalog_image(q), p);
            let w = choose|w: int| 0 <= w < files.len() && files[w] == p;
            assert(parent_name_sp(files[w]) == "pc"@ || parent_name_sp(files[w]) == "mp"@);
            if parent_name_sp(files[w]) == "pc"@ {
                files.lemma_filter_contains(|q: Seq<char>| is_pc_image(q), w);
            } else {
                files.lemma_filter_contains(|q: Seq<char>| is_mp_image(q), w);
            }
        }
    }
}

} // verus!

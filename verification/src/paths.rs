//! Path and name manipulation on plain strings: final path segment, immediate
//! parent directory, file extension, substring search, and the shared
//! predicate that excludes the thumbnails subtree from every source-image walk.

use vstd::prelude::*;

verus! {

/// Index of the last occurrence of `c` in `s`, or -1 when `c` does not occur.
pub open spec fn last_index_of(s: Seq<char>, c: char) -> int
    decreases s.len(),
{
    if s.len() == 0 {
        -1
    } else if s[s.len() - 1] == c {
        s.len() - 1
    } else {
        last_index_of(s.drop_last(), c)
    }
}

pub proof fn lemma_last_index_of(s: Seq<char>, c: char)
    ensures
        -1 <= last_index_of(s, c) < s.len(),
        last_index_of(s, c) >= 0 ==> s[last_index_of(s, c)] == c,
        forall|j: int| last_index_of(s, c) < j < s.len() ==> s[j] != c,
    decreases s.len(),
{
    if s.len() == 0 {
    } else if s[s.len() - 1] == c {
    } else {
        lemma_last_index_of(s.drop_last(), c);
        assert forall|j: int| last_index_of(s, c) < j < s.len() implies s[j] != c by {
            if j < s.len() - 1 {
                assert(s.drop_last()[j] == s[j]);
            }
        }
    }
}

pub proof fn lemma_last_index_of_unique(s: Seq<char>, c: char, k: int)
    requires
        0 <= k < s.len(),
        s[k] == c,
        forall|j: int| k < j < s.len() ==> s[j] != c,
    ensures
        last_index_of(s, c) == k,
{
    lemma_last_index_of(s, c);
    let r = last_index_of(s, c);
    if r < k {
        assert(s[k] != c);
    }
    if r > k {
        assert(s[r] != c);
    }
}

pub proof fn lemma_last_index_of_absent(s: Seq<char>, c: char)
    requires
        forall|j: int| 0 <= j < s.len() ==> s[j] != c,
    ensures
        last_index_of(s, c) == -1,
{
    lemma_last_index_of(s, c);
    let r = last_index_of(s, c);
    if r >= 0 {
        assert(s[r] != c);
    }
}

/// Index of the last occurrence of `c` in `s`, searched from the end.
pub fn rfind_char(s: &str, c: char) -> (r: Option<usize>)
    ensures
        match r {
            Some(i) => i < s@.len() && i == last_index_of(s@, c),
            None => last_index_of(s@, c) == -1,
        },
{
    let n = s.unicode_len();
    let mut i = n;
    while i > 0
        invariant
            i <= n,
            n == s@.len(),
            forall|j: int| i <= j < n ==> s@[j] != c,
        decreases i,
    {
        i = i - 1;
        if s.get_char(i) == c {
            proof {
                lemma_last_index_of_unique(s@, c, i as int);
            }
            return Some(i);
        }
    }
    proof {
        lemma_last_index_of_absent(s@, c);
    }
    None
}

/// Character-wise string equality.
pub fn str_eq(a: &str, b: &str) -> (r: bool)
    ensures
        r == (a@ == b@),
{
    let na = a.unicode_len();
    let nb = b.unicode_len();
    if na != nb {
        return false;
    }
    let mut i: usize = 0;
    while i < na
        invariant
            i <= na,
            na == a@.len(),
            nb == b@.len(),
            na == nb,
            forall|j: int| 0 <= j < i ==> a@[j] == b@[j],
        decreases na - i,
    {
        if a.get_char(i) != b.get_char(i) {
            return false;
        }
        i = i + 1;
    }
    proof {
        assert(a@ =~= b@);
    }
    true
}

/// Concatenation of two strings.
pub fn concat_strs(a: &str, b: &str) -> (r: String)
    ensures
        r@ == a@ + b@,
{
    let mut s = a.to_owned();
    s.append(b);
    s
}

/// The final path segment: everything after the last '/'.
pub open spec fn file_name_sp(p: Seq<char>) -> Seq<char> {
    p.subrange(last_index_of(p, '/') + 1, p.len() as int)
}

/// The path up to (excluding) the last '/', or empty when there is none.
pub open spec fn dir_prefix_sp(p: Seq<char>) -> Seq<char> {
    if last_index_of(p, '/') >= 0 {
        p.subrange(0, last_index_of(p, '/'))
    } else {
        Seq::empty()
    }
}

/// Name of the immediate parent directory of `p`.
pub open spec fn parent_name_sp(p: Seq<char>) -> Seq<char> {
    file_name_sp(dir_prefix_sp(p))
}

pub fn file_name(p: &str) -> (r: String)
    ensures
        r@ == file_name_sp(p@),
{
    proof {
        lemma_last_index_of(p@, '/');
    }
    let n = p.unicode_len();
    match rfind_char(p, '/') {
        Some(i) => p.substring_char(i + 1, n).to_owned(),
        None => {
            proof {
                assert(p@.subrange(0, p@.len() as int) =~= p@);
            }
            p.to_owned()
        },
    }
}

pub fn parent_name(p: &str) -> (r: String)
    ensures
        r@ == parent_name_sp(p@),
{
    proof {
        lemma_last_index_of(p@, '/');
    }
    match rfind_char(p, '/') {
        Some(i) => {
            let prefix = p.substring_char(0, i);
            file_name(prefix)
        },
        None => {
            proof {
                lemma_last_index_of(Seq::<char>::empty(), '/');
                assert(file_name_sp(Seq::<char>::empty()) =~= Seq::<char>::empty());
            }
            String::new()
        },
    }
}

/// The extension of the final path segment: the part after its last '.',
/// absent when there is no '.' or when the only '.' starts the segment.
pub open spec fn extension_sp(p: Seq<char>) -> Option<Seq<char>> {
    let f = file_name_sp(p);
    let d = last_index_of(f, '.');
    if d <= 0 {
        None
    } else {
        Some(f.subrange(d + 1, f.len() as int))
    }
}

pub open spec fn has_extension_sp(p: Seq<char>, e: Seq<char>) -> bool {
    extension_sp(p) == Some(e)
}

pub fn extension(p: &str) -> (r: Option<String>)
    ensures
        match r {
            Some(e) => extension_sp(p@) == Some(e@),
            None => extension_sp(p@) is None,
        },
{
    let f = file_name(p);
    proof {
        lemma_last_index_of(f@, '.');
    }
    let m = f.as_str().unicode_len();
    match rfind_char(f.as_str(), '.') {
        Some(d) => {
            if d > 0 {
                Some(f.as_str().substring_char(d + 1, m).to_owned())
            } else {
                None
            }
        },
        None => None,
    }
}

pub fn has_extension(p: &str, e: &str) -> (r: bool)
    ensures
        r == has_extension_sp(p@, e@),
{
    match extension(p) {
        Some(x) => str_eq(x.as_str(), e),
        None => false,
    }
}

/// `pat` occurs in `s` starting at index `i`.
pub open spec fn contains_at(s: Seq<char>, i: int, pat: Seq<char>) -> bool {
    0 <= i && i + pat.len() <= s.len() && s.subrange(i, i + pat.len()) == pat
}

/// `seg` stands as a whole '/'-separated segment of `s` at index `i`: it
/// occurs there and is bounded by a separator or an end of the string on
/// both sides.
pub open spec fn segment_at(s: Seq<char>, i: int, seg: Seq<char>) -> bool {
    &&& contains_at(s, i, seg)
    &&& (i == 0 || s[i - 1] == '/')
    &&& (i + seg.len() == s.len() || s[i + seg.len()] == '/')
}

/// Some '/'-separated segment of `s` equals `seg`.
pub open spec fn has_segment(s: Seq<char>, seg: Seq<char>) -> bool {
    exists|i: int| segment_at(s, i, seg)
}

pub fn contains_segment(s: &str, seg: &str) -> (r: bool)
    requires
        seg@.len() > 0,
    ensures
        r == has_segment(s@, seg@),
{
    let n = s.unicode_len();
    let m = seg.unicode_len();
    if m > n {
        proof {
            assert forall|j: int| !segment_at(s@, j, seg@) by {}
        }
        return false;
    }
    let mut i: usize = 0;
    while i <= n - m
        invariant
            0 < m <= n,
            i <= n - m + 1,
            n == s@.len(),
            m == seg@.len(),
            forall|j: int| 0 <= j < i ==> !segment_at(s@, j, seg@),
        decreases n - m - i + 1,
    {
        let pre_ok = i == 0 || s.get_char(i - 1) == '/';
        let post_ok = i + m == n || s.get_char(i + m) == '/';
        if pre_ok && post_ok {
            let mut k: usize = 0;
            let mut matched = true;
            while matched && k < m
                invariant
                    k <= m,
                    i + m <= n,
                    n == s@.len(),
                    m == seg@.len(),
                    matched ==> forall|l: int| 0 <= l < k ==> s@[i + l] == seg@[l],
                    !matched ==> k < m && s@[i + k] != seg@[k as int],
                decreases m - k + (if matched { 1int } else { 0int }),
            {
                if s.get_char(i + k) != seg.get_char(k) {
                    matched = false;
                } else {
                    k = k + 1;
                }
            }
            if matched {
                proof {
                    assert(s@.subrange(i as int, i + m) =~= seg@);
                    assert(segment_at(s@, i as int, seg@));
                }
                return true;
            }
            proof {
                assert forall|j: int| 0 <= j <= i implies !segment_at(s@, j, seg@) by {
                    if j == i {
                        if contains_at(s@, i as int, seg@) {
                            assert(s@.subrange(i as int, i + m)[k as int] == s@[i + k]);
                        }
                    }
                }
            }
        } else {
            proof {
                assert forall|j: int| 0 <= j <= i implies !segment_at(s@, j, seg@) by {}
            }
        }
        i = i + 1;
    }
    proof {
        assert forall|j: int| !segment_at(s@, j, seg@) by {
            if j >= i {
                assert(j + m > n);
            }
        }
    }
    false
}

/// The shared exclusion predicate: a path has a segment named like the
/// thumbnails subtree. Every walk that treats files as source images must
/// skip such paths; a file merely *named* with that word (say,
/// "pc/my_thumbnails.webp") is not excluded.
pub open spec fn under_thumbnails_sp(p: Seq<char>) -> bool {
    has_segment(p, "thumbnails"@)
}

pub fn under_thumbnails(p: &str) -> (r: bool)
    ensures
        r == under_thumbnails_sp(p@),
{
    proof {
        reveal_strlit("thumbnails");
    }
    contains_segment(p, "thumbnails")
}

/// `p` with its extension replaced by the target codec's: everything from
/// the last '.' of the final segment is replaced by ".webp", or ".webp" is
/// appended when the segment has no extension.
pub open spec fn with_webp_ext_sp(p: Seq<char>) -> Seq<char> {
    let f = file_name_sp(p);
    let d = last_index_of(f, '.');
    if d <= 0 {
        p + ".webp"@
    } else {
        p.subrange(0, p.len() - f.len() + d) + ".webp"@
    }
}

pub fn with_webp_extension(p: &str) -> (r: String)
    ensures
        r@ == with_webp_ext_sp(p@),
{
    let f = file_name(p);
    proof {
        lemma_last_index_of(f@, '.');
        lemma_last_index_of(p@, '/');
        assert(f@.len() == p@.len() - (last_index_of(p@, '/') + 1));
    }
    let n = p.unicode_len();
    let m = f.as_str().unicode_len();
    match rfind_char(f.as_str(), '.') {
        Some(d) => {
            if d > 0 {
                concat_strs(p.substring_char(0, n - m + d), ".webp")
            } else {
                concat_strs(p, ".webp")
            }
        },
        None => concat_strs(p, ".webp"),
    }
}

/// `a`, a separating '/', then `b`.
pub fn join_path(a: &str, b: &str) -> (r: String)
    ensures
        r@ == a@ + "/"@ + b@,
{
    let mut s = a.to_owned();
    s.append("/");
    s.append(b);
    s
}

} // verus!

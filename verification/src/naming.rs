//! Content-addressed naming: a target file name is derived from the original
//! file name's bytes by a fixed cryptographic digest rendered as fixed-width
//! hexadecimal, with the target codec's extension appended. The same original
//! name always collapses to the same target name, which both deduplicates
//! uploads and keys an image to its thumbnail.

use vstd::prelude::*;
use vstd::string::StringSliceAdditionalSpecFns;
use md5::Digest;

verus! {

/// The MD5 digest of a byte sequence: a function of the input alone.
pub uninterp spec fn md5_of(data: Seq<u8>) -> Seq<u8>;

/// Relies on md5::Md5::digest (the md-5 crate): MD5 is deterministic in its
/// input and produces a 128-bit (16-byte) digest.
#[verifier::external_body]
fn md5_bytes(data: &[u8]) -> (r: Vec<u8>)
    ensures
        r@ == md5_of(data@),
        r@.len() == 16,
{
    md5::Md5::digest(data).to_vec()
}

/// The hexadecimal digit for a value in 0..16, lower case.
pub open spec fn hex_digit(v: int) -> char {
    "0123456789abcdef"@[v]
}

/// The two hexadecimal digits of one byte, high nibble first.
pub open spec fn hex_pair(b: u8) -> Seq<char> {
    seq![hex_digit(b as int / 16), hex_digit(b as int % 16)]
}

/// A byte sequence rendered as hexadecimal, two digits per byte.
pub open spec fn hex_render(bytes: Seq<u8>) -> Seq<char>
    decreases bytes.len(),
{
    if bytes.len() == 0 {
        Seq::empty()
    } else {
        hex_pair(bytes[0]) + hex_render(bytes.skip(1))
    }
}

proof fn lemma_hex_render_push(s: Seq<u8>, b: u8)
    ensures
        hex_render(s.push(b)) == hex_render(s) + hex_pair(b),
    decreases s.len(),
{
    let t = s.push(b);
    assert(t.len() == s.len() + 1);
    assert(hex_render(t) == hex_pair(t[0]) + hex_render(t.skip(1)));
    if s.len() == 0 {
        assert(t[0] == b);
        assert(t.skip(1) =~= Seq::<u8>::empty());
        assert(hex_render(Seq::<u8>::empty()) == Seq::<char>::empty());
        assert(hex_pair(b) + Seq::<char>::empty() =~= hex_pair(b));
        assert(hex_render(s) == Seq::<char>::empty());
        assert(Seq::<char>::empty() + hex_pair(b) =~= hex_pair(b));
    } else {
        lemma_hex_render_push(s.skip(1), b);
        assert(t[0] == s[0]);
        assert(t.skip(1) =~= s.skip(1).push(b));
        assert(hex_render(s) == hex_pair(s[0]) + hex_render(s.skip(1)));
        assert((hex_pair(s[0]) + hex_render(s.skip(1))) + hex_pair(b) =~= hex_pair(s[0]) + (
        hex_render(s.skip(1)) + hex_pair(b)));
    }
}

pub proof fn lemma_hex_render_len(s: Seq<u8>)
    ensures
        hex_render(s).len() == 2 * s.len(),
    decreases s.len(),
{
    if s.len() > 0 {
        lemma_hex_render_len(s.skip(1));
    }
}

/// Render a byte vector as lower-case hexadecimal.
fn hex_of_bytes(bytes: &Vec<u8>) -> (r: String)
    ensures
        r@ == hex_render(bytes@),
{
    let digits = "0123456789abcdef";
    proof {
        reveal_strlit("0123456789abcdef");
    }
    let mut s = String::new();
    let mut i: usize = 0;
    while i < bytes.len()
        invariant
            i <= bytes@.len(),
            digits@ =~= "0123456789abcdef"@,
            digits@.len() == 16,
            s@ == hex_render(bytes@.take(i as int)),
        decreases bytes@.len() - i,
    {
        let b = bytes[i];
        let hi = (b / 16) as usize;
        let lo = (b % 16) as usize;
        s.append(digits.substring_char(hi, hi + 1));
        s.append(digits.substring_char(lo, lo + 1));
        proof {
            assert(digits@.subrange(hi as int, hi + 1) =~= seq![hex_digit(b as int / 16)]);
            assert(digits@.subrange(lo as int, lo + 1) =~= seq![hex_digit(b as int % 16)]);
            assert(seq![hex_digit(b as int / 16)] + seq![hex_digit(b as int % 16)] =~= hex_pair(
                b,
            ));
            lemma_hex_render_push(bytes@.take(i as int), b);
            assert(bytes@.take(i as int).push(b) =~= bytes@.take(i + 1));
        }
        i = i + 1;
    }
    proof {
        assert(bytes@.take(bytes@.len() as int) =~= bytes@);
    }
    s
}

/// The derived target name for an original file name given as bytes.
pub open spec fn derive_name_sp(name_bytes: Seq<u8>) -> Seq<char> {
    hex_render(md5_of(name_bytes)) + ".webp"@
}

/// Derive the content-addressed target file name from the original file name:
/// the MD5 digest of its bytes as 32 hexadecimal digits, then the target
/// codec's extension. Pure: it consults nothing but its argument, and is
/// total over any byte sequence.
pub fn derive_name(original: &str) -> (r: String)
    ensures
        r@ == derive_name_sp(original.spec_bytes()),
        r@.len() == 37,
{
    let digest = md5_bytes(original.as_bytes());
    let mut s = hex_of_bytes(&digest);
    s.append(".webp");
    proof {
        reveal_strlit(".webp");
        lemma_hex_render_len(digest@);
    }
    s
}

/// Determinism of content addressing: the derived name is a function of the
/// original name's bytes alone, so repeated derivations from equal bytes, in
/// this process or any other, agree.
pub proof fn lemma_derive_name_deterministic(
    n1: Seq<u8>,
    n2: Seq<u8>,
    r1: Seq<char>,
    r2: Seq<char>,
)
    requires
        n1 == n2,
        r1 == derive_name_sp(n1),
        r2 == derive_name_sp(n2),
    ensures
        r1 == r2,
{
}

} // verus!

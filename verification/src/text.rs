//! Small text utilities shared by the engine: string equality over views,
//! decoding bytes as UTF-8, and locating a pattern inside a string.

use vstd::prelude::*;
use vstd::string::StringSliceAdditionalSpecFns;
use vstd::utf8::decode_utf8;
use vstd::utf8::encode_utf8_decode_utf8;
use vstd::utf8::valid_utf8;

verus! {

/// Relies on std's `str::from_utf8`: it succeeds exactly on valid UTF-8
/// input and returns the string made of the decoded scalar values.
#[verifier::external_body]
pub fn bytes_to_str(b: &[u8]) -> (r: Option<&str>)
    ensures
        r is Some <==> valid_utf8(b@),
        r matches Some(s) ==> s@ == decode_utf8(b@),
{
    std::str::from_utf8(b).ok()
}

/// String equality, decided on the UTF-8 bytes of the two strings.
pub fn str_eq(a: &str, b: &str) -> (r: bool)
    ensures
        r == (a@ == b@),
{
    proof {
        encode_utf8_decode_utf8(a@);
        encode_utf8_decode_utf8(b@);
    }
    let ab = a.as_bytes();
    let bb = b.as_bytes();
    if ab.len() != bb.len() {
        return false;
    }
    let n = ab.len();
    let mut i: usize = 0;
    while i < n
        invariant
            n == ab@.len() == bb@.len(),
            i <= n,
            ab@ == a.spec_bytes(),
            bb@ == b.spec_bytes(),
            decode_utf8(a.spec_bytes()) == a@,
            decode_utf8(b.spec_bytes()) == b@,
            forall|k: int| 0 <= k < i ==> ab@[k] == bb@[k],
        decreases n - i,
    {
        if ab[i] != bb[i] {
            return false;
        }
        i += 1;
    }
    proof {
        assert(a.spec_bytes() =~= b.spec_bytes());
    }
    true
}

/// The pattern `p` occurs in `s` starting at character position `i`.
pub open spec fn matches_at(s: Seq<char>, p: Seq<char>, i: int) -> bool {
    0 <= i && i + p.len() <= s.len() && s.subrange(i, i + p.len() as int) == p
}

/// Character position of the first occurrence of `p` in `s` at or after
/// position `i`, if any.
pub open spec fn find_first(s: Seq<char>, p: Seq<char>, i: int) -> Option<int>
    decreases s.len() + 1 - i,
{
    if i < 0 || i + p.len() > s.len() {
        None
    } else if s.subrange(i, i + p.len() as int) == p {
        Some(i)
    } else {
        find_first(s, p, i + 1)
    }
}

/// Character position of the first occurrence of `p` in `s`, if any.
pub fn find_sub(s: &str, p: &str) -> (r: Option<usize>)
    ensures
        match r {
            Some(i) => find_first(s@, p@, 0) == Some(i as int) && matches_at(s@, p@, i as int),
            None => find_first(s@, p@, 0) is None,
        },
{
    let sn = s.unicode_len();
    let pn = p.unicode_len();
    if pn > sn {
        return None;
    }
    if pn == 0 {
        proof {
            assert(s@.subrange(0, 0) =~= p@);
        }
        return Some(0);
    }
    let mut i: usize = 0;
    while i <= sn - pn
        invariant
            sn == s@.len(),
            pn == p@.len(),
            1 <= pn <= sn,
            i <= sn - pn + 1,
            find_first(s@, p@, 0) == find_first(s@, p@, i as int),
        decreases sn + 1 - i,
    {
        let mut k: usize = 0;
        let mut hit = true;
        while k < pn
            invariant
                sn == s@.len(),
                pn == p@.len(),
                i + pn <= sn,
                k <= pn,
                hit ==> (forall|t: int| 0 <= t < k ==> s@[i + t] == p@[t]),
                !hit ==> k == pn && !matches_at(s@, p@, i as int),
            decreases pn - k,
        {
            if s.get_char(i + k) != p.get_char(k) {
                proof {
                    if matches_at(s@, p@, i as int) {
                        assert(s@.subrange(i as int, i + p@.len() as int)[k as int] == s@[i + k]);
                    }
                }
                hit = false;
                k = pn;
            } else {
                k += 1;
            }
        }
        if hit {
            proof {
                assert(s@.subrange(i as int, i + p@.len() as int) =~= p@);
            }
            return Some(i);
        }
        proof {
            assert(s@.subrange(i as int, i + p@.len() as int) != p@);
        }
        i += 1;
    }
    None
}

} // verus!

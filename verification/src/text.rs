//! Text helpers: a trusted lowercase conversion, and verified string
//! equality and substring search.

use vstd::prelude::*;

verus! {

/// What str::to_lowercase returns on a character sequence: a function of the
/// characters alone.
pub uninterp spec fn lower_of(s: Seq<char>) -> Seq<char>;

/// Relies on str::to_lowercase: the lowercase form depends on the characters
/// alone; an empty string stays empty.
#[verifier::external_body]
pub fn lowercase(s: &str) -> (r: String)
    ensures
        r@ == lower_of(s@),
        s@.len() == 0 ==> r@.len() == 0,
{
    s.to_lowercase()
}

/// Whether two string slices hold the same characters.
pub fn str_eq(a: &str, b: &str) -> (r: bool)
    ensures
        r == (a@ == b@),
{
    let ab = a.as_bytes_vec();
    let bb = b.as_bytes_vec();
    let r = ab == bb;
    proof {
        if ab@ == bb@ {
            // UTF-8 encoding is injective: decoding recovers the characters
            vstd::utf8::encode_utf8_decode_utf8(a@);
            vstd::utf8::encode_utf8_decode_utf8(b@);
            assert(a@ == b@);
        }
        if r {
            assert(ab@ =~= bb@);
        }
        if a@ == b@ {
            assert(ab@ =~= bb@);
        }
    }
    r
}

/// Whether `sub` occurs as a contiguous subsequence of `s`.
pub open spec fn contains_seq(s: Seq<char>, sub: Seq<char>) -> bool {
    exists|i: int|
        0 <= i && i + sub.len() <= s.len() && #[trigger] s.subrange(i, i + sub.len() as int) == sub
}

/// Whether `sub` occurs as a substring of `s`, by characters.
pub fn str_contains(s: &str, sub: &str) -> (r: bool)
    ensures
        r == contains_seq(s@, sub@),
{
    let n = s.unicode_len();
    let m = sub.unicode_len();
    if m > n {
        return false;
    }
    let mut i: usize = 0;
    while i <= n - m
        invariant
            n == s@.len(),
            m == sub@.len(),
            m <= n,
            i <= n,
            forall|j: int|
                0 <= j < i ==> #[trigger] s@.subrange(j, j + sub@.len() as int) != sub@,
        decreases n - i,
    {
        let mut k: usize = 0;
        let mut matched = true;
        while k < m && matched
            invariant
                n == s@.len(),
                m == sub@.len(),
                i + m <= n,
                k <= m,
                matched ==> forall|t: int| 0 <= t < k ==> s@[i + t] == #[trigger] sub@[t],
                !matched ==> s@.subrange(i as int, i + sub@.len() as int) != sub@ && m >= 1,
            decreases m - k,
        {
            let sc = s.get_char(i + k);
            let pc = sub.get_char(k);
            if sc != pc {
                proof {
                    assert(s@.subrange(i as int, i + sub@.len() as int)[k as int] == s@[i + k]);
                }
                matched = false;
            }
            k = k + 1;
        }
        if matched {
            proof {
                assert(s@.subrange(i as int, i + sub@.len() as int) =~= sub@);
            }
            return true;
        }
        i = i + 1;
    }
    proof {
        assert(forall|j: int|
            0 <= j && j + sub@.len() <= s@.len() ==> #[trigger] s@.subrange(j, j + sub@.len() as int)
                != sub@);
    }
    false
}

} // verus!

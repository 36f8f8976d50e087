//! Substring search on strings.
use vstd::prelude::*;
use vstd::string::StrSliceExecFns;

verus! {

/// `t` occurs in `s` as a run of consecutive characters.
pub open spec fn is_substring(t: Seq<char>, s: Seq<char>) -> bool {
    exists|k: int| 0 <= k && k + t.len() <= s.len() && #[trigger] s.subrange(k, k + t.len()) == t
}

/// Whether `t` occurs in `s`.
pub fn contains_str(s: &String, t: &String) -> (r: bool)
    ensures
        r == is_substring(t@, s@),
{
    let n = s.as_str().unicode_len();
    let m = t.as_str().unicode_len();
    if m > n {
        assert forall|k: int| 0 <= k && k + t@.len() <= s@.len() implies #[trigger] s@.subrange(
            k,
            k + t@.len(),
        ) != t@ by {}
        return false;
    }
    if m == 0 {
        assert(s@.subrange(0, 0int + t@.len()) =~= t@);
        return true;
    }
    let mut k: usize = 0;
    while k <= n - m
        invariant
            n == s@.len(),
            m == t@.len(),
            0 < m <= n,
            forall|kk: int| 0 <= kk < k ==> #[trigger] s@.subrange(kk, kk + m) != t@,
        decreases n - m + 1 - k,
    {
        let mut j: usize = 0;
        let mut same = true;
        while j < m && same
            invariant
                n == s@.len(),
                m == t@.len(),
                k + m <= n,
                j <= m,
                same ==> forall|jj: int| 0 <= jj < j ==> s@[k + jj] == t@[jj],
                !same ==> s@.subrange(k as int, k + m) != t@,
            decreases m - j + (if same { 1int } else { 0int }),
        {
            if s.as_str().get_char(k + j) != t.as_str().get_char(j) {
                assert(s@.subrange(k as int, k + m)[j as int] == s@[k + j]);
                same = false;
            } else {
                j = j + 1;
            }
        }
        if same {
            assert(s@.subrange(k as int, k + t@.len()) =~= t@);
            return true;
        }
        k = k + 1;
    }
    assert forall|kk: int| 0 <= kk && kk + t@.len() <= s@.len() implies #[trigger] s@.subrange(
        kk,
        kk + t@.len(),
    ) != t@ by {}
    false
}

} // verus!

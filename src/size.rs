//! The sizing pass: the exact byte length of a join, computed before any
//! buffer exists.

use vstd::prelude::*;
use vstd::string::StringSliceAdditionalSpecFns;
use crate::model::{fragment_bytes, gap_count, joined_size, lemma_total_bytes_prefix, total_bytes};

verus! {

/// Byte length of `array` joined with `sep`: the sum of the fragments'
/// lengths plus one `sep` for each of the `N - 1` gaps (none when `N == 0`).
/// A separator is counted in every gap, even between empty fragments.
pub fn concated_size<const N: usize>(array: [&str; N], sep: &str) -> (size: usize)
    requires
        joined_size(fragment_bytes(array@), sep.spec_bytes()) <= usize::MAX,
    ensures
        size == joined_size(fragment_bytes(array@), sep.spec_bytes()),
        size == total_bytes(fragment_bytes(array@)) + gap_count(N as nat) * sep.spec_bytes().len(),
{
    let ghost frags = fragment_bytes(array@);
    let gaps: usize = if N == 0 { 0 } else { N - 1 };
    assert(array@.len() == N);
    assert(gaps == gap_count(frags.len()));
    let sep_len: usize = sep.len();
    proof {
        let sl = sep.spec_bytes().len();
        if gaps > 0 {
            assert(sl <= gaps * sl) by (nonlinear_arith)
                requires
                    gaps >= 1,
            ;
            assert(sep_len == sl);
        }
        assert(gaps * sl <= joined_size(frags, sep.spec_bytes()));
    }
    assert(frags.take(0) =~= Seq::<Seq<u8>>::empty());
    let mut n: usize = if gaps == 0 { 0 } else { gaps * sep_len };
    let mut i: usize = 0;
    while i < N
        invariant
            i <= N,
            array@.len() == N,
            frags == fragment_bytes(array@),
            joined_size(frags, sep.spec_bytes()) <= usize::MAX,
            n == gap_count(frags.len()) * sep.spec_bytes().len() + total_bytes(frags.take(i as int)),
        decreases N - i,
    {
        proof {
            assert(frags.take(i + 1).drop_last() =~= frags.take(i as int));
            lemma_total_bytes_prefix(frags, i + 1, N as int);
            assert(frags.take(N as int) =~= frags);
        }
        assert(frags[i as int] == array@[i as int].spec_bytes());
        n = n + array[i].len();
        i = i + 1;
    }
    assert(frags.take(N as int) =~= frags);
    n
}

} // verus!

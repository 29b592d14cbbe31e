//! The mathematical model: fragments and separators as byte sequences, and
//! the joined result as a recursive function over them.

use vstd::prelude::*;
use vstd::string::StringSliceAdditionalSpecFns;

verus! {

/// The UTF-8 bytes of each fragment, in order.
pub open spec fn fragment_bytes(inputs: Seq<&str>) -> Seq<Seq<u8>> {
    inputs.map_values(|s: &str| s.spec_bytes())
}

/// The bytes of an optional separator; an absent one has none.
pub open spec fn separator_bytes(sep: Option<&str>) -> Seq<u8> {
    match sep {
        Some(s) => s.spec_bytes(),
        None => Seq::empty(),
    }
}

/// Sum of the lengths of all fragments.
pub open spec fn total_bytes(frags: Seq<Seq<u8>>) -> nat
    decreases frags.len(),
{
    if frags.len() == 0 {
        0
    } else {
        total_bytes(frags.drop_last()) + frags.last().len()
    }
}

/// Number of gaps between `n` consecutive fragments.
pub open spec fn gap_count(n: nat) -> nat {
    if n == 0 {
        0
    } else {
        (n - 1) as nat
    }
}

/// Byte length of the joined result: every fragment, plus one separator per gap.
pub open spec fn joined_size(frags: Seq<Seq<u8>>, sep: Seq<u8>) -> nat {
    total_bytes(frags) + gap_count(frags.len()) * sep.len()
}

/// `frags[0] + sep + frags[1] + sep + ... + frags[n - 1]`; empty when there
/// are no fragments.
pub open spec fn joined(frags: Seq<Seq<u8>>, sep: Seq<u8>) -> Seq<u8>
    decreases frags.len(),
{
    if frags.len() == 0 {
        Seq::empty()
    } else if frags.len() == 1 {
        frags[0]
    } else {
        joined(frags.drop_last(), sep) + sep + frags.last()
    }
}

/// `buf` with `src` written over it from position `offset` on.
pub open spec fn overwrite(buf: Seq<u8>, offset: int, src: Seq<u8>) -> Seq<u8> {
    Seq::new(
        buf.len(),
        |i: int|
            if offset <= i < offset + src.len() {
                src[i - offset]
            } else {
                buf[i]
            },
    )
}

/// What a fill has placed in the buffer once it has handled the first `n`
/// fragments: those fragments joined, followed by the separator that comes
/// after the last of them unless it is the final fragment.
pub open spec fn filled_prefix(frags: Seq<Seq<u8>>, sep: Seq<u8>, n: int) -> Seq<u8> {
    if 0 < n < frags.len() {
        joined(frags.take(n), sep) + sep
    } else {
        joined(frags.take(n), sep)
    }
}

/// Joining a prefix yields no more bytes than joining a longer prefix.
pub proof fn lemma_joined_prefix_len(frags: Seq<Seq<u8>>, sep: Seq<u8>, m: int, k: int)
    requires
        0 <= m <= k <= frags.len(),
    ensures
        joined(frags.take(m), sep).len() <= joined(frags.take(k), sep).len(),
        1 <= m < k ==> joined(frags.take(m), sep).len() + sep.len() <= joined(
            frags.take(k),
            sep,
        ).len(),
    decreases k - m,
{
    if m < k {
        lemma_joined_prefix_len(frags, sep, m, k - 1);
        assert(frags.take(k).drop_last() =~= frags.take(k - 1));
    }
}

/// Prefix sums grow with the prefix.
pub proof fn lemma_total_bytes_prefix(frags: Seq<Seq<u8>>, m: int, k: int)
    requires
        0 <= m <= k <= frags.len(),
    ensures
        total_bytes(frags.take(m)) <= total_bytes(frags.take(k)),
    decreases k - m,
{
    if m < k {
        lemma_total_bytes_prefix(frags, m, k - 1);
        assert(frags.take(k).drop_last() =~= frags.take(k - 1));
    }
}

} // verus!

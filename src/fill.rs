//! The fill pass: copies the fragments and separators, in order, into a
//! zeroed buffer of exactly the computed size, writing each byte once.

use vstd::prelude::*;
use vstd::string::StringSliceAdditionalSpecFns;
use vstd::utf8::{encode_utf8_valid_utf8, valid_utf8};
use crate::size::concated_size;
use crate::laws::{lemma_joined_len, lemma_joined_valid_utf8};
use crate::model::{
    filled_prefix, fragment_bytes, joined, joined_size, lemma_joined_prefix_len, overwrite,
    separator_bytes,
};

verus! {

/// Copies `src` into `dest` from position `offset` on and returns the
/// position just after it. Every byte written must still be zero: a byte is
/// never written twice.
pub fn copy_bytes(src: &[u8], dest: &mut [u8], offset: usize) -> (end: usize)
    requires
        src@.len() == 0 || offset + src@.len() <= old(dest)@.len(),
        forall|i: int| offset <= i < offset + src@.len() ==> old(dest)@[i] == 0,
    ensures
        end == offset + src@.len(),
        final(dest)@ == overwrite(old(dest)@, offset as int, src@),
{
    let mut i: usize = 0;
    let mut op: usize = offset;
    while i < src.len()
        invariant
            i <= src@.len(),
            op == offset + i,
            src@.len() == 0 || offset + src@.len() <= old(dest)@.len(),
            forall|j: int| offset <= j < offset + src@.len() ==> old(dest)@[j] == 0,
            dest@.len() == old(dest)@.len(),
            forall|j: int|
                0 <= j < dest@.len() ==> #[trigger] dest@[j] == if offset <= j < op {
                    src@[j - offset]
                } else {
                    old(dest)@[j]
                },
        decreases src@.len() - i,
    {
        // The write-once rule: this position has not been written yet.
        assert(dest@[op as int] == 0);
        dest[op] = src[i];
        op = op + 1;
        i = i + 1;
    }
    assert(dest@ =~= overwrite(old(dest)@, offset as int, src@));
    op
}

/// Joins `inputs`, with `sep` between consecutive fragments, into `output`
/// and returns the position just after the last byte written. `output` must
/// be zeroed and exactly as long as the join (see `concated_size`); it ends
/// up holding the joined bytes, filled to its last byte.
pub fn join_strings(inputs: &[&str], sep: Option<&str>, output: &mut [u8]) -> (end: usize)
    requires
        old(output)@.len() == joined_size(fragment_bytes(inputs@), separator_bytes(sep)),
        forall|i: int| 0 <= i < old(output)@.len() ==> old(output)@[i] == 0,
    ensures
        end == old(output)@.len(),
        final(output)@ == joined(fragment_bytes(inputs@), separator_bytes(sep)),
{
    let ghost frags = fragment_bytes(inputs@);
    let ghost sepb = separator_bytes(sep);
    let ghost len = output@.len();
    proof {
        lemma_joined_len(frags, sepb);
        assert(frags.take(0) =~= Seq::<Seq<u8>>::empty());
        assert(output@.subrange(0, 0) =~= Seq::<u8>::empty());
    }
    let mut n: usize = 0;
    let mut op: usize = 0;
    while n < inputs.len()
        invariant
            n <= inputs@.len(),
            frags == fragment_bytes(inputs@),
            sepb == separator_bytes(sep),
            output@.len() == len,
            len == joined(frags, sepb).len(),
            op == filled_prefix(frags, sepb, n as int).len(),
            output@.subrange(0, op as int) == filled_prefix(frags, sepb, n as int),
            forall|j: int| op <= j < len ==> output@[j] == 0,
        decreases inputs@.len() - n,
    {
        let ghost count = inputs@.len() as int;
        let ghost prefix = filled_prefix(frags, sepb, n as int);
        let bytes = inputs[n].as_bytes();
        proof {
            assert(frags.take(n + 1).drop_last() =~= frags.take(n as int));
            assert(frags.take(count) =~= frags);
            lemma_joined_prefix_len(frags, sepb, n + 1, count);
            assert(prefix + frags[n as int] =~= joined(frags.take(n + 1), sepb));
        }
        op = copy_bytes(bytes, output, op);
        assert(output@.subrange(0, op as int) =~= joined(frags.take(n + 1), sepb));
        if n + 1 < inputs.len() {
            if let Some(s) = sep {
                let ghost head = joined(frags.take(n + 1), sepb);
                proof {
                    lemma_joined_prefix_len(frags, sepb, n + 1, n + 2);
                    lemma_joined_prefix_len(frags, sepb, n + 2, count);
                }
                op = copy_bytes(s.as_bytes(), output, op);
                assert(output@.subrange(0, op as int) =~= head + sepb);
            } else {
                assert(sepb =~= Seq::<u8>::empty());
                assert(output@.subrange(0, op as int) =~= joined(frags.take(n + 1), sepb) + sepb);
            }
        }
        n = n + 1;
    }
    assert(frags.take(inputs@.len() as int) =~= frags);
    assert(output@ =~= output@.subrange(0, op as int));
    op
}

/// Joins `array` with `sep` into a new buffer of exactly the joined size: the
/// size pass, a zeroed buffer, then the fill pass. An empty `sep` means no
/// separator.
pub fn joined_array<const N: usize>(array: [&str; N], sep: &str) -> (buffer: Vec<u8>)
    requires
        joined_size(fragment_bytes(array@), sep.spec_bytes()) <= usize::MAX,
    ensures
        buffer@ == joined(fragment_bytes(array@), sep.spec_bytes()),
        valid_utf8(buffer@),
{
    let size = concated_size(array, sep);
    let separator = if !sep.is_empty() {
        Some(sep)
    } else {
        None
    };
    assert(separator_bytes(separator) =~= sep.spec_bytes());
    let mut buffer: Vec<u8> = vec![0u8; size];
    let end = join_strings(array.as_slice(), separator, buffer.as_mut_slice());
    // The fill reached the end of the buffer: every byte was written.
    assert(end == size);
    proof {
        let frags = fragment_bytes(array@);
        assert forall|i: int| 0 <= i < frags.len() implies valid_utf8(#[trigger] frags[i]) by {
            encode_utf8_valid_utf8(array@[i]@);
        }
        encode_utf8_valid_utf8(sep@);
        lemma_joined_valid_utf8(frags, sep.spec_bytes());
    }
    buffer
}

} // verus!

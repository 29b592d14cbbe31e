//! Properties of joining, stated over the model and proved.

use vstd::prelude::*;
use vstd::utf8::{valid_utf8, valid_utf8_concat};
use crate::model::{gap_count, joined, joined_size, total_bytes};

verus! {

/// The computed size is exactly the length of the joined bytes: the sum of
/// the fragments' lengths plus one separator per gap.
pub proof fn lemma_joined_len(frags: Seq<Seq<u8>>, sep: Seq<u8>)
    ensures
        joined(frags, sep).len() == joined_size(frags, sep),
    decreases frags.len(),
{
    if frags.len() == 1 {
        assert(total_bytes(frags.drop_last()) == 0);
        assert(gap_count(1) * sep.len() == 0);
    } else if frags.len() > 1 {
        lemma_joined_len(frags.drop_last(), sep);
        let k = (frags.len() - 2) as nat;
        assert(gap_count(frags.len()) == k + 1);
        assert(gap_count(frags.drop_last().len()) == k);
        assert((k + 1) * sep.len() == k * sep.len() + sep.len()) by (nonlinear_arith);
    }
}

/// No fragments: the size is zero and the join is empty, whatever the separator.
pub proof fn lemma_no_fragments(sep: Seq<u8>)
    ensures
        joined_size(Seq::empty(), sep) == 0,
        joined(Seq::empty(), sep) == Seq::<u8>::empty(),
{
}

/// One fragment: the separator is never used; size and join are those of the
/// fragment alone.
pub proof fn lemma_single_fragment(frag: Seq<u8>, sep: Seq<u8>)
    ensures
        joined_size(seq![frag], sep) == frag.len(),
        joined(seq![frag], sep) == frag,
{
    let frags = seq![frag];
    assert(frags.drop_last() =~= Seq::<Seq<u8>>::empty());
    assert(total_bytes(frags.drop_last()) == 0);
    assert(frags.last() == frag);
    assert(gap_count(frags.len()) == 0);
    assert(gap_count(frags.len()) * sep.len() == 0);
}

/// Joining two non-empty lists of fragments one after the other is joining
/// each, with one separator between the two results.
pub proof fn lemma_join_append(a: Seq<Seq<u8>>, b: Seq<Seq<u8>>, sep: Seq<u8>)
    requires
        a.len() > 0,
        b.len() > 0,
    ensures
        joined(a + b, sep) == joined(a, sep) + sep + joined(b, sep),
    decreases b.len(),
{
    if b.len() == 1 {
        assert((a + b).drop_last() =~= a);
    } else {
        lemma_join_append(a, b.drop_last(), sep);
        assert((a + b).drop_last() =~= a + b.drop_last());
        assert(joined(a + b, sep) =~= joined(a, sep) + sep + joined(b, sep));
    }
}

/// The result of a join, used as one fragment of a second join with the same
/// separator, gives what a single join over the expanded list of fragments
/// gives. (An empty inner list is excluded: as a fragment, its empty result
/// still takes a separator on each side.)
pub proof fn lemma_nested_join(
    before: Seq<Seq<u8>>,
    inner: Seq<Seq<u8>>,
    after: Seq<Seq<u8>>,
    sep: Seq<u8>,
)
    requires
        inner.len() > 0,
    ensures
        joined(before + seq![joined(inner, sep)] + after, sep) == joined(before + inner + after, sep),
{
    let x = seq![joined(inner, sep)];
    lemma_single_fragment(joined(inner, sep), sep);
    if before.len() > 0 {
        lemma_join_append(before, x, sep);
        lemma_join_append(before, inner, sep);
        if after.len() > 0 {
            lemma_join_append(before + x, after, sep);
            lemma_join_append(before + inner, after, sep);
        } else {
            assert(before + x + after =~= before + x);
            assert(before + inner + after =~= before + inner);
        }
    } else {
        assert(before + x + after =~= x + after);
        assert(before + inner + after =~= inner + after);
        if after.len() > 0 {
            lemma_join_append(x, after, sep);
            lemma_join_append(inner, after, sep);
        } else {
            assert(x + after =~= x);
            assert(inner + after =~= inner);
        }
    }
}

/// The fragments of `inner` with `sep` as a fragment of its own between each
/// two: `[f0, sep, f1, sep, ..., fn-1]`.
pub open spec fn interleaved(inner: Seq<Seq<u8>>, sep: Seq<u8>) -> Seq<Seq<u8>>
    decreases inner.len(),
{
    if inner.len() <= 1 {
        inner
    } else {
        interleaved(inner.drop_last(), sep) + seq![sep, inner.last()]
    }
}

/// With no outer separator, a join is plain concatenation: joining two lists
/// one after the other is joining each and concatenating the results.
pub proof fn lemma_concat_append(a: Seq<Seq<u8>>, b: Seq<Seq<u8>>)
    ensures
        joined(a + b, Seq::empty()) == joined(a, Seq::empty()) + joined(b, Seq::empty()),
{
    let e = Seq::<u8>::empty();
    if a.len() == 0 {
        assert(a + b =~= b);
        assert(joined(a, e) + joined(b, e) =~= joined(b, e));
    } else if b.len() == 0 {
        assert(a + b =~= a);
        assert(joined(a, e) + joined(b, e) =~= joined(a, e));
    } else {
        lemma_join_append(a, b, e);
        assert(joined(a, e) + e + joined(b, e) =~= joined(a, e) + joined(b, e));
    }
}

/// Spelling out a join as its fragments and separators, then concatenating
/// them, gives the join.
pub proof fn lemma_interleaved_concat(inner: Seq<Seq<u8>>, sep: Seq<u8>)
    ensures
        joined(interleaved(inner, sep), Seq::empty()) == joined(inner, sep),
    decreases inner.len(),
{
    let e = Seq::<u8>::empty();
    if inner.len() > 1 {
        let pair = seq![sep, inner.last()];
        lemma_interleaved_concat(inner.drop_last(), sep);
        lemma_concat_append(interleaved(inner.drop_last(), sep), pair);
        assert(pair.drop_last() =~= seq![sep]);
        lemma_single_fragment(sep, e);
        assert(joined(pair, e) =~= sep + inner.last());
        assert(joined(inner, sep) =~= joined(inner.drop_last(), sep) + (sep + inner.last()));
    }
}

/// The result of a join, used as one fragment of a second join with no
/// separator, gives what a single join without separator gives over the
/// fully expanded list, in which the inner fragments and inner separators
/// each stand as a fragment.
pub proof fn lemma_nested_join_concat(
    before: Seq<Seq<u8>>,
    inner: Seq<Seq<u8>>,
    after: Seq<Seq<u8>>,
    sep: Seq<u8>,
)
    ensures
        joined(before + seq![joined(inner, sep)] + after, Seq::empty()) == joined(
            before + interleaved(inner, sep) + after,
            Seq::empty(),
        ),
{
    let e = Seq::<u8>::empty();
    let x = seq![joined(inner, sep)];
    let spelled = interleaved(inner, sep);
    lemma_single_fragment(joined(inner, sep), e);
    lemma_interleaved_concat(inner, sep);
    lemma_concat_append(before + x, after);
    lemma_concat_append(before, x);
    lemma_concat_append(before + spelled, after);
    lemma_concat_append(before, spelled);
}

/// Joining valid UTF-8 fragments with a valid UTF-8 separator gives valid UTF-8.
pub proof fn lemma_joined_valid_utf8(frags: Seq<Seq<u8>>, sep: Seq<u8>)
    requires
        forall|i: int| 0 <= i < frags.len() ==> valid_utf8(#[trigger] frags[i]),
        valid_utf8(sep),
    ensures
        valid_utf8(joined(frags, sep)),
    decreases frags.len(),
{
    if frags.len() == 0 {
        assert(valid_utf8(Seq::<u8>::empty()));
    } else if frags.len() > 1 {
        let rest = frags.drop_last();
        assert forall|i: int| 0 <= i < rest.len() implies valid_utf8(#[trigger] rest[i]) by {
            assert(rest[i] == frags[i]);
        }
        lemma_joined_valid_utf8(rest, sep);
        valid_utf8_concat(joined(rest, sep), sep);
        valid_utf8_concat(joined(rest, sep) + sep, frags.last());
    }
}

} // verus!

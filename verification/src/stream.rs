//! Sequences of sample blocks and their concatenation: the vocabulary in
//! which the framer and the detector say that nothing is lost, repeated or
//! reordered.

use vstd::prelude::*;

verus! {

/// The blocks of `parts` joined end to end, first block first.
pub open spec fn concat(parts: Seq<Seq<i16>>) -> Seq<i16>
    decreases parts.len(),
{
    if parts.len() == 0 {
        Seq::empty()
    } else {
        concat(parts.drop_last()) + parts.last()
    }
}

/// The blocks held by a vector of vectors, each as a sequence.
pub open spec fn blocks(parts: Vec<Vec<i16>>) -> Seq<Seq<i16>> {
    Seq::new(parts@.len(), |i: int| parts@[i]@)
}

/// Joining no blocks gives nothing; joining one gives that block.
pub proof fn lemma_concat_small(block: Seq<i16>)
    ensures
        concat(Seq::<Seq<i16>>::empty()) == Seq::<i16>::empty(),
        concat(seq![block]) == block,
{
    assert(concat(Seq::<Seq<i16>>::empty()) == Seq::<i16>::empty());
    assert(seq![block].drop_last() == Seq::<Seq<i16>>::empty());
    assert(seq![block].last() == block);
    assert(concat(seq![block]) == Seq::<i16>::empty() + block);
}

/// Joining after appending a block appends that block.
pub proof fn lemma_concat_push(parts: Seq<Seq<i16>>, block: Seq<i16>)
    ensures
        concat(parts.push(block)) == concat(parts) + block,
{
    assert(parts.push(block).drop_last() == parts);
}

/// Joining distributes over appending one sequence of blocks to another.
pub proof fn lemma_concat_add(left: Seq<Seq<i16>>, right: Seq<Seq<i16>>)
    ensures
        concat(left + right) == concat(left) + concat(right),
    decreases right.len(),
{
    if right.len() == 0 {
        assert(left + right == left);
    } else {
        lemma_concat_add(left, right.drop_last());
        assert((left + right).drop_last() == left + right.drop_last());
        assert((left + right).last() == right.last());
    }
}

/// Joining a block in front puts it in front.
pub proof fn lemma_concat_front(block: Seq<i16>, parts: Seq<Seq<i16>>)
    ensures
        concat(seq![block] + parts) == block + concat(parts),
{
    lemma_concat_add(seq![block], parts);
    lemma_concat_small(block);
}

} // verus!

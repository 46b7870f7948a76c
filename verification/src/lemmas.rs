//! Lemmas that several modules share.

use crate::model::{children_values, has_children};
use vstd::prelude::*;

verus! {

/// Two sequences that are equal after parts of the same length in front of them have equal parts
/// and are equal themselves.
pub(crate) proof fn lemma_split<T>(front1: Seq<T>, back1: Seq<T>, front2: Seq<T>, back2: Seq<T>)
    requires
        front1 + back1 == front2 + back2,
        front1.len() == front2.len(),
    ensures
        front1 == front2,
        back1 == back2,
{
    let whole1 = front1 + back1;
    let whole2 = front2 + back2;
    assert(whole1.take(front1.len() as int) =~= front1);
    assert(whole2.take(front2.len() as int) =~= front2);
    assert(whole1.skip(front1.len() as int) =~= back1);
    assert(whole2.skip(front2.len() as int) =~= back2);
}

/// Concatenation can be regrouped from the back.
pub(crate) proof fn lemma_regroup(a: Seq<u8>, b: Seq<u8>, c: Seq<u8>, d: Seq<u8>, e: Seq<u8>)
    ensures
        a + b + c + d + e == a + (b + (c + (d + e))),
{
    assert(a + b + c + d + e =~= a + (b + (c + (d + e))));
}

/// Without children there are no Merkle values of children.
pub(crate) proof fn lemma_no_children_values(children: Seq<Option<Seq<u8>>>, start: int)
    requires
        0 <= start,
        !has_children(children),
    ensures
        children_values(children, start) == Seq::<u8>::empty(),
    decreases children.len() - start,
{
    if start < children.len() {
        lemma_no_children_values(children, start + 1);
    }
}

} // verus!

//! The shape of a complete hand.

use vstd::prelude::*;
use vstd::slice::slice_to_vec;

use crate::mentsu::{hands, Mentsu};

verus! {

/// The groups of a hand that are triplets, quads or sequences.
pub open spec fn bodies(d: Seq<Mentsu>) -> Seq<Mentsu> {
    d.filter(|m: Mentsu| m.kind.is_body())
}

/// The groups of a hand that are pairs.
pub open spec fn pairs(d: Seq<Mentsu>) -> Seq<Mentsu> {
    d.filter(|m: Mentsu| m.kind is Pair)
}

/// The shape of a complete hand: four bodies and one pair.
pub open spec fn is_winning(d: Seq<Mentsu>) -> bool {
    bodies(d).len() == 4 && pairs(d).len() == 1
}

/// The hands among `ds` that are complete, in their order.
pub open spec fn winning_only(ds: Seq<Seq<Mentsu>>) -> Seq<Seq<Mentsu>> {
    ds.filter(|d: Seq<Mentsu>| is_winning(d))
}

/// A complete hand has five groups.
pub proof fn lemma_winning_has_five(d: Seq<Mentsu>)
    requires
        is_winning(d),
    ensures
        d.len() == 5,
{
    lemma_bodies_and_pairs(d);
}

/// Every group is a body or a pair.
pub proof fn lemma_bodies_and_pairs(d: Seq<Mentsu>)
    ensures
        bodies(d).len() + pairs(d).len() == d.len(),
    decreases d.len(),
{
    reveal(Seq::filter);
    if d.len() > 0 {
        lemma_bodies_and_pairs(d.drop_last());
    }
}

/// Whether the hand has four bodies and one pair.
pub fn winning(hand: &[Mentsu]) -> (r: bool)
    ensures
        r == is_winning(hand@),
{
    let mut n_bodies: usize = 0;
    let mut n_pairs: usize = 0;
    let mut i: usize = 0;
    proof {
        reveal(Seq::filter);
        assert(hand@.take(0) =~= Seq::<Mentsu>::empty());
    }
    while i < hand.len()
        invariant
            i <= hand@.len(),
            n_bodies == bodies(hand@.take(i as int)).len(),
            n_pairs == pairs(hand@.take(i as int)).len(),
            n_bodies + n_pairs == i,
        decreases hand.len() - i,
    {
        proof {
            reveal(Seq::filter);
            assert(hand@.take(i + 1).drop_last() =~= hand@.take(i as int));
        }
        if hand[i].pair() {
            n_pairs += 1;
        } else {
            n_bodies += 1;
        }
        i += 1;
    }
    assert(hand@.take(hand@.len() as int) == hand@);
    n_bodies == 4 && n_pairs == 1
}

/// Keeps only winning hands, in their order.
pub fn keep_winning(basic: &[Vec<Mentsu>]) -> (kept: Vec<Vec<Mentsu>>)
    ensures
        hands(kept@) == winning_only(hands(basic@)),
        forall|j: int|
            0 <= j < kept@.len() ==> bodies((#[trigger] kept@[j])@).len() == 4 && pairs(
                kept@[j]@,
            ).len() == 1,
{
    let mut kept: Vec<Vec<Mentsu>> = Vec::new();
    let mut i: usize = 0;
    proof {
        reveal(Seq::filter);
        assert(hands(basic@).take(0) =~= Seq::<Seq<Mentsu>>::empty());
        assert(hands(kept@) =~~= winning_only(hands(basic@).take(0)));
    }
    while i < basic.len()
        invariant
            i <= basic@.len(),
            hands(kept@) == winning_only(hands(basic@).take(i as int)),
            forall|j: int| 0 <= j < kept@.len() ==> is_winning((#[trigger] kept@[j])@),
        decreases basic.len() - i,
    {
        let ghost before = kept@;
        proof {
            reveal(Seq::filter);
            assert(hands(basic@).take(i + 1).drop_last() =~= hands(basic@).take(i as int));
            assert(hands(basic@).take(i + 1).last() == basic@[i as int]@);
        }
        if winning(basic[i].as_slice()) {
            kept.push(slice_to_vec(basic[i].as_slice()));
            assert(hands(kept@) =~~= hands(before).push(basic@[i as int]@));
        }
        i += 1;
    }
    assert(hands(basic@).take(basic@.len() as int) == hands(basic@));
    kept
}

} // verus!

//! The canonical form of a hand, and lists of hands without repetitions.

use vstd::prelude::*;
use vstd::relations::{sorted_by, total_ordering};

use crate::mentsu::{hands, Mentsu};

verus! {

/// The order of groups as a relation: `a` is `b` or comes before it.
pub open spec fn group_order() -> spec_fn(Mentsu, Mentsu) -> bool {
    |a: Mentsu, b: Mentsu| a.not_after(b)
}

/// The canonical form of a hand: its groups in the order of groups.
pub open spec fn canonical(hand: Seq<Mentsu>) -> Seq<Mentsu> {
    hand.sort_by(group_order())
}

/// The canonical form of each hand of a list.
pub open spec fn canonical_each(hs: Seq<Seq<Mentsu>>) -> Seq<Seq<Mentsu>> {
    Seq::new(hs.len(), |i: int| canonical(hs[i]))
}

/// The list without repetitions: of equal hands the first stays.
pub open spec fn unique(hs: Seq<Seq<Mentsu>>) -> Seq<Seq<Mentsu>>
    decreases hs.len(),
{
    if hs.len() == 0 {
        hs
    } else if unique(hs.drop_last()).contains(hs.last()) {
        unique(hs.drop_last())
    } else {
        unique(hs.drop_last()).push(hs.last())
    }
}

/// The set of hands that a list of variants stands for: each hand in
/// canonical form, each form once.
pub open spec fn deduped(hs: Seq<Seq<Mentsu>>) -> Seq<Seq<Mentsu>> {
    unique(canonical_each(hs))
}

/// The order of groups is a total order.
pub proof fn group_order_is_total()
    ensures
        total_ordering(group_order()),
{
    let r = group_order();
    assert forall|x: Mentsu, y: Mentsu| #[trigger] r(x, y) && #[trigger] r(y, x) implies x
        == y by {
        lemma_kind_order(x.kind, y.kind, x.kind);
    }
    assert forall|x: Mentsu, y: Mentsu, z: Mentsu| #[trigger] r(x, y) && #[trigger] r(
        y,
        z,
    ) implies r(x, z) by {
        lemma_kind_order(x.kind, y.kind, z.kind);
    }
    assert forall|x: Mentsu, y: Mentsu| #[trigger] r(x, y) || #[trigger] r(y, x) by {
        lemma_kind_order(x.kind, y.kind, x.kind);
    }
}

/// The order of kinds is strict, total and transitive.
proof fn lemma_kind_order(a: crate::mentsu::Kind, b: crate::mentsu::Kind, c: crate::mentsu::Kind)
    ensures
        !a.before(a),
        a.before(b) ==> !b.before(a),
        a != b ==> a.before(b) || b.before(a),
        a.before(b) && b.before(c) ==> a.before(c),
{
}

/// The canonical form of a hand holds the groups of the hand, in order, and
/// no other sequence does.
pub proof fn lemma_canonical(hand: Seq<Mentsu>, sorted: Seq<Mentsu>)
    ensures
        sorted_by(canonical(hand), group_order()),
        canonical(hand).to_multiset() == hand.to_multiset(),
        canonical(hand).len() == hand.len(),
        sorted_by(sorted, group_order()) && sorted.to_multiset() == hand.to_multiset()
            ==> sorted == canonical(hand),
{
    group_order_is_total();
    hand.lemma_sort_by_ensures(group_order());
    hand.to_multiset_ensures();
    canonical(hand).to_multiset_ensures();
    if sorted_by(sorted, group_order()) && sorted.to_multiset() == hand.to_multiset() {
        vstd::seq_lib::lemma_sorted_unique(sorted, canonical(hand), group_order());
    }
}

/// A hand in canonical form is its own canonical form.
pub proof fn lemma_canonical_is_stable(hand: Seq<Mentsu>)
    ensures
        canonical(canonical(hand)) == canonical(hand),
{
    lemma_canonical(hand, canonical(hand));
    lemma_canonical(canonical(hand), canonical(hand));
}

/// A list without repetitions holds the hands of the list it was made from.
pub proof fn lemma_unique_holds_the_same(hs: Seq<Seq<Mentsu>>, h: Seq<Mentsu>)
    ensures
        unique(hs).contains(h) <==> hs.contains(h),
    decreases hs.len(),
{
    if hs.len() > 0 {
        let u = unique(hs.drop_last());
        let full = unique(hs);
        lemma_unique_holds_the_same(hs.drop_last(), h);
        lemma_unique_holds_the_same(hs.drop_last(), hs.last());
        if hs.contains(h) {
            let i = choose|i: int| 0 <= i < hs.len() && hs[i] == h;
            if i < hs.len() - 1 {
                assert(hs.drop_last()[i] == h);
                assert(hs.drop_last().contains(h));
                let j = choose|j: int| 0 <= j < u.len() && u[j] == h;
                assert(full[j] == h);
            } else if u.contains(h) {
                assert(full == u);
            } else {
                assert(full[u.len() as int] == h);
            }
            assert(full.contains(h));
        }
        if full.contains(h) {
            let i = choose|i: int| 0 <= i < full.len() && full[i] == h;
            if i < u.len() {
                assert(u[i] == h);
                assert(u.contains(h));
                let j = choose|j: int| 0 <= j < hs.drop_last().len() && hs.drop_last()[j] == h;
                assert(hs[j] == h);
            } else {
                assert(hs[hs.len() - 1] == h);
            }
            assert(hs.contains(h));
        }
    } else {
        assert(unique(hs) == hs);
    }
}

/// A list without repetitions has none.
pub proof fn lemma_unique_has_no_duplicates(hs: Seq<Seq<Mentsu>>)
    ensures
        unique(hs).no_duplicates(),
    decreases hs.len(),
{
    if hs.len() > 0 {
        lemma_unique_has_no_duplicates(hs.drop_last());
    }
}

/// Removing repetitions from a list that has none changes nothing.
pub proof fn lemma_unique_of_distinct(hs: Seq<Seq<Mentsu>>)
    requires
        hs.no_duplicates(),
    ensures
        unique(hs) == hs,
    decreases hs.len(),
{
    if hs.len() > 0 {
        lemma_unique_of_distinct(hs.drop_last());
        if hs.drop_last().contains(hs.last()) {
            let i = choose|i: int| 0 <= i < hs.drop_last().len() && hs.drop_last()[i] == hs.last();
            assert(hs[i] == hs[hs.len() - 1]);
        }
        assert(hs.drop_last().push(hs.last()) =~= hs);
    }
}

/// Deduplicating is idempotent: a second pass over the output of the first
/// gives that output again.
pub proof fn dedup_is_idempotent(hs: Seq<Seq<Mentsu>>)
    ensures
        deduped(deduped(hs)) == deduped(hs),
{
    let once = deduped(hs);
    assert forall|i: int| 0 <= i < once.len() implies canonical(once[i]) == once[i] by {
        assert(once.contains(once[i]));
        lemma_unique_holds_the_same(canonical_each(hs), once[i]);
        let j = choose|j: int|
            0 <= j < canonical_each(hs).len() && canonical_each(hs)[j] == once[i];
        lemma_canonical_is_stable(hs[j]);
    }
    assert(canonical_each(once) =~= once);
    lemma_unique_has_no_duplicates(canonical_each(hs));
    lemma_unique_of_distinct(once);
}

/// No hand occurs twice in a deduplicated list, and each of its hands is in
/// canonical form.
pub proof fn dedup_gives_a_set(hs: Seq<Seq<Mentsu>>)
    ensures
        deduped(hs).no_duplicates(),
        forall|i: int|
            0 <= i < deduped(hs).len() ==> sorted_by(#[trigger] deduped(hs)[i], group_order()),
        forall|h: Seq<Mentsu>| deduped(hs).contains(h) <==> canonical_each(hs).contains(h),
{
    lemma_unique_has_no_duplicates(canonical_each(hs));
    assert forall|h: Seq<Mentsu>| deduped(hs).contains(h) <==> canonical_each(hs).contains(h) by {
        lemma_unique_holds_the_same(canonical_each(hs), h);
    }
    assert forall|i: int| 0 <= i < deduped(hs).len() implies sorted_by(
        #[trigger] deduped(hs)[i],
        group_order(),
    ) by {
        let h = deduped(hs)[i];
        assert(deduped(hs).contains(h));
        let j = choose|j: int| 0 <= j < canonical_each(hs).len() && canonical_each(hs)[j] == h;
        lemma_canonical(hs[j], h);
    }
}

/// The groups of a hand in the order of groups.
pub fn sort_hand(hand: &[Mentsu]) -> (sorted: Vec<Mentsu>)
    ensures
        sorted@ == canonical(hand@),
        sorted_by(sorted@, group_order()),
        sorted@.to_multiset() == hand@.to_multiset(),
{
    let mut sorted: Vec<Mentsu> = Vec::new();
    let mut k: usize = 0;
    proof {
        group_order_is_total();
        assert(hand@.take(0) =~= sorted@);
    }
    while k < hand.len()
        invariant
            k <= hand@.len(),
            total_ordering(group_order()),
            sorted_by(sorted@, group_order()),
            sorted@.to_multiset() == hand@.take(k as int).to_multiset(),
        decreases hand.len() - k,
    {
        let m = hand[k];
        let mut p: usize = 0;
        while p < sorted.len() && !m.precedes(sorted[p])
            invariant
                p <= sorted@.len(),
                forall|j: int| 0 <= j < p ==> !m.before(#[trigger] sorted@[j]),
            decreases sorted.len() - p,
        {
            p += 1;
        }
        let ghost before = sorted@;
        sorted.insert(p, m);
        proof {
            let r = group_order();
            assert(hand@.take(k + 1) =~= hand@.take(k as int).push(m));
            vstd::seq_lib::to_multiset_build(hand@.take(k as int), m);
            vstd::seq_lib::to_multiset_insert(before, p as int, m);
            assert forall|i: int, j: int| 0 <= i < j < sorted@.len() implies #[trigger] r(
                sorted@[i],
                sorted@[j],
            ) by {
                if j == p {
                    assert(sorted@[i] == before[i]);
                    assert(r(before[i], m) || r(m, before[i]));
                } else if i == p {
                    assert(sorted@[j] == before[j - 1]);
                    assert(m.before(before[p as int]));
                    if j - 1 > p {
                        assert(r(before[p as int], before[j - 1]));
                    }
                    assert(r(m, before[p as int]) && r(before[p as int], before[j - 1]));
                } else {
                    let i0 = if i < p {
                        i
                    } else {
                        i - 1
                    };
                    let j0 = if j < p {
                        j
                    } else {
                        j - 1
                    };
                    assert(sorted@[i] == before[i0]);
                    assert(sorted@[j] == before[j0]);
                    assert(r(before[i0], before[j0]));
                }
            }
        }
        k += 1;
    }
    proof {
        assert(hand@.take(hand@.len() as int) == hand@);
        lemma_canonical(hand@, sorted@);
    }
    sorted
}

/// Whether two hands hold the same groups in the same order, annotations
/// included.
pub fn same_hand(a: &[Mentsu], b: &[Mentsu]) -> (r: bool)
    ensures
        r == (a@ == b@),
{
    if a.len() != b.len() {
        return false;
    }
    let mut i: usize = 0;
    while i < a.len()
        invariant
            i <= a@.len(),
            a@.len() == b@.len(),
            forall|j: int| 0 <= j < i ==> a@[j] == b@[j],
        decreases a.len() - i,
    {
        if !a[i].identical(b[i]) {
            return false;
        }
        i += 1;
    }
    assert(a@ =~= b@);
    true
}

/// Whether `hand` is one of `list`.
pub fn holds_hand(list: &[Vec<Mentsu>], hand: &[Mentsu]) -> (r: bool)
    ensures
        r == hands(list@).contains(hand@),
{
    let mut i: usize = 0;
    while i < list.len()
        invariant
            i <= list@.len(),
            forall|j: int| 0 <= j < i ==> hands(list@)[j] != hand@,
        decreases list.len() - i,
    {
        if same_hand(list[i].as_slice(), hand) {
            assert(hands(list@)[i as int] == hand@);
            return true;
        }
        i += 1;
    }
    false
}

/// Collapses a list of variants to a set: puts each hand into canonical
/// form and keeps each form once, in the order of first occurrence.
pub fn dedupe(variants: &[Vec<Mentsu>]) -> (set: Vec<Vec<Mentsu>>)
    ensures
        hands(set@) == deduped(hands(variants@)),
        hands(set@).no_duplicates(),
{
    let mut set: Vec<Vec<Mentsu>> = Vec::new();
    let mut k: usize = 0;
    let ghost forms = canonical_each(hands(variants@));
    assert(hands(set@) =~~= unique(forms.take(0)));
    while k < variants.len()
        invariant
            k <= variants@.len(),
            forms == canonical_each(hands(variants@)),
            hands(set@) == unique(forms.take(k as int)),
        decreases variants.len() - k,
    {
        // By sorting before inserting, hands are effectively
        // compared as unordered collections.
        let h = sort_hand(variants[k].as_slice());
        let ghost before = set@;
        proof {
            assert(forms.take(k + 1).drop_last() =~= forms.take(k as int));
            assert(forms.take(k + 1).last() == h@);
        }
        if !holds_hand(set.as_slice(), h.as_slice()) {
            set.push(h);
            assert(hands(set@) =~~= hands(before).push(h@));
        }
        k += 1;
    }
    proof {
        assert(forms.take(variants@.len() as int) == forms);
        lemma_unique_has_no_duplicates(forms);
    }
    set
}

} // verus!

//! What holds of everything that comes out of the steps from tiles to
//! interpretations, and of everything that should.

use vstd::multiset::Multiset;
use vstd::prelude::*;
use vstd::relations::sorted_by;

use super::dedup::{
    canonical, canonical_each, group_order, lemma_canonical, lemma_unique_holds_the_same,
};
use super::i13s::interpretations;
use super::split::{
    decomposition_groups_are_sound, decomposition_uses_every_tile, decompositions,
    every_split_is_found, is_group, lemma_tiles_of_remove,
};
use super::wait::{
    all_variants, completed, completes, variant_marks_one_group, variants, variants_upto, wait_on,
};
use super::winning::{bodies, is_winning, lemma_winning_has_five, pairs, winning_only};
use crate::mentsu::{tiles_of, Mentsu};
use crate::tile::{Tile, WinMethod};

verus! {

/// The group `g` is the one group of the hand that the winning tile
/// completed: it occurs once and holds the tile, it carries the wait that
/// the tile gives it and is open if and only if the tile was called, and
/// every other group is closed and carries no wait.
pub open spec fn marks(h: Seq<Mentsu>, g: Mentsu, w: Tile, method: WinMethod) -> bool {
    &&& h.to_multiset().count(g) == 1
    &&& g.has(w)
    &&& g.win_wait is Some
    &&& g.win_wait == wait_on(g.kind, w)
    &&& g.open == (method == WinMethod::Ron)
    &&& forall|j: int| 0 <= j < h.len() && #[trigger] h[j] != g ==> h[j] == Mentsu::plain(h[j].kind)
}

/// A variant of one of the hands of a list is a variant of the list.
proof fn lemma_variant_has_a_hand(hs: Seq<Seq<Mentsu>>, w: Tile, method: WinMethod, v: Seq<Mentsu>)
    requires
        all_variants(hs, w, method).contains(v),
    ensures
        exists|d: Seq<Mentsu>| #[trigger] hs.contains(d) && variants(d, w, method).contains(v),
    decreases hs.len(),
{
    if hs.len() > 0 {
        let all = all_variants(hs, w, method);
        let earlier = all_variants(hs.drop_last(), w, method);
        let i = choose|i: int| 0 <= i < all.len() && all[i] == v;
        if i < earlier.len() {
            assert(earlier[i] == v);
            lemma_variant_has_a_hand(hs.drop_last(), w, method, v);
            let d = choose|d: Seq<Mentsu>|
                #[trigger] hs.drop_last().contains(d) && variants(d, w, method).contains(v);
            let k = choose|k: int| 0 <= k < hs.drop_last().len() && hs.drop_last()[k] == d;
            assert(hs[k] == d);
            assert(hs.contains(d) && variants(d, w, method).contains(v));
        } else {
            let d = hs.last();
            assert(variants(d, w, method)[i - earlier.len()] == v);
            assert(hs[hs.len() - 1] == d);
            assert(hs.contains(d) && variants(d, w, method).contains(v));
        }
    }
}

/// Taking one group out of a hand takes it out of the groups with a
/// property, if it has the property.
proof fn lemma_filter_len_remove(s: Seq<Mentsu>, p: spec_fn(Mentsu) -> bool, k: int)
    requires
        0 <= k < s.len(),
    ensures
        s.filter(p).len() == s.remove(k).filter(p).len() + if p(s[k]) {
            1int
        } else {
            0int
        },
{
    let front = s.take(k);
    let one = seq![s[k]];
    let back = s.skip(k + 1);
    assert(s =~= front + one + back);
    assert(s.remove(k) =~= front + back);
    Seq::filter_distributes_over_add(front, one, p);
    Seq::filter_distributes_over_add(front + one, back, p);
    Seq::filter_distributes_over_add(front, back, p);
    assert(one.filter(p).len() == if p(s[k]) {
        1int
    } else {
        0int
    }) by {
        reveal(Seq::filter);
        assert(one.drop_last() =~= Seq::<Mentsu>::empty());
        assert(one.drop_last().filter(p) =~= Seq::<Mentsu>::empty());
    }
}

/// As many groups have a property in a hand as in any other order of the
/// hand.
proof fn lemma_filter_len_of_reordered(a: Seq<Mentsu>, b: Seq<Mentsu>, p: spec_fn(Mentsu) -> bool)
    requires
        a.to_multiset() == b.to_multiset(),
    ensures
        a.filter(p).len() == b.filter(p).len(),
    decreases a.len(),
{
    a.to_multiset_ensures();
    b.to_multiset_ensures();
    if a.len() == 0 {
        assert(a =~= b);
    } else {
        let x = a.last();
        assert(a.contains(x)) by {
            assert(a[a.len() - 1] == x);
        }
        assert(a.to_multiset().count(x) > 0);
        assert(b.to_multiset().count(x) > 0);
        assert(b.contains(x));
        let k = choose|k: int| 0 <= k < b.len() && b[k] == x;
        vstd::seq_lib::to_multiset_remove(a, a.len() - 1);
        vstd::seq_lib::to_multiset_remove(b, k);
        assert(a.remove(a.len() - 1) =~= a.drop_last());
        lemma_filter_len_of_reordered(a.drop_last(), b.remove(k), p);
        lemma_filter_len_remove(b, p, k);
        lemma_filter_len_remove(a, p, a.len() - 1);
    }
}

/// A hand holds the same tiles in any order of its groups.
proof fn lemma_tiles_of_reordered(a: Seq<Mentsu>, b: Seq<Mentsu>)
    requires
        a.to_multiset() == b.to_multiset(),
    ensures
        tiles_of(a).to_multiset() == tiles_of(b).to_multiset(),
    decreases a.len(),
{
    a.to_multiset_ensures();
    b.to_multiset_ensures();
    if a.len() == 0 {
        assert(a =~= b);
    } else {
        let x = a.last();
        assert(a.contains(x)) by {
            assert(a[a.len() - 1] == x);
        }
        assert(a.to_multiset().count(x) > 0);
        assert(b.to_multiset().count(x) > 0);
        assert(b.contains(x));
        let k = choose|k: int| 0 <= k < b.len() && b[k] == x;
        vstd::seq_lib::to_multiset_remove(a, a.len() - 1);
        vstd::seq_lib::to_multiset_remove(b, k);
        assert(a.remove(a.len() - 1) =~= a.drop_last());
        lemma_tiles_of_reordered(a.drop_last(), b.remove(k));
        lemma_tiles_of_remove(a, a.len() - 1);
        lemma_tiles_of_remove(b, k);
    }
}

/// A hand whose groups have the kinds of another hand, place by place, has
/// its tiles and as many bodies and pairs.
proof fn lemma_same_kinds(a: Seq<Mentsu>, b: Seq<Mentsu>)
    requires
        a.len() == b.len(),
        forall|i: int| 0 <= i < a.len() ==> (#[trigger] a[i]).kind == b[i].kind,
    ensures
        tiles_of(a) == tiles_of(b),
        bodies(a).len() == bodies(b).len(),
        pairs(a).len() == pairs(b).len(),
    decreases a.len(),
{
    reveal(Seq::filter);
    if a.len() > 0 {
        assert(a.last().kind == b.last().kind) by {
            assert(a[a.len() - 1].kind == b[a.len() - 1].kind);
        }
        assert forall|i: int| 0 <= i < a.drop_last().len() implies (#[trigger] a.drop_last()[i]).kind
            == b.drop_last()[i].kind by {
            assert(a[i].kind == b[i].kind);
        }
        lemma_same_kinds(a.drop_last(), b.drop_last());
    }
}

/// What comes out of interpreting a hand is sound. Every interpretation of a
/// hand is a complete hand of five groups, four bodies and a pair, in the
/// order of groups. Its groups are made of the tiles of the hand, each tile
/// used once. Exactly one of its groups is marked as the one that the winning
/// tile completed.
pub proof fn every_interpretation_is_a_complete_hand(
    m: Multiset<Tile>,
    w: Tile,
    method: WinMethod,
    h: Seq<Mentsu>,
)
    requires
        interpretations(m, w, method).contains(h),
    ensures
        h.len() == 5,
        is_winning(h),
        tiles_of(h).to_multiset() == m,
        sorted_by(h, group_order()),
        forall|j: int| 0 <= j < h.len() ==> is_group((#[trigger] h[j]).kind),
        exists|g: Mentsu| marks(h, g, w, method),
{
    let found = decompositions(m);
    let complete = winning_only(found);
    let marked = all_variants(complete, w, method);
    // where the interpretation comes from
    lemma_unique_holds_the_same(canonical_each(marked), h);
    let n = choose|n: int| 0 <= n < canonical_each(marked).len() && canonical_each(marked)[n] == h;
    let v = marked[n];
    assert(marked.contains(v));
    lemma_variant_has_a_hand(complete, w, method, v);
    let d = choose|d: Seq<Mentsu>|
        #[trigger] complete.contains(d) && variants(d, w, method).contains(v);
    found.lemma_filter_contains_rev(|d: Seq<Mentsu>| is_winning(d), d);
    assert(is_winning(d)) by {
        let k = choose|k: int| 0 <= k < complete.len() && complete[k] == d;
        found.lemma_filter_pred(|d: Seq<Mentsu>| is_winning(d), k);
    }
    variant_marks_one_group(d, w, method, v);
    let i = choose|i: int|
        0 <= i < d.len() && completes(#[trigger] d[i], w) && v == d.update(
            i,
            completed(d[i], w, method),
        );
    let g = v[i];
    // the decomposition, the variant and its canonical form agree
    decomposition_uses_every_tile(m, d);
    assert forall|j: int| 0 <= j < d.len() implies (#[trigger] d[j]) == Mentsu::plain(d[j].kind)
        && is_group(d[j].kind) by {
        decomposition_groups_are_sound(m, d, j);
    }
    lemma_same_kinds(v, d);
    lemma_canonical(v, h);
    lemma_tiles_of_reordered(h, v);
    lemma_filter_len_of_reordered(h, v, |m: Mentsu| m.kind.is_body());
    lemma_filter_len_of_reordered(h, v, |m: Mentsu| m.kind is Pair);
    lemma_winning_has_five(h);
    h.to_multiset_ensures();
    v.to_multiset_ensures();
    assert forall|j: int| 0 <= j < h.len() implies is_group((#[trigger] h[j]).kind) && (h[j] != g
        ==> h[j] == Mentsu::plain(h[j].kind)) by {
        assert(h.contains(h[j]));
        assert(h.to_multiset().count(h[j]) > 0);
        assert(v.to_multiset().count(h[j]) > 0);
        assert(v.contains(h[j]));
        let k = choose|k: int| 0 <= k < v.len() && v[k] == h[j];
        assert(v[k].kind == d[k].kind);
    }
    // the marked group occurs once
    assert(v.to_multiset().count(g) == 1) by {
        vstd::seq_lib::to_multiset_remove(v, i);
        v.remove(i).to_multiset_ensures();
        assert(v.contains(g)) by {
            assert(v[i] == g);
        }
        assert(v.to_multiset().count(g) > 0);
        assert(v.remove(i).to_multiset().count(g) == v.to_multiset().count(g) - 1);
        if v.remove(i).to_multiset().count(g) > 0 {
            assert(v.remove(i).contains(g));
            let k = choose|k: int| 0 <= k < v.remove(i).len() && v.remove(i)[k] == g;
            let from = if k < i {
                k
            } else {
                k + 1
            };
            assert(v.remove(i)[k] == d[from]);
        }
    }
    assert(marks(h, g, w, method));
}

/// Each group of a hand that the winning tile can have completed gives a
/// variant of the hand.
proof fn lemma_every_mark_is_a_variant(
    hand: Seq<Mentsu>,
    w: Tile,
    method: WinMethod,
    n: int,
    k: int,
)
    requires
        0 <= k < n <= hand.len(),
        completes(hand[k], w),
    ensures
        variants_upto(hand, w, method, n).contains(hand.update(k, completed(hand[k], w, method))),
    decreases n,
{
    let v = hand.update(k, completed(hand[k], w, method));
    let all = variants_upto(hand, w, method, n);
    let earlier = variants_upto(hand, w, method, n - 1);
    if k == n - 1 {
        assert(all[earlier.len() as int] == v);
    } else {
        lemma_every_mark_is_a_variant(hand, w, method, n - 1, k);
        let i = choose|i: int| 0 <= i < earlier.len() && earlier[i] == v;
        assert(all[i] == v);
    }
}

/// The variants of a hand of a list are among the variants of the list.
proof fn lemma_variants_are_listed(
    hs: Seq<Seq<Mentsu>>,
    w: Tile,
    method: WinMethod,
    d: Seq<Mentsu>,
    v: Seq<Mentsu>,
)
    requires
        hs.contains(d),
        variants(d, w, method).contains(v),
    ensures
        all_variants(hs, w, method).contains(v),
    decreases hs.len(),
{
    let all = all_variants(hs, w, method);
    let earlier = all_variants(hs.drop_last(), w, method);
    let k = choose|k: int| 0 <= k < hs.len() && hs[k] == d;
    if k == hs.len() - 1 {
        let i = choose|i: int| 0 <= i < variants(d, w, method).len() && variants(d, w, method)[i] == v;
        assert(all[earlier.len() + i] == v);
    } else {
        assert(hs.drop_last()[k] == d);
        lemma_variants_are_listed(hs.drop_last(), w, method, d, v);
        let i = choose|i: int| 0 <= i < earlier.len() && earlier[i] == v;
        assert(all[i] == v);
    }
}

/// Interpreting a hand misses nothing. Take any way of splitting its tiles
/// into four bodies and a pair, and any of these groups that holds the
/// winning tile and is no quad: the split with that group marked is one of
/// the interpretations, in its canonical form.
pub proof fn every_marked_split_is_an_interpretation(
    m: Multiset<Tile>,
    w: Tile,
    method: WinMethod,
    gs: Seq<Mentsu>,
    i: int,
)
    requires
        forall|j: int|
            0 <= j < gs.len() ==> (#[trigger] gs[j]) == Mentsu::plain(gs[j].kind) && is_group(
                gs[j].kind,
            ),
        tiles_of(gs).to_multiset() == m,
        is_winning(gs),
        0 <= i < gs.len(),
        completes(gs[i], w),
    ensures
        interpretations(m, w, method).contains(
            canonical(gs.update(i, completed(gs[i], w, method))),
        ),
{
    let found = decompositions(m);
    let complete = winning_only(found);
    let marked = all_variants(complete, w, method);
    // the search finds the split, in some order
    every_split_is_found(m, gs);
    let d = choose|d: Seq<Mentsu>|
        #[trigger] decompositions(m).contains(d) && d.to_multiset() == gs.to_multiset();
    lemma_filter_len_of_reordered(d, gs, |m: Mentsu| m.kind.is_body());
    lemma_filter_len_of_reordered(d, gs, |m: Mentsu| m.kind is Pair);
    let at = choose|at: int| 0 <= at < found.len() && found[at] == d;
    found.lemma_filter_contains(|d: Seq<Mentsu>| is_winning(d), at);
    // the group is in it, and marking it there gives a variant
    d.to_multiset_ensures();
    gs.to_multiset_ensures();
    assert(gs.contains(gs[i]));
    assert(gs.to_multiset().count(gs[i]) > 0);
    assert(d.to_multiset().count(gs[i]) > 0);
    assert(d.contains(gs[i]));
    let k = choose|k: int| 0 <= k < d.len() && d[k] == gs[i];
    let g = completed(gs[i], w, method);
    lemma_every_mark_is_a_variant(d, w, method, d.len() as int, k);
    lemma_variants_are_listed(complete, w, method, d, d.update(k, g));
    // which has the canonical form of the marked split
    vstd::seq_lib::to_multiset_update(d, k, g);
    vstd::seq_lib::to_multiset_update(gs, i, g);
    lemma_canonical(d.update(k, g), canonical(gs.update(i, g)));
    lemma_canonical(gs.update(i, g), canonical(gs.update(i, g)));
    let n = choose|n: int| 0 <= n < marked.len() && marked[n] == d.update(k, g);
    assert(canonical_each(marked)[n] == canonical(gs.update(i, g)));
    assert(canonical_each(marked).contains(canonical(gs.update(i, g))));
    lemma_unique_holds_the_same(canonical_each(marked), canonical(gs.update(i, g)));
}

} // verus!

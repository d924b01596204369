//! What the decompositions of a hand are, and what holds of them.

use vstd::multiset::Multiset;
use vstd::prelude::*;

use crate::mentsu::{tiles_of, Kind, Mentsu};
use crate::tile::Tile;

verus! {

/// `t` occurs in `m`, and no tile of `m` comes before it.
pub open spec fn is_least(m: Multiset<Tile>, t: Tile) -> bool {
    m.count(t) > 0 && forall|u: Tile| m.count(u) > 0 ==> t.not_after(u)
}

/// The first tile of `m` in tile order.
pub open spec fn least(m: Multiset<Tile>) -> Tile {
    choose|t: Tile| is_least(m, t)
}

/// The sequence that starts at `t`, where the suit has ranks and two more of
/// them above `t`.
pub open spec fn run_from(t: Tile) -> Option<Kind> {
    if !t.is_honor() && t.plus(1) is Some && t.plus(2) is Some {
        Some(Kind::Sequence(t, t.plus(1).unwrap(), t.plus(2).unwrap()))
    } else {
        None
    }
}

/// Each list of `ds`, with `prefix` in front of it.
pub open spec fn continue_each(prefix: Seq<Mentsu>, ds: Seq<Seq<Mentsu>>) -> Seq<Seq<Mentsu>> {
    Seq::new(ds.len(), |i: int| prefix + ds[i])
}

/// The decompositions of `m` that start with the group `k`: none where `m`
/// lacks a tile of `k`.
pub open spec fn through(m: Multiset<Tile>, k: Kind) -> Seq<Seq<Mentsu>>
    decreases m.len(), 0nat,
{
    if k.bag().subset_of(m) {
        proof {
            k.tiles().to_multiset_ensures();
        }
        continue_each(seq![Mentsu::plain(k)], decompositions(m.sub(k.bag())))
    } else {
        Seq::empty()
    }
}

/// Every way of splitting `m` into pairs, triplets, quads and sequences
/// that uses each tile exactly once.
///
/// The first tile left always goes into the next group. Lists that start
/// with a pair come first, then those that start with a triplet, a quad, a
/// sequence. The same groups can come up in more than one order: a pair and a
/// sequence that start at one tile are found both ways round.
pub open spec fn decompositions(m: Multiset<Tile>) -> Seq<Seq<Mentsu>>
    decreases m.len(), 1nat,
{
    if m.len() == 0 {
        seq![Seq::empty()]
    } else {
        let t = least(m);
        through(m, Kind::Pair(t)) + through(m, Kind::Triplet(t)) + through(m, Kind::Quad(t)) + (
        match run_from(t) {
            Some(k) => through(m, k),
            None => Seq::empty(),
        })
    }
}

/// No two tiles are both first.
pub proof fn lemma_least_is_unique(m: Multiset<Tile>, t: Tile)
    requires
        is_least(m, t),
    ensures
        least(m) == t,
{
    let u = least(m);
    assert(is_least(m, u));
    assert(t.not_after(u));
    assert(u.not_after(t));
}

/// The tiles of two lists of groups, one after the other.
pub proof fn lemma_tiles_of_joins(a: Seq<Mentsu>, b: Seq<Mentsu>)
    ensures
        tiles_of(a + b) == tiles_of(a) + tiles_of(b),
    decreases b.len(),
{
    if b.len() == 0 {
        assert(a + b =~= a);
        assert(tiles_of(a) + tiles_of(b) =~= tiles_of(a));
    } else {
        assert((a + b).drop_last() =~= a + b.drop_last());
        lemma_tiles_of_joins(a, b.drop_last());
        assert(tiles_of(a + b) =~= tiles_of(a) + tiles_of(b));
    }
}

/// The tiles of a single group.
proof fn lemma_tiles_of_one(g: Mentsu)
    ensures
        tiles_of(seq![g]) == g.kind.tiles(),
{
    assert(seq![g].drop_last() =~= Seq::<Mentsu>::empty());
    assert(tiles_of(seq![g].drop_last()) =~= Seq::<Tile>::empty());
    assert(tiles_of(seq![g]) =~= g.kind.tiles());
}

/// A decomposition that starts with `k` is made of the tiles of `m`.
proof fn lemma_through_uses_every_tile(m: Multiset<Tile>, k: Kind, d: Seq<Mentsu>)
    requires
        through(m, k).contains(d),
    ensures
        tiles_of(d).to_multiset() == m,
    decreases m.len(), 0nat,
{
    let rest = decompositions(m.sub(k.bag()));
    let j = choose|j: int| 0 <= j < through(m, k).len() && through(m, k)[j] == d;
    k.tiles().to_multiset_ensures();
    assert(rest.contains(rest[j]));
    decomposition_uses_every_tile(m.sub(k.bag()), rest[j]);
    let first = seq![Mentsu::plain(k)];
    lemma_tiles_of_joins(first, rest[j]);
    lemma_tiles_of_one(Mentsu::plain(k));
    vstd::seq_lib::lemma_multiset_commutative(k.tiles(), tiles_of(rest[j]));
    assert(k.bag().add(m.sub(k.bag())) =~= m);
}

/// Every decomposition is made of the tiles that went in: its groups hold
/// each tile as often as the hand holds it, and so as many tiles as the hand.
pub proof fn decomposition_uses_every_tile(m: Multiset<Tile>, d: Seq<Mentsu>)
    requires
        decompositions(m).contains(d),
    ensures
        tiles_of(d).to_multiset() == m,
        tiles_of(d).len() == m.len(),
    decreases m.len(), 1nat,
{
    if m.len() == 0 {
        assert(d == Seq::<Mentsu>::empty());
        assert(tiles_of(d).to_multiset().len() == 0) by {
            tiles_of(d).to_multiset_ensures();
        }
        vstd::multiset::lemma_multiset_empty_len(m);
        vstd::multiset::lemma_multiset_empty_len(tiles_of(d).to_multiset());
        assert(tiles_of(d).to_multiset() =~= m);
    } else {
        let t = least(m);
        let pairs = through(m, Kind::Pair(t));
        let triplets = through(m, Kind::Triplet(t));
        let quads = through(m, Kind::Quad(t));
        let all = decompositions(m);
        let j = choose|j: int| 0 <= j < all.len() && all[j] == d;
        if j < pairs.len() {
            assert(pairs[j] == d);
            lemma_through_uses_every_tile(m, Kind::Pair(t), d);
        } else if j < pairs.len() + triplets.len() {
            assert(triplets[j - pairs.len()] == d);
            lemma_through_uses_every_tile(m, Kind::Triplet(t), d);
        } else if j < pairs.len() + triplets.len() + quads.len() {
            assert(quads[j - pairs.len() - triplets.len()] == d);
            lemma_through_uses_every_tile(m, Kind::Quad(t), d);
        } else {
            let k = run_from(t).unwrap();
            assert(through(m, k)[j - pairs.len() - triplets.len() - quads.len()] == d);
            lemma_through_uses_every_tile(m, k, d);
        }
    }
    tiles_of(d).to_multiset_ensures();
}

/// A group that the search can make: a pair, a triplet or a quad of any
/// tile, or the sequence that starts at a tile.
pub open spec fn is_group(k: Kind) -> bool {
    k matches Kind::Sequence(first, _, _) ==> run_from(first) == Some(k)
}

/// The groups of a decomposition that starts with `k` are sound.
proof fn lemma_through_groups_are_sound(m: Multiset<Tile>, k: Kind, d: Seq<Mentsu>, j: int)
    requires
        through(m, k).contains(d),
        0 <= j < d.len(),
        is_group(k),
    ensures
        d[j] == Mentsu::plain(d[j].kind),
        is_group(d[j].kind),
        (forall|t: Tile| m.count(t) > 0 ==> t.well_formed()) ==> d[j].kind.well_formed(),
    decreases m.len(), 0nat,
{
    let rest = decompositions(m.sub(k.bag()));
    let i = choose|i: int| 0 <= i < through(m, k).len() && through(m, k)[i] == d;
    k.tiles().to_multiset_ensures();
    if j == 0 {
        assert(k.tiles().contains(k.tiles()[0]));
        assert(m.count(k.lead()) > 0);
    } else {
        assert(rest.contains(rest[i]));
        assert(d[j] == rest[i][j - 1]);
        decomposition_groups_are_sound(m.sub(k.bag()), rest[i], j - 1);
    }
}

/// Every group of a decomposition is closed, carries no wait, and is a pair,
/// a triplet or a quad of one tile, or three consecutive ranks of one suit
/// that is not the honor suit. If the tiles of the hand have ranks from 1 to
/// 9, so have the tiles of the group.
pub proof fn decomposition_groups_are_sound(m: Multiset<Tile>, d: Seq<Mentsu>, j: int)
    requires
        decompositions(m).contains(d),
        0 <= j < d.len(),
    ensures
        d[j] == Mentsu::plain(d[j].kind),
        is_group(d[j].kind),
        (forall|t: Tile| m.count(t) > 0 ==> t.well_formed()) ==> d[j].kind.well_formed(),
    decreases m.len(), 1nat,
{
    if m.len() != 0 {
        let t = least(m);
        let pairs = through(m, Kind::Pair(t));
        let triplets = through(m, Kind::Triplet(t));
        let quads = through(m, Kind::Quad(t));
        let all = decompositions(m);
        let i = choose|i: int| 0 <= i < all.len() && all[i] == d;
        if i < pairs.len() {
            assert(pairs[i] == d);
            lemma_through_groups_are_sound(m, Kind::Pair(t), d, j);
        } else if i < pairs.len() + triplets.len() {
            assert(triplets[i - pairs.len()] == d);
            lemma_through_groups_are_sound(m, Kind::Triplet(t), d, j);
        } else if i < pairs.len() + triplets.len() + quads.len() {
            assert(quads[i - pairs.len() - triplets.len()] == d);
            lemma_through_groups_are_sound(m, Kind::Quad(t), d, j);
        } else {
            let k = run_from(t).unwrap();
            assert(through(m, k)[i - pairs.len() - triplets.len() - quads.len()] == d);
            lemma_through_groups_are_sound(m, k, d, j);
        }
    }
}

/// No decomposition leaves a tile of the hand outside its groups, and none
/// holds a tile that the hand lacks.
pub proof fn decomposition_leaves_no_tile(m: Multiset<Tile>, d: Seq<Mentsu>)
    requires
        decompositions(m).contains(d),
    ensures
        m.sub(tiles_of(d).to_multiset()).len() == 0,
        tiles_of(d).to_multiset().subset_of(m),
{
    decomposition_uses_every_tile(m, d);
    assert(m.sub(m) =~= Multiset::<Tile>::empty());
}

/// Some tile of a hand that is not empty comes first: the one at the
/// position that is handed back.
proof fn lemma_some_tile_is_first(ts: Seq<Tile>) -> (i: int)
    requires
        ts.len() > 0,
    ensures
        0 <= i < ts.len(),
        forall|j: int| 0 <= j < ts.len() ==> ts[i].not_after(#[trigger] ts[j]),
    decreases ts.len(),
{
    if ts.len() == 1 {
        0
    } else {
        let front = ts.drop_last();
        let i = lemma_some_tile_is_first(front);
        let best = if ts.last().before(ts[i]) {
            ts.len() - 1
        } else {
            i
        };
        assert forall|j: int| 0 <= j < ts.len() implies ts[best].not_after(#[trigger] ts[j]) by {
            if j < ts.len() - 1 {
                assert(front[i].not_after(front[j]));
            }
        }
        best
    }
}

/// A tile is among the tiles of a list of groups exactly if one of the
/// groups holds it.
proof fn lemma_tiles_of_member(gs: Seq<Mentsu>, x: Tile)
    ensures
        tiles_of(gs).contains(x) <==> exists|p: int|
            0 <= p < gs.len() && (#[trigger] gs[p]).kind.tiles().contains(x),
    decreases gs.len(),
{
    if gs.len() > 0 {
        let front = gs.drop_last();
        let last = gs.last().kind.tiles();
        lemma_tiles_of_member(front, x);
        if tiles_of(gs).contains(x) {
            let i = choose|i: int| 0 <= i < tiles_of(gs).len() && tiles_of(gs)[i] == x;
            if i < tiles_of(front).len() {
                assert(tiles_of(front)[i] == x);
                let p = choose|p: int|
                    0 <= p < front.len() && (#[trigger] front[p]).kind.tiles().contains(x);
                assert(gs[p].kind.tiles().contains(x));
            } else {
                assert(last[i - tiles_of(front).len()] == x);
                assert(gs[gs.len() - 1].kind.tiles().contains(x));
            }
        }
        if exists|p: int| 0 <= p < gs.len() && (#[trigger] gs[p]).kind.tiles().contains(x) {
            let p = choose|p: int| 0 <= p < gs.len() && (#[trigger] gs[p]).kind.tiles().contains(x);
            if p < gs.len() - 1 {
                assert(front[p].kind.tiles().contains(x));
                let i = choose|i: int| 0 <= i < tiles_of(front).len() && tiles_of(front)[i] == x;
                assert(tiles_of(gs)[i] == x);
            } else {
                let i = choose|i: int| 0 <= i < last.len() && last[i] == x;
                assert(tiles_of(gs)[tiles_of(front).len() + i] == x);
            }
        }
    }
}

/// The tiles of a list of groups are the tiles of one of them and the tiles
/// of the others.
pub proof fn lemma_tiles_of_remove(gs: Seq<Mentsu>, p: int)
    requires
        0 <= p < gs.len(),
    ensures
        tiles_of(gs).to_multiset() == gs[p].kind.bag().add(tiles_of(gs.remove(p)).to_multiset()),
{
    let front = gs.take(p);
    let one = seq![gs[p]];
    let back = gs.skip(p + 1);
    assert(gs =~= front + one + back);
    assert(gs.remove(p) =~= front + back);
    lemma_tiles_of_joins(front, one);
    lemma_tiles_of_joins(front + one, back);
    lemma_tiles_of_joins(front, back);
    lemma_tiles_of_one(gs[p]);
    vstd::seq_lib::lemma_multiset_commutative(tiles_of(front), tiles_of(one));
    vstd::seq_lib::lemma_multiset_commutative(tiles_of(front) + tiles_of(one), tiles_of(back));
    vstd::seq_lib::lemma_multiset_commutative(tiles_of(front), tiles_of(back));
    assert(tiles_of(gs).to_multiset() =~= gs[p].kind.bag().add(
        tiles_of(gs.remove(p)).to_multiset(),
    ));
}

/// The search is complete: whatever way the tiles of a hand are split into
/// groups, the search finds a decomposition with exactly these groups.
pub proof fn every_split_is_found(m: Multiset<Tile>, gs: Seq<Mentsu>)
    requires
        forall|i: int|
            0 <= i < gs.len() ==> (#[trigger] gs[i]) == Mentsu::plain(gs[i].kind) && is_group(
                gs[i].kind,
            ),
        tiles_of(gs).to_multiset() == m,
    ensures
        exists|d: Seq<Mentsu>|
            #[trigger] decompositions(m).contains(d) && d.to_multiset() == gs.to_multiset(),
    decreases gs.len(),
{
    let ts = tiles_of(gs);
    ts.to_multiset_ensures();
    if gs.len() == 0 {
        let d = Seq::<Mentsu>::empty();
        assert(decompositions(m)[0] == d);
        assert(d =~= gs);
        assert(decompositions(m).contains(d) && d.to_multiset() == gs.to_multiset());
    } else {
        // the first tile of the hand
        assert(ts.len() > 0) by {
            assert(gs[gs.len() - 1].kind.tiles().len() >= 2);
        }
        let i = lemma_some_tile_is_first(ts);
        let t = ts[i];
        assert(ts.contains(t));
        assert(is_least(m, t)) by {
            assert forall|u: Tile| m.count(u) > 0 implies t.not_after(u) by {
                assert(ts.contains(u));
                let j = choose|j: int| 0 <= j < ts.len() && ts[j] == u;
                assert(ts[i].not_after(ts[j]));
            }
        }
        lemma_least_is_unique(m, t);
        // the group that holds it starts with it
        lemma_tiles_of_member(gs, t);
        let p = choose|p: int| 0 <= p < gs.len() && (#[trigger] gs[p]).kind.tiles().contains(t);
        let g = gs[p].kind;
        assert(g.lead() == t) by {
            assert(g.tiles()[0] == g.lead());
            assert(g.tiles().contains(g.lead()));
            lemma_tiles_of_member(gs, g.lead());
            assert(ts.contains(g.lead()));
            assert(m.count(g.lead()) > 0);
            assert(t.not_after(g.lead()));
        }
        // the other groups split the other tiles
        let others = gs.remove(p);
        lemma_tiles_of_remove(gs, p);
        let rest = m.sub(g.bag());
        assert(tiles_of(others).to_multiset() =~= rest);
        assert(g.bag().subset_of(m));
        every_split_is_found(rest, others);
        let tail = choose|d: Seq<Mentsu>|
            #[trigger] decompositions(rest).contains(d) && d.to_multiset()
                == others.to_multiset();
        let q = choose|q: int| 0 <= q < decompositions(rest).len() && decompositions(rest)[q] == tail;
        let d = seq![Mentsu::plain(g)] + tail;
        assert(through(m, g)[q] == d);
        // the search goes through the group
        let pairs = through(m, Kind::Pair(t));
        let triplets = through(m, Kind::Triplet(t));
        let quads = through(m, Kind::Quad(t));
        let all = decompositions(m);
        assert(m.len() > 0) by {
            if m.len() == 0 {
                vstd::multiset::lemma_multiset_empty_len(m);
            }
        }
        match g {
            Kind::Pair(_) => {
                assert(all[q] == d);
            },
            Kind::Triplet(_) => {
                assert(all[pairs.len() + q] == d);
            },
            Kind::Quad(_) => {
                assert(all[pairs.len() + triplets.len() + q] == d);
            },
            Kind::Sequence(_, _, _) => {
                assert(all[pairs.len() + triplets.len() + quads.len() + q] == d);
            },
        }
        assert(all.contains(d));
        // and the decomposition has the groups that were given
        assert(d.to_multiset() == gs.to_multiset()) by {
            vstd::seq_lib::lemma_multiset_commutative(seq![Mentsu::plain(g)], tail);
            vstd::seq_lib::to_multiset_remove(gs, p);
            gs.to_multiset_ensures();
            assert(gs.contains(gs[p]));
            assert(seq![Mentsu::plain(g)] =~= Seq::<Mentsu>::empty().push(gs[p]));
            vstd::seq_lib::to_multiset_build(Seq::<Mentsu>::empty(), gs[p]);
            Seq::<Mentsu>::empty().to_multiset_ensures();
            vstd::multiset::lemma_multiset_empty_len(Seq::<Mentsu>::empty().to_multiset());
            assert(d.to_multiset() =~= gs.to_multiset());
        }
    }
}

} // verus!

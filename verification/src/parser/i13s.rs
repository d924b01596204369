//! The search for the decompositions of a hand, and the steps from tiles to
//! scoring-ready interpretations.

use vstd::multiset::Multiset;
use vstd::prelude::*;
use vstd::slice::slice_to_vec;

use super::counts::Counts;
use super::dedup::{dedupe, deduped};
use super::outcome::every_interpretation_is_a_complete_hand;
use super::split::{
    continue_each, decomposition_uses_every_tile, decompositions, lemma_least_is_unique, run_from,
    through,
};
use super::wait::{all_variants, annotate};
use super::winning::{bodies, is_winning, keep_winning, pairs, winning_only};
use crate::mentsu::kind::lemma_bag_counts;
use crate::mentsu::{hands, tiles_of, Kind, Mentsu};
use crate::tile::{Tile, WinMethod};

verus! {

/// The tiles up to position `k` are among all the tiles.
proof fn lemma_prefix_bag(s: Seq<Tile>, k: int)
    requires
        0 <= k <= s.len(),
    ensures
        s.take(k).to_multiset().subset_of(s.to_multiset()),
{
    assert(s =~= s.take(k) + s.skip(k));
    vstd::seq_lib::lemma_multiset_commutative(s.take(k), s.skip(k));
}

/// The groups of `vec` and then `val`.
fn with(vec: &[Mentsu], val: Mentsu) -> (longer: Vec<Mentsu>)
    ensures
        longer@ == vec@.push(val),
{
    let mut longer = slice_to_vec(vec);
    longer.push(val);
    longer
}

/// The counts without `tiles`.
fn decrement(counts: &Counts, tiles: &[Tile]) -> (res: Counts)
    requires
        tiles@.to_multiset().subset_of(counts@),
    ensures
        res.drawn_from(*counts),
        res@ == counts@.sub(tiles@.to_multiset()),
{
    let mut res = counts.clone();
    let mut k: usize = 0;
    proof {
        tiles@.take(0).to_multiset_ensures();
        vstd::multiset::lemma_multiset_empty_len(tiles@.take(0).to_multiset());
    }
    assert(res@ =~= counts@.sub(tiles@.take(0).to_multiset()));
    while k < tiles.len()
        invariant
            k <= tiles@.len(),
            res.drawn_from(*counts),
            tiles@.to_multiset().subset_of(counts@),
            res@ == counts@.sub(tiles@.take(k as int).to_multiset()),
        decreases tiles.len() - k,
    {
        let t = tiles[k];
        proof {
            let done = tiles@.take(k as int).to_multiset();
            assert(tiles@.take(k + 1) =~= tiles@.take(k as int).push(t));
            vstd::seq_lib::to_multiset_build(tiles@.take(k as int), t);
            lemma_prefix_bag(tiles@, k + 1);
            assert(done.insert(t).count(t) <= counts@.count(t));
            assert(res@.remove(t) =~= counts@.sub(done.insert(t)));
        }
        res.take(t);
        k += 1;
    }
    assert(tiles@.take(tiles@.len() as int) == tiles@);
    res
}

/// Counts the tiles of a hand.
pub fn tally(as_tiles: &[Tile]) -> (counts: Counts)
    ensures
        counts@ == as_tiles@.to_multiset(),
        forall|t: Tile| counts.has_slot(t) <==> as_tiles@.contains(t),
{
    let mut counts = Counts::new();
    let mut k: usize = 0;
    proof {
        as_tiles@.take(0).to_multiset_ensures();
        vstd::multiset::lemma_multiset_empty_len(as_tiles@.take(0).to_multiset());
    }
    while k < as_tiles.len()
        invariant
            k <= as_tiles@.len(),
            counts@ == as_tiles@.take(k as int).to_multiset(),
            forall|t: Tile| counts.has_slot(t) <==> as_tiles@.take(k as int).contains(t),
        decreases as_tiles.len() - k,
    {
        let t = as_tiles[k];
        let ghost seen = as_tiles@.take(k as int);
        proof {
            seen.to_multiset_ensures();
            assert(as_tiles@.take(k + 1) =~= seen.push(t));
        }
        counts.put(t);
        proof {
            assert forall|u: Tile| counts.has_slot(u) <==> seen.push(t).contains(u) by {
                if seen.contains(u) {
                    let i = choose|i: int| 0 <= i < seen.len() && seen[i] == u;
                    assert(seen.push(t)[i] == u);
                }
                if u == t {
                    assert(seen.push(t)[seen.len() as int] == u);
                }
                if seen.push(t).contains(u) && u != t {
                    let i = choose|i: int| 0 <= i < seen.push(t).len() && seen.push(t)[i] == u;
                    assert(seen[i] == u);
                }
            }
        }
        k += 1;
    }
    assert(as_tiles@.take(as_tiles@.len() as int) == as_tiles@);
    counts
}

/// Whether the counts hold at least one `t`.
fn holds(counts: &Counts, t: Tile) -> (r: bool)
    ensures
        r == (counts@.count(t) >= 1),
{
    match counts.get(t) {
        Some(c) => c >= 1,
        None => false,
    }
}

/// Putting `prefix` in front distributes over joining two lists of hands.
proof fn lemma_continue_each_joins(prefix: Seq<Mentsu>, a: Seq<Seq<Mentsu>>, b: Seq<Seq<Mentsu>>)
    ensures
        continue_each(prefix, a + b) == continue_each(prefix, a) + continue_each(prefix, b),
{
    assert(continue_each(prefix, a + b) =~~= continue_each(prefix, a) + continue_each(prefix, b));
}

/// What one branch of the search adds to the answer.
proof fn lemma_branch(
    prefix: Seq<Mentsu>,
    m: Multiset<Tile>,
    k: Kind,
    found: Seq<Seq<Mentsu>>,
)
    requires
        k.bag().subset_of(m),
        found == continue_each(prefix.push(Mentsu::plain(k)), decompositions(m.sub(k.bag()))),
    ensures
        found == continue_each(prefix, through(m, k)),
{
    let rest = decompositions(m.sub(k.bag()));
    assert forall|i: int| 0 <= i < rest.len() implies prefix.push(Mentsu::plain(k)) + rest[i]
        == prefix + (seq![Mentsu::plain(k)] + rest[i]) by {
        assert(prefix.push(Mentsu::plain(k)) + rest[i] =~= prefix + (seq![Mentsu::plain(k)]
            + rest[i]));
    }
    assert(found =~~= continue_each(prefix, through(m, k)));
}

/// Follows one branch of the search: makes the group `kind` of the tiles
/// `tiles`, and adds to `ans` every way of grouping what is left, each behind
/// the groups made so far.
fn branch(
    counts: &Counts,
    i: usize,
    mentsu_rn: &[Mentsu],
    kind: Kind,
    tiles: &[Tile],
    ans: &mut Vec<Vec<Mentsu>>,
)
    requires
        counts.spent_before(i as int),
        tiles@ == kind.tiles(),
        kind.bag().subset_of(counts@),
    ensures
        hands(final(ans)@) == hands(old(ans)@) + continue_each(
            mentsu_rn@,
            through(counts@, kind),
        ),
    decreases counts@.len(), 0nat,
{
    proof {
        lemma_bag_counts(kind, kind.lead());
    }
    let mut found = rec_build(&decrement(counts, tiles), i, &with(mentsu_rn, Mentsu::new(kind)));
    proof {
        lemma_branch(mentsu_rn@, counts@, kind, hands(found@));
    }
    let ghost so_far = ans@;
    let ghost added = found@;
    ans.append(&mut found);
    assert(hands(ans@) =~~= hands(so_far) + hands(added));
}

/// Recursively computes possible interpretations of a hand: every way of
/// grouping the tiles that `counts` still holds, each behind the groups
/// `mentsu_rn` made so far. `i` is the cursor: no slot in front of it holds a
/// tile.
pub fn rec_build(counts: &Counts, i: usize, mentsu_rn: &[Mentsu]) -> (ans: Vec<Vec<Mentsu>>)
    requires
        counts.spent_before(i as int),
    ensures
        hands(ans@) == continue_each(mentsu_rn@, decompositions(counts@)),
    decreases counts@.len(), 1 + counts.slots().len() - i,
{
    let mut ans: Vec<Vec<Mentsu>> = Vec::new();
    let ghost m = counts@;
    let ghost prefix = mentsu_rn@;
    proof {
        use_type_invariant(counts);
    }

    // Check if we've exhausted all tiles.
    let (this, this_count) = match counts.nth(i) {
        Some(slot) => slot,
        None => {
            proof {
                counts.lemma_all_spent();
            }
            ans.push(slice_to_vec(mentsu_rn));
            assert(hands(ans@) =~~= continue_each(prefix, decompositions(m)));
            return ans;
        },
    };

    // This tile has been exhausted. Try the next one.
    if this_count == 0 {
        return rec_build(counts, i + 1, mentsu_rn);
    }
    let ghost pairs = through(m, Kind::Pair(this));
    let ghost triplets = through(m, Kind::Triplet(this));
    let ghost quads = through(m, Kind::Quad(this));
    let ghost runs = match run_from(this) {
        Some(k) => through(m, k),
        None => Seq::empty(),
    };
    proof {
        counts.lemma_cursor_leads(i as int);
        lemma_least_is_unique(m, this);
        assert forall|u: Tile|
            Kind::Pair(this).bag().count(u) <= m.count(u) <==> u != this || this_count >= 2 by {
            lemma_bag_counts(Kind::Pair(this), u);
        }
        assert forall|u: Tile|
            Kind::Triplet(this).bag().count(u) <= m.count(u) <==> u != this || this_count
                >= 3 by {
            lemma_bag_counts(Kind::Triplet(this), u);
        }
        assert forall|u: Tile|
            Kind::Quad(this).bag().count(u) <= m.count(u) <==> u != this || this_count >= 4 by {
            lemma_bag_counts(Kind::Quad(this), u);
        }
        assert(m.len() > 0) by {
            if m.len() == 0 {
                vstd::multiset::lemma_multiset_empty_len(m);
            }
        }
        lemma_continue_each_joins(prefix, pairs, triplets);
        lemma_continue_each_joins(prefix, pairs + triplets, quads);
        lemma_continue_each_joins(prefix, pairs + triplets + quads, runs);
    }

    // Pair
    if this_count >= 2 {
        branch(counts, i, mentsu_rn, Kind::Pair(this), &[this, this], &mut ans);
    }
    assert(hands(ans@) =~~= continue_each(prefix, pairs));

    // Triplet
    if this_count >= 3 {
        branch(counts, i, mentsu_rn, Kind::Triplet(this), &[this, this, this], &mut ans);
    }
    assert(hands(ans@) =~~= continue_each(prefix, pairs + triplets));

    // Quad
    if this_count >= 4 {
        branch(counts, i, mentsu_rn, Kind::Quad(this), &[this, this, this, this], &mut ans);
    }
    assert(hands(ans@) =~~= continue_each(prefix, pairs + triplets + quads));

    // Sequence
    if !this.honor() {
        if let (Some(second), Some(third)) = (this.add(1), this.add(2)) {
            let run = Kind::Sequence(this, second, third);
            proof {
                assert forall|u: Tile|
                    run.bag().count(u) <= m.count(u) <==> (u == second ==> m.count(u) >= 1) && (u
                        == third ==> m.count(u) >= 1) by {
                    lemma_bag_counts(run, u);
                }
            }
            if holds(counts, second) && holds(counts, third) {
                branch(counts, i, mentsu_rn, run, &[this, second, third], &mut ans);
            }
        }
    }
    assert(hands(ans@) =~~= continue_each(prefix, pairs + triplets + quads + runs));
    ans
}

/// Every way of splitting the tiles into pairs, triplets, quads and
/// sequences. Each split uses every tile exactly once.
pub fn build_mentsu(as_tiles: &[Tile]) -> (all: Vec<Vec<Mentsu>>)
    ensures
        hands(all@) == decompositions(as_tiles@.to_multiset()),
        forall|j: int|
            0 <= j < all@.len() ==> tiles_of((#[trigger] all@[j])@).to_multiset()
                == as_tiles@.to_multiset(),
{
    let counts = tally(as_tiles);
    let none: Vec<Mentsu> = Vec::new();
    let all = rec_build(&counts, 0, none.as_slice());
    proof {
        let found = decompositions(as_tiles@.to_multiset());
        assert(hands(all@) =~~= found) by {
            assert forall|j: int| 0 <= j < found.len() implies none@ + found[j] == found[j] by {
                assert(none@ + found[j] =~= found[j]);
            }
        }
        assert forall|j: int| 0 <= j < all@.len() implies tiles_of(
            (#[trigger] all@[j])@,
        ).to_multiset() == as_tiles@.to_multiset() by {
            assert(found[j] == all@[j]@);
            assert(found.contains(found[j]));
            decomposition_uses_every_tile(as_tiles@.to_multiset(), found[j]);
        }
    }
    all
}

/// The complete hands that the tiles can be split into: every
/// decomposition with four bodies and one pair.
pub fn decompose_and_filter(as_tiles: &[Tile]) -> (basic: Vec<Vec<Mentsu>>)
    ensures
        hands(basic@) == winning_only(decompositions(as_tiles@.to_multiset())),
        forall|j: int|
            0 <= j < basic@.len() ==> bodies((#[trigger] basic@[j])@).len() == 4 && pairs(
                basic@[j]@,
            ).len() == 1,
{
    let all = build_mentsu(as_tiles);
    // Keep only winning hands
    keep_winning(all.as_slice())
}

/// The scoring-ready hands that a list of hands gives for one winning tile:
/// every variant of every hand, each in canonical form and each once.
pub open spec fn annotated_set(hs: Seq<Seq<Mentsu>>, w: Tile, method: WinMethod) -> Seq<
    Seq<Mentsu>,
> {
    deduped(all_variants(hs, w, method))
}

/// The scoring-ready hands of a multiset of tiles won on the tile `w`.
pub open spec fn interpretations(m: Multiset<Tile>, w: Tile, method: WinMethod) -> Seq<
    Seq<Mentsu>,
> {
    annotated_set(winning_only(decompositions(m)), w, method)
}

/// Annotates each hand with the group that the winning tile completed,
/// once for every group that holds the tile, and collapses the variants to a
/// set. A hand without the winning tile gives no variant.
pub fn basic_to_open(i13s: &[Vec<Mentsu>], win_tile: Tile, win_method: WinMethod) -> (ans: Vec<
    Vec<Mentsu>,
>)
    ensures
        hands(ans@) == annotated_set(hands(i13s@), win_tile, win_method),
        hands(ans@).no_duplicates(),
{
    let mut found: Vec<Vec<Mentsu>> = Vec::new();
    let mut k: usize = 0;
    assert(hands(i13s@).take(0) =~= Seq::<Seq<Mentsu>>::empty());
    assert(hands(found@) =~~= all_variants(hands(i13s@).take(0), win_tile, win_method));
    while k < i13s.len()
        invariant
            k <= i13s@.len(),
            hands(found@) == all_variants(hands(i13s@).take(k as int), win_tile, win_method),
        decreases i13s.len() - k,
    {
        let mut more = annotate(i13s[k].as_slice(), win_tile, win_method);
        let ghost so_far = found@;
        let ghost added = more@;
        proof {
            assert(hands(i13s@).take(k + 1).drop_last() =~= hands(i13s@).take(k as int));
            assert(hands(i13s@).take(k + 1).last() == i13s@[k as int]@);
        }
        found.append(&mut more);
        assert(hands(found@) =~~= hands(so_far) + hands(added));
        k += 1;
    }
    assert(hands(i13s@).take(i13s@.len() as int) == hands(i13s@));
    dedupe(found.as_slice())
}

/// Every scoring-ready reading of a hand: its winning decompositions, each
/// annotated with the group that the winning tile completed, without
/// repetitions. An empty answer says that the hand is not complete.
pub fn build(as_tiles: &[Tile], win_tile: Tile, win_method: WinMethod) -> (i13s: Vec<Vec<Mentsu>>)
    ensures
        hands(i13s@) == interpretations(as_tiles@.to_multiset(), win_tile, win_method),
        hands(i13s@).no_duplicates(),
        forall|j: int|
            0 <= j < i13s@.len() ==> is_winning((#[trigger] i13s@[j])@) && tiles_of(
                i13s@[j]@,
            ).to_multiset() == as_tiles@.to_multiset(),
{
    let basic = decompose_and_filter(as_tiles);
    let i13s = basic_to_open(basic.as_slice(), win_tile, win_method);
    proof {
        let all = interpretations(as_tiles@.to_multiset(), win_tile, win_method);
        assert forall|j: int| 0 <= j < i13s@.len() implies is_winning((#[trigger] i13s@[j])@)
            && tiles_of(i13s@[j]@).to_multiset() == as_tiles@.to_multiset() by {
            assert(all[j] == i13s@[j]@);
            assert(all.contains(all[j]));
            every_interpretation_is_a_complete_hand(
                as_tiles@.to_multiset(),
                win_tile,
                win_method,
                all[j],
            );
        }
    }
    i13s
}

} // verus!

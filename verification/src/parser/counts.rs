//! The count table that the search for decompositions works on.

use vstd::multiset::Multiset;
use vstd::prelude::*;

use crate::tile::Tile;

verus! {

/// `n` copies of one tile.
pub open spec fn copies(t: Tile, n: nat) -> Multiset<Tile>
    decreases n,
{
    if n == 0 {
        Multiset::empty()
    } else {
        copies(t, (n - 1) as nat).insert(t)
    }
}

/// The tiles that a list of slots stands for: each slot's tile, as many
/// times as the slot says.
pub open spec fn slots_bag(s: Seq<(Tile, usize)>) -> Multiset<Tile>
    decreases s.len(),
{
    if s.len() == 0 {
        Multiset::empty()
    } else {
        slots_bag(s.drop_last()).add(copies(s.last().0, s.last().1 as nat))
    }
}

/// The slots' tiles rise strictly, so no tile has two slots.
pub open spec fn ascending(s: Seq<(Tile, usize)>) -> bool {
    forall|i: int, j: int| 0 <= i < j < s.len() ==> (#[trigger] s[i]).0.before((#[trigger] s[j]).0)
}

/// Copies of `t` hold `t` and nothing else.
proof fn lemma_copies_count(t: Tile, n: nat, u: Tile)
    ensures
        copies(t, n).count(u) == if u == t {
            n
        } else {
            0
        },
    decreases n,
{
    if n > 0 {
        lemma_copies_count(t, (n - 1) as nat, u);
    }
}

/// A tile that has no slot does not occur.
proof fn lemma_count_absent(s: Seq<(Tile, usize)>, t: Tile)
    requires
        forall|i: int| 0 <= i < s.len() ==> (#[trigger] s[i]).0 != t,
    ensures
        slots_bag(s).count(t) == 0,
    decreases s.len(),
{
    if s.len() > 0 {
        lemma_count_absent(s.drop_last(), t);
        lemma_copies_count(s.last().0, s.last().1 as nat, t);
    }
}

/// A tile occurs as often as its slot says.
proof fn lemma_count_at(s: Seq<(Tile, usize)>, i: int)
    requires
        ascending(s),
        0 <= i < s.len(),
    ensures
        slots_bag(s).count(s[i].0) == s[i].1,
    decreases s.len(),
{
    let t = s[i].0;
    lemma_copies_count(s.last().0, s.last().1 as nat, t);
    if i == s.len() - 1 {
        assert forall|j: int| 0 <= j < s.drop_last().len() implies (#[trigger] s.drop_last()[j]).0
            != t by {
            assert(s[j].0.before(s[i].0));
        }
        lemma_count_absent(s.drop_last(), t);
    } else {
        assert(s[i].0.before(s[s.len() - 1].0));
        assert(s.drop_last()[i] == s[i]);
        lemma_count_at(s.drop_last(), i);
    }
}

/// How many of each tile a hand holds, one slot per distinct tile, the slots
/// in tile order. A slot stays in place when its count falls to zero.
pub struct Counts {
    slots: Vec<(Tile, usize)>,
}

impl View for Counts {
    type V = Multiset<Tile>;

    open spec fn view(&self) -> Multiset<Tile> {
        slots_bag(self.slots())
    }
}

impl Clone for Counts {
    fn clone(&self) -> (c: Self)
        ensures
            c.slots() == self.slots(),
    {
        proof {
            use_type_invariant(self);
        }
        let mut slots: Vec<(Tile, usize)> = Vec::new();
        let mut i: usize = 0;
        while i < self.slots.len()
            invariant
                i <= self.slots@.len(),
                slots@ == self.slots@.take(i as int),
            decreases self.slots.len() - i,
        {
            slots.push(self.slots[i]);
            assert(self.slots@.take(i + 1) == self.slots@.take(i as int).push(self.slots@[i as int]));
            i += 1;
        }
        assert(self.slots@.take(self.slots@.len() as int) == self.slots@);
        Counts { slots }
    }
}

impl Counts {
    /// The slots: each distinct tile with its count.
    pub closed spec fn slots(self) -> Seq<(Tile, usize)> {
        self.slots@
    }

    /// No tile has two slots, and the slots stand in tile order.
    #[verifier::type_invariant]
    pub open spec fn well_formed(self) -> bool {
        ascending(self.slots())
    }

    /// Whether the tile has a slot.
    pub open spec fn has_slot(self, t: Tile) -> bool {
        exists|i: int| 0 <= i < self.slots().len() && (#[trigger] self.slots()[i]).0 == t
    }

    /// Every slot in front of position `i` has run out.
    pub open spec fn spent_before(self, i: int) -> bool {
        forall|j: int| 0 <= j < i && j < self.slots().len() ==> (#[trigger] self.slots()[j]).1 == 0
    }

    /// The same slots for the same tiles, none of them fuller than in `other`.
    pub open spec fn drawn_from(self, other: Counts) -> bool {
        &&& self.slots().len() == other.slots().len()
        &&& forall|j: int|
            0 <= j < self.slots().len() ==> (#[trigger] self.slots()[j]).0 == other.slots()[j].0
                && self.slots()[j].1 <= other.slots()[j].1
    }

    /// With every earlier slot spent, the tile of a slot that is not spent is
    /// the first tile left.
    pub proof fn lemma_cursor_leads(self, i: int)
        requires
            self.well_formed(),
            self.spent_before(i),
            0 <= i < self.slots().len(),
            self.slots()[i].1 > 0,
        ensures
            self@.count(self.slots()[i].0) == self.slots()[i].1,
            forall|u: Tile| self@.count(u) > 0 ==> self.slots()[i].0.not_after(u),
    {
        let s = self.slots();
        lemma_count_at(s, i);
        assert forall|u: Tile| self@.count(u) > 0 implies s[i].0.not_after(u) by {
            if exists|k: int| 0 <= k < s.len() && (#[trigger] s[k]).0 == u {
                let k = choose|k: int| 0 <= k < s.len() && (#[trigger] s[k]).0 == u;
                lemma_count_at(s, k);
                if k > i {
                    assert(s[i].0.before(s[k].0));
                }
            } else {
                lemma_count_absent(s, u);
            }
        }
    }

    /// With every slot spent, no tile is left.
    pub proof fn lemma_all_spent(self)
        requires
            self.well_formed(),
            self.spent_before(self.slots().len() as int),
        ensures
            self@ == Multiset::<Tile>::empty(),
            self@.len() == 0,
    {
        let s = self.slots();
        assert forall|u: Tile| self@.count(u) == 0 by {
            if exists|k: int| 0 <= k < s.len() && (#[trigger] s[k]).0 == u {
                let k = choose|k: int| 0 <= k < s.len() && (#[trigger] s[k]).0 == u;
                lemma_count_at(s, k);
            } else {
                lemma_count_absent(s, u);
            }
        }
        assert(self@ =~= Multiset::<Tile>::empty());
    }

    /// Counts without a slot.
    pub fn new() -> (c: Self)
        ensures
            c.slots().len() == 0,
            c@ == Multiset::<Tile>::empty(),
    {
        Counts { slots: Vec::new() }
    }

    /// The number of slots.
    pub fn len(&self) -> (n: usize)
        ensures
            n == self.slots().len(),
    {
        self.slots.len()
    }

    /// The slot at position `i` in tile order, if there are that many.
    pub fn nth(&self, i: usize) -> (slot: Option<(Tile, usize)>)
        ensures
            self.slots().len() <= usize::MAX,
            slot == if i < self.slots().len() {
                Some(self.slots()[i as int])
            } else {
                None
            },
    {
        if i < self.slots.len() {
            Some(self.slots[i])
        } else {
            None
        }
    }

    /// The count in the slot of `t`, or `None` where `t` has no slot.
    pub fn get(&self, t: Tile) -> (count: Option<usize>)
        ensures
            match count {
                Some(c) => c == self@.count(t) && exists|i: int|
                    0 <= i < self.slots().len() && #[trigger] self.slots()[i] == (t, c),
                None => self@.count(t) == 0 && forall|i: int|
                    0 <= i < self.slots().len() ==> (#[trigger] self.slots()[i]).0 != t,
            },
    {
        proof {
            use_type_invariant(self);
        }
        let mut p: usize = 0;
        while p < self.slots.len()
            invariant
                p <= self.slots@.len(),
                ascending(self.slots@),
                forall|i: int| 0 <= i < p ==> (#[trigger] self.slots@[i]).0 != t,
            decreases self.slots.len() - p,
        {
            if self.slots[p].0 == t {
                proof {
                    lemma_count_at(self.slots@, p as int);
                }
                return Some(self.slots[p].1);
            }
            p += 1;
        }
        proof {
            lemma_count_absent(self.slots@, t);
        }
        None
    }

    /// Counts one more `t`, in a new slot if `t` had none.
    pub fn put(&mut self, t: Tile)
        requires
            old(self)@.count(t) < usize::MAX,
        ensures
            final(self)@ == old(self)@.insert(t),
            forall|u: Tile| final(self).has_slot(u) <==> old(self).has_slot(u) || u == t,
    {
        proof {
            use_type_invariant(&*self);
        }
        let mut p: usize = 0;
        while p < self.slots.len() && self.slots[p].0.precedes(t)
            invariant
                p <= self.slots@.len(),
                self.slots@ == old(self).slots@,
                forall|i: int| 0 <= i < p ==> (#[trigger] self.slots@[i]).0.before(t),
            decreases self.slots.len() - p,
        {
            p += 1;
        }
        let ghost before = self.slots@;
        if p < self.slots.len() && self.slots[p].0 == t {
            let c = self.slots[p].1;
            proof {
                lemma_count_at(before, p as int);
                lemma_one_more(before, before.update(p as int, (t, (c + 1) as usize)), p as int, t);
            }
            // The slots are taken out while they change, and come back in order.
            let mut slots: Vec<(Tile, usize)> = Vec::new();
            core::mem::swap(&mut self.slots, &mut slots);
            slots.set(p, (t, c + 1));
            core::mem::swap(&mut self.slots, &mut slots);
        } else {
            proof {
                lemma_one_more(before, before.insert(p as int, (t, 1usize)), p as int, t);
            }
            let mut slots: Vec<(Tile, usize)> = Vec::new();
            core::mem::swap(&mut self.slots, &mut slots);
            slots.insert(p, (t, 1));
            core::mem::swap(&mut self.slots, &mut slots);
        }
        proof {
            let after = self.slots@;
            assert forall|u: Tile| final(self).has_slot(u) <==> old(self).has_slot(u) || u
                == t by {
                if old(self).has_slot(u) {
                    let i = choose|i: int| 0 <= i < before.len() && (#[trigger] before[i]).0 == u;
                    if after.len() == before.len() {
                        assert(after[i].0 == u);
                    } else if i < p {
                        assert(after[i].0 == u);
                    } else {
                        assert(after[i + 1].0 == u);
                    }
                }
                if u == t {
                    assert(after[p as int].0 == t);
                }
                if final(self).has_slot(u) && u != t {
                    let i = choose|i: int| 0 <= i < after.len() && (#[trigger] after[i]).0 == u;
                    if after.len() == before.len() {
                        assert(before[i].0 == u);
                    } else if i < p {
                        assert(before[i].0 == u);
                    } else {
                        assert(before[i - 1].0 == u);
                    }
                }
            }
        }
    }

    /// Counts one `t` less; the slot of `t` stays.
    pub fn take(&mut self, t: Tile)
        requires
            old(self)@.count(t) >= 1,
        ensures
            final(self)@ == old(self)@.remove(t),
            final(self).drawn_from(*old(self)),
    {
        proof {
            use_type_invariant(&*self);
        }
        let mut p: usize = 0;
        while p < self.slots.len() && !(self.slots[p].0 == t)
            invariant
                p <= self.slots@.len(),
                self.slots@ == old(self).slots@,
                forall|i: int| 0 <= i < p ==> (#[trigger] self.slots@[i]).0 != t,
            decreases self.slots.len() - p,
        {
            p += 1;
        }
        let ghost before = self.slots@;
        proof {
            if p == before.len() {
                lemma_count_absent(before, t);
            }
            lemma_count_at(before, p as int);
        }
        let c = self.slots[p].1;
        proof {
            lemma_one_less(before, before.update(p as int, (t, (c - 1) as usize)), p as int, t);
        }
        let mut slots: Vec<(Tile, usize)> = Vec::new();
        core::mem::swap(&mut self.slots, &mut slots);
        slots.set(p, (t, c - 1));
        core::mem::swap(&mut self.slots, &mut slots);
    }
}

/// After one `t` has left its slot at position `p`, the slots are in order
/// as before, and every tile occurs as often as before but `t`, which occurs
/// once less.
proof fn lemma_one_less(before: Seq<(Tile, usize)>, after: Seq<(Tile, usize)>, p: int, t: Tile)
    requires
        ascending(before),
        0 <= p < before.len(),
        before[p].0 == t,
        before[p].1 >= 1,
        after == before.update(p, (t, (before[p].1 - 1) as usize)),
    ensures
        ascending(after),
        slots_bag(after) == slots_bag(before).remove(t),
{
    assert(ascending(after)) by {
        assert forall|i: int, j: int| 0 <= i < j < after.len() implies (#[trigger] after[i]).0.before(
            (#[trigger] after[j]).0,
        ) by {
            assert(after[i].0 == before[i].0);
            assert(after[j].0 == before[j].0);
        }
    }
    assert forall|u: Tile| slots_bag(after).count(u) == slots_bag(before).remove(t).count(u) by {
        lemma_count_at(before, p);
        if exists|k: int| 0 <= k < before.len() && (#[trigger] before[k]).0 == u {
            let k = choose|k: int| 0 <= k < before.len() && (#[trigger] before[k]).0 == u;
            lemma_count_at(before, k);
            lemma_count_at(after, k);
            if u == t && k != p {
                if k < p {
                    assert(before[k].0.before(before[p].0));
                } else {
                    assert(before[p].0.before(before[k].0));
                }
            }
        } else {
            lemma_count_absent(before, u);
            assert forall|k: int| 0 <= k < after.len() implies (#[trigger] after[k]).0 != u by {
                assert(after[k].0 == before[k].0);
            }
            lemma_count_absent(after, u);
        }
    }
    assert(slots_bag(after) =~= slots_bag(before).remove(t));
}

/// After one more `t` has gone into the slots at position `p`, into the slot
/// of `t` or into a new one, the slots are in order as before, and every tile
/// occurs as often as before but `t`, which occurs once more.
proof fn lemma_one_more(before: Seq<(Tile, usize)>, after: Seq<(Tile, usize)>, p: int, t: Tile)
    requires
        ascending(before),
        0 <= p <= before.len(),
        forall|i: int| 0 <= i < p ==> (#[trigger] before[i]).0.before(t),
        p < before.len() ==> !before[p].0.before(t),
        ({
            ||| (p < before.len() && before[p].0 == t && before[p].1 < usize::MAX && after
                == before.update(p, (t, (before[p].1 + 1) as usize)))
            ||| (!(p < before.len() && before[p].0 == t) && after == before.insert(p, (t, 1usize)))
        }),
    ensures
        ascending(after),
        slots_bag(after) == slots_bag(before).insert(t),
{
    assert(ascending(after)) by {
        assert forall|i: int, j: int| 0 <= i < j < after.len() implies (#[trigger] after[i]).0.before(
            (#[trigger] after[j]).0,
        ) by {
            if after.len() == before.len() {
                assert(after[i].0 == before[i].0);
                assert(after[j].0 == before[j].0);
            } else {
                if i < p {
                    assert(after[i] == before[i]);
                }
                if i > p {
                    assert(after[i] == before[i - 1]);
                }
                if j < p {
                    assert(after[j] == before[j]);
                }
                if j > p {
                    assert(after[j] == before[j - 1]);
                    assert(!before[p].0.before(t));
                    if j - 1 > p {
                        assert(before[p].0.before(before[j - 1].0));
                    }
                }
            }
        }
    }
    assert forall|u: Tile| slots_bag(after).count(u) == slots_bag(before).insert(t).count(u) by {
        lemma_slot_counts_agree(before, after, p, t, u);
    }
    assert(slots_bag(after) =~= slots_bag(before).insert(t));
}

/// After one more `t` has gone into the slots at position `p`, every tile
/// occurs as often as before, and `t` once more.
proof fn lemma_slot_counts_agree(
    before: Seq<(Tile, usize)>,
    after: Seq<(Tile, usize)>,
    p: int,
    t: Tile,
    u: Tile,
)
    requires
        ascending(before),
        ascending(after),
        0 <= p <= before.len(),
        forall|i: int| 0 <= i < p ==> (#[trigger] before[i]).0.before(t),
        p < before.len() ==> !before[p].0.before(t),
        ({
            ||| (p < before.len() && before[p].0 == t && before[p].1 < usize::MAX && after
                == before.update(p, (t, (before[p].1 + 1) as usize)))
            ||| (!(p < before.len() && before[p].0 == t) && after == before.insert(p, (t, 1usize)))
        }),
    ensures
        slots_bag(after).count(u) == slots_bag(before).insert(t).count(u),
{
    if after.len() == before.len() {
        if exists|k: int| 0 <= k < before.len() && (#[trigger] before[k]).0 == u {
            let k = choose|k: int| 0 <= k < before.len() && (#[trigger] before[k]).0 == u;
            lemma_count_at(before, k);
            lemma_count_at(after, k);
            if u == t && k != p {
                assert(before[k].0 == before[p].0);
                if k < p {
                    assert(before[k].0.before(before[p].0));
                } else {
                    assert(before[p].0.before(before[k].0));
                }
            }
        } else {
            lemma_count_absent(before, u);
            assert forall|k: int| 0 <= k < after.len() implies (#[trigger] after[k]).0 != u by {
                assert(after[k].0 == before[k].0);
            }
            lemma_count_absent(after, u);
        }
    } else {
        assert(after[p] == (t, 1usize));
        assert forall|k: int| 0 <= k < before.len() implies (#[trigger] before[k]).0 != t by {
            if k < p {
                assert(before[k].0.before(t));
            } else if k > p {
                assert(before[p].0.before(before[k].0));
            }
        }
        lemma_count_absent(before, t);
        if u == t {
            lemma_count_at(after, p);
        } else if exists|k: int| 0 <= k < before.len() && (#[trigger] before[k]).0 == u {
            let k = choose|k: int| 0 <= k < before.len() && (#[trigger] before[k]).0 == u;
            lemma_count_at(before, k);
            if k < p {
                assert(after[k] == before[k]);
                lemma_count_at(after, k);
            } else {
                assert(after[k + 1] == before[k]);
                lemma_count_at(after, k + 1);
            }
        } else {
            lemma_count_absent(before, u);
            assert forall|k: int| 0 <= k < after.len() implies (#[trigger] after[k]).0 != u by {
                if k < p {
                    assert(after[k] == before[k]);
                } else if k > p {
                    assert(after[k] == before[k - 1]);
                }
            }
            lemma_count_absent(after, u);
        }
    }
}

} // verus!

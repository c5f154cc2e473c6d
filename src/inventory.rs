//! How many copies of each catalog card a player owns.
use vstd::prelude::*;

use crate::card::CardId;

verus! {

/// `count` added to `curr`, held at 255.
pub open spec fn saturating_add(curr: u8, count: u8) -> u8 {
    if curr + count > 255 {
        255
    } else {
        (curr + count) as u8
    }
}

/// `count` taken from `curr`, held at 0.
pub open spec fn saturating_sub(curr: u8, count: u8) -> u8 {
    if curr < count {
        0
    } else {
        (curr - count) as u8
    }
}

/// A count of copies for every catalog card.
#[derive(Clone, Copy, Debug)]
pub struct Inventory([u8; 110]);

impl View for Inventory {
    type V = Seq<u8>;

    closed spec fn view(&self) -> Seq<u8> {
        self.0@
    }
}

impl Inventory {
    /// An inventory holds one count per catalog card.
    pub broadcast proof fn lemma_len(&self)
        ensures
            (#[trigger] self@).len() == 110,
    {
    }

    /// An inventory with no copies of any card.
    pub fn new() -> (r: Inventory)
        ensures
            r@ == Seq::new(110, |i: int| 0u8),
    {
        let r = Inventory([0u8; 110]);
        assert(r@ =~= Seq::new(110, |i: int| 0u8));
        r
    }

    /// Adds `count` copies of `card_id`; the count stops at 255.
    pub fn add(&mut self, card_id: CardId, count: u8)
        ensures
            final(self)@ == old(self)@.update(
                card_id@ as int,
                saturating_add(old(self)@[card_id@ as int], count),
            ),
    {
        let i = card_id.index();
        let curr = self.0[i];
        self.0[i] = curr.saturating_add(count);
    }

    /// Takes away `count` copies of `card_id`; the count stops at 0.
    pub fn remove(&mut self, card_id: CardId, count: u8)
        ensures
            final(self)@ == old(self)@.update(
                card_id@ as int,
                saturating_sub(old(self)@[card_id@ as int], count),
            ),
    {
        let i = card_id.index();
        let curr = self.0[i];
        self.0[i] = curr.saturating_sub(count);
    }

    /// The cards with at least one copy, in catalog order.
    pub fn iter_distinct(&self) -> (r: Vec<CardId>)
        ensures
            forall|a: int, b: int| 0 <= a < b < r@.len() ==> r@[a]@ < r@[b]@,
            forall|a: int| 0 <= a < r@.len() ==> r@[a]@ < 110,
            forall|a: int| 0 <= a < r@.len() ==> self@[#[trigger] r@[a]@ as int] > 0,
            forall|i: int|
                0 <= i < 110 && #[trigger] self@[i] > 0 ==> exists|a: int|
                    0 <= a < r@.len() && r@[a]@ == i,
    {
        let mut r: Vec<CardId> = Vec::new();
        let mut i: u8 = 0;
        while i < 110
            invariant
                i <= 110,
                self@.len() == 110,
                forall|a: int| 0 <= a < r@.len() ==> r@[a]@ < i,
                forall|a: int| 0 <= a < r@.len() ==> r@[a]@ < 110,
                forall|a: int, b: int| 0 <= a < b < r@.len() ==> r@[a]@ < r@[b]@,
                forall|a: int| 0 <= a < r@.len() ==> self@[#[trigger] r@[a]@ as int] > 0,
                forall|k: int|
                    0 <= k < i && #[trigger] self@[k] > 0 ==> exists|a: int|
                        0 <= a < r@.len() && r@[a]@ == k,
            decreases 110 - i,
        {
            let ghost prev = r@;
            if self.0[i as usize] > 0 {
                let id = CardId::new_unchecked(i);
                r.push(id);
                assert(r@[r@.len() - 1]@ == i);
            }
            assert forall|k: int| 0 <= k < i + 1 && #[trigger] self@[k] > 0 implies exists|a: int|
                0 <= a < r@.len() && r@[a]@ == k by {
                if k < i {
                    let a = choose|a: int| 0 <= a < prev.len() && prev[a]@ == k;
                    assert(r@[a] == prev[a]);
                } else {
                    assert(r@[r@.len() - 1]@ == k);
                }
            }
            i = i + 1;
        }
        r
    }
}

} // verus!

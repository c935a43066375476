use vstd::prelude::*;

verus! {

/// One price level of the book: `vol` units are left at `price`.
#[derive(Clone, Copy, Debug, PartialEq, Eq, Structural)]
pub struct PriceVol {
    pub price: i64,
    pub vol: i64,
}

/// What a claim of one unit at a price found in the book.
#[derive(Clone, Copy, Debug, PartialEq, Eq, Structural)]
pub enum MatchOutcome {
    Matched,
    NoSuchPriceLevel,
    Exhausted,
}

/// Levels in strictly ascending price order, each at a non-negative price and
/// with at least one unit left.
pub open spec fn levels_wf(levels: Seq<PriceVol>) -> bool {
    &&& forall|i: int, j: int|
        0 <= i < j < levels.len() ==> #[trigger] levels[i].price < #[trigger] levels[j].price
    &&& forall|i: int| 0 <= i < levels.len() ==> #[trigger] levels[i].vol > 0 && levels[i].price >= 0
}

pub open spec fn has_level(levels: Seq<PriceVol>, price: i64) -> bool {
    exists|i: int| 0 <= i < levels.len() && #[trigger] levels[i].price == price
}

pub open spec fn level_index(levels: Seq<PriceVol>, price: i64) -> int {
    choose|i: int| 0 <= i < levels.len() && #[trigger] levels[i].price == price
}

/// Units left at `price`; zero where the book holds no such level.
pub open spec fn volume_at(levels: Seq<PriceVol>, price: i64) -> int {
    if has_level(levels, price) {
        levels[level_index(levels, price)].vol as int
    } else {
        0
    }
}

/// The levels after one unit at `price` is claimed, with what the claim found:
/// the level loses a unit and goes when its last unit goes.
pub open spec fn take_one(levels: Seq<PriceVol>, price: i64) -> (Seq<PriceVol>, MatchOutcome) {
    if !has_level(levels, price) {
        (levels, MatchOutcome::NoSuchPriceLevel)
    } else {
        let i = level_index(levels, price);
        if levels[i].vol <= 0 {
            (levels, MatchOutcome::Exhausted)
        } else if levels[i].vol == 1 {
            (levels.remove(i), MatchOutcome::Matched)
        } else {
            (levels.update(i, PriceVol { price, vol: (levels[i].vol - 1) as i64 }), MatchOutcome::Matched)
        }
    }
}

/// In a well-formed book a price names at most one level.
pub proof fn lemma_level_unique(levels: Seq<PriceVol>, price: i64, i: int)
    requires
        levels_wf(levels),
        0 <= i < levels.len(),
        levels[i].price == price,
    ensures
        has_level(levels, price),
        level_index(levels, price) == i,
{
    assert(levels[i].price == price);
    let j = level_index(levels, price);
    if j < i {
        assert(levels[j].price < levels[i].price);
    } else if i < j {
        assert(levels[i].price < levels[j].price);
    }
}

/// Claiming a unit keeps a book well formed.
pub proof fn lemma_take_one_wf(levels: Seq<PriceVol>, price: i64)
    requires
        levels_wf(levels),
    ensures
        levels_wf(take_one(levels, price).0),
{
    if has_level(levels, price) {
        let i = level_index(levels, price);
        let after = take_one(levels, price).0;
        if levels[i].vol == 1 {
            assert forall|a: int, b: int| 0 <= a < b < after.len() implies #[trigger] after[a].price
                < #[trigger] after[b].price by {
                let a0 = if a < i { a } else { a + 1 };
                let b0 = if b < i { b } else { b + 1 };
                assert(levels[a0].price < levels[b0].price);
            }
            assert forall|a: int| 0 <= a < after.len() implies #[trigger] after[a].vol > 0
                && after[a].price >= 0 by {
                let a0 = if a < i { a } else { a + 1 };
                assert(levels[a0].vol > 0);
            }
        } else {
            assert forall|a: int, b: int| 0 <= a < b < after.len() implies #[trigger] after[a].price
                < #[trigger] after[b].price by {
                assert(levels[a].price < levels[b].price);
            }
            assert forall|a: int| 0 <= a < after.len() implies #[trigger] after[a].vol > 0
                && after[a].price >= 0 by {
                assert(levels[a].vol > 0);
            }
        }
    }
}

/// Units that a list of configured levels gives `price`: the last entry for
/// that price counts, and none gives zero.
pub open spec fn configured_volume(entries: Seq<PriceVol>, price: i64) -> int
    decreases entries.len(),
{
    if entries.len() == 0 {
        0
    } else if entries.last().price == price {
        entries.last().vol as int
    } else {
        configured_volume(entries.drop_last(), price)
    }
}

/// Every configured level has a non-negative price and at least one unit.
pub open spec fn entries_valid(entries: Seq<PriceVol>) -> bool {
    forall|i: int| 0 <= i < entries.len() ==> #[trigger] entries[i].price >= 0 && entries[i].vol > 0
}

/// The book of ask price levels.
pub struct AskBook {
    levels: Vec<PriceVol>,
}

impl View for AskBook {
    type V = Seq<PriceVol>;

    closed spec fn view(&self) -> Seq<PriceVol> {
        self.levels@
    }
}

impl AskBook {
    pub open spec fn wf(&self) -> bool {
        levels_wf(self@)
    }

    /// Builds the book from configured levels; where a price is given twice
    /// the later entry wins.
    pub fn from_entries(entries: &Vec<PriceVol>) -> (r: AskBook)
        requires
            entries_valid(entries@),
        ensures
            r.wf(),
            forall|p: i64| volume_at(r@, p) == configured_volume(entries@, p),
    {
        let mut book = AskBook { levels: Vec::new() };
        let mut k: usize = 0;
        while k < entries.len()
            invariant
                0 <= k <= entries.len(),
                entries_valid(entries@),
                book.wf(),
                forall|p: i64| volume_at(book@, p) == configured_volume(entries@.take(k as int), p),
            decreases entries.len() - k,
        {
            let e = entries[k];
            book.put_level(e);
            proof {
                assert(entries@.take(k + 1).drop_last() == entries@.take(k as int));
            }
            k += 1;
        }
        proof {
            assert(entries@.take(entries.len() as int) == entries@);
        }
        book
    }

    /// Sets the level at `e.price` to `e.vol` units, adding it in price order.
    fn put_level(&mut self, e: PriceVol)
        requires
            old(self).wf(),
            e.price >= 0,
            e.vol > 0,
        ensures
            final(self).wf(),
            forall|p: i64|
                volume_at(final(self)@, p) == if p == e.price {
                    e.vol as int
                } else {
                    volume_at(old(self)@, p)
                },
    {
        let mut i: usize = 0;
        while i < self.levels.len() && self.levels[i].price < e.price
            invariant
                0 <= i <= self.levels.len(),
                self@ == old(self)@,
                self.wf(),
                forall|k: int| 0 <= k < i ==> #[trigger] self@[k].price < e.price,
            decreases self.levels.len() - i,
        {
            i += 1;
        }
        let ghost before = self@;
        if i < self.levels.len() && self.levels[i].price == e.price {
            self.levels.set(i, e);
            proof {
                assert(levels_wf(self@)) by {
                    assert forall|a: int, b: int| 0 <= a < b < self@.len() implies
                        #[trigger] self@[a].price < #[trigger] self@[b].price by {
                        assert(before[a].price < before[b].price);
                    }
                    assert forall|a: int| 0 <= a < self@.len() implies #[trigger] self@[a].vol > 0
                        && self@[a].price >= 0 by {
                        assert(before[a].vol > 0);
                    }
                }
                assert forall|p: i64| volume_at(self@, p) == if p == e.price {
                    e.vol as int
                } else {
                    volume_at(before, p)
                } by {
                    lemma_level_unique(self@, e.price, i as int);
                    if has_level(before, p) {
                        let j = level_index(before, p);
                        if p != e.price {
                            lemma_level_unique(self@, p, j);
                        }
                    } else if p != e.price {
                        if has_level(self@, p) {
                            let j = level_index(self@, p);
                            assert(before[j].price == p);
                        }
                    }
                }
            }
        } else {
            self.levels.insert(i, e);
            proof {
                assert(levels_wf(self@)) by {
                    assert forall|a: int, b: int| 0 <= a < b < self@.len() implies
                        #[trigger] self@[a].price < #[trigger] self@[b].price by {
                        if a < i && b < i {
                            assert(before[a].price < before[b].price);
                        } else if a < i && b > i {
                            assert(before[b - 1].price > e.price);
                        } else if a > i {
                            assert(before[a - 1].price < before[b - 1].price);
                        } else if a == i && b > i {
                            if b - 1 > i {
                                assert(before[i as int].price < before[b - 1].price);
                            }
                        }
                    }
                    assert forall|a: int| 0 <= a < self@.len() implies #[trigger] self@[a].vol > 0
                        && self@[a].price >= 0 by {
                        if a < i {
                            assert(before[a].vol > 0);
                        } else if a > i {
                            assert(before[a - 1].vol > 0);
                        }
                    }
                }
                assert forall|p: i64| volume_at(self@, p) == if p == e.price {
                    e.vol as int
                } else {
                    volume_at(before, p)
                } by {
                    lemma_level_unique(self@, e.price, i as int);
                    if has_level(before, p) {
                        let j = level_index(before, p);
                        if j < i {
                            lemma_level_unique(self@, p, j);
                        } else {
                            lemma_level_unique(self@, p, j + 1);
                        }
                    } else if p != e.price {
                        if has_level(self@, p) {
                            let j = level_index(self@, p);
                            if j < i {
                                assert(before[j].price == p);
                            } else {
                                assert(before[j - 1].price == p);
                            }
                        }
                    }
                }
            }
        }
    }

    /// The levels in ascending price order.
    pub fn levels(&self) -> (r: Vec<PriceVol>)
        ensures
            r@ == self@,
    {
        let mut r: Vec<PriceVol> = Vec::new();
        let mut k: usize = 0;
        while k < self.levels.len()
            invariant
                0 <= k <= self.levels.len(),
                r@ == self@.take(k as int),
            decreases self.levels.len() - k,
        {
            r.push(self.levels[k]);
            proof {
                assert(self@.take(k + 1) == self@.take(k as int).push(self@[k as int]));
            }
            k += 1;
        }
        proof {
            assert(self@.take(self.levels.len() as int) == self@);
        }
        r
    }

    /// Claims one unit at `price`; a level whose last unit goes is removed.
    pub fn decrement_ask(&mut self, price: i64) -> (r: MatchOutcome)
        requires
            old(self).wf(),
        ensures
            final(self).wf(),
            (final(self)@, r) == take_one(old(self)@, price),
    {
        proof {
            lemma_take_one_wf(self@, price);
        }
        let mut i: usize = 0;
        while i < self.levels.len()
            invariant
                0 <= i <= self.levels.len(),
                self@ == old(self)@,
                self.wf(),
                forall|k: int| 0 <= k < i ==> #[trigger] self@[k].price != price,
            decreases self.levels.len() - i,
        {
            if self.levels[i].price == price {
                proof {
                    lemma_level_unique(self@, price, i as int);
                }
                let v = self.levels[i].vol;
                if v <= 0 {
                    return MatchOutcome::Exhausted;
                }
                if v == 1 {
                    self.levels.remove(i);
                } else {
                    self.levels.set(i, PriceVol { price, vol: v - 1 });
                }
                return MatchOutcome::Matched;
            }
            i += 1;
        }
        MatchOutcome::NoSuchPriceLevel
    }
}

} // verus!

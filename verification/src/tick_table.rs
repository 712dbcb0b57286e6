//! The buckets of a pool that hold liquidity, ordered by their index.

use vstd::prelude::*;
use crate::decimal::Decimal;

verus! {

/// What a pool keeps for one bucket of ticks.
#[derive(Clone, Copy, Debug, PartialEq, Eq, Structural)]
pub struct TickInfo {
    /// Fees of token 0 earned by one unit of liquidity in this bucket so far.
    pub last_fee_growth_0: Decimal,
    /// Fees of token 1 earned by one unit of liquidity in this bucket so far.
    pub last_fee_growth_1: Decimal,
    /// The liquidity of all positions that span this bucket.
    pub total_liquidity: u128,
}

/// Whether the indexes of the entries strictly increase.
pub open spec fn increasing(entries: Seq<(i32, TickInfo)>) -> bool {
    forall|i: int, j: int| 0 <= i < j < entries.len() ==> entries[i].0 < entries[j].0
}

/// What the entries keep for the bucket `index`, if anything.
pub open spec fn entry_of(entries: Seq<(i32, TickInfo)>, index: int) -> Option<TickInfo>
    decreases entries.len(),
{
    if entries.len() == 0 {
        None
    } else if entries.last().0 == index {
        Some(entries.last().1)
    } else {
        entry_of(entries.drop_last(), index)
    }
}

/// An entry of increasing entries is what they keep for its index.
pub proof fn lemma_entry_found(entries: Seq<(i32, TickInfo)>, i: int)
    requires
        increasing(entries),
        0 <= i < entries.len(),
    ensures
        entry_of(entries, entries[i].0 as int) == Some(entries[i].1),
    decreases entries.len(),
{
    if i < entries.len() - 1 {
        lemma_entry_found(entries.drop_last(), i);
    }
}

/// Entries keep nothing for an index that none of them has.
pub proof fn lemma_entry_missing(entries: Seq<(i32, TickInfo)>, index: int)
    requires
        forall|i: int| 0 <= i < entries.len() ==> entries[i].0 != index,
    ensures
        entry_of(entries, index) is None,
    decreases entries.len(),
{
    if entries.len() > 0 {
        lemma_entry_missing(entries.drop_last(), index);
    }
}

/// What entries keep for an index is one of their entries.
pub proof fn lemma_entry_witness(entries: Seq<(i32, TickInfo)>, index: int) -> (i: int)
    requires
        entry_of(entries, index) is Some,
    ensures
        0 <= i < entries.len(),
        entries[i].0 == index,
        entry_of(entries, index) == Some(entries[i].1),
    decreases entries.len(),
{
    if entries.last().0 == index {
        entries.len() - 1
    } else {
        lemma_entry_witness(entries.drop_last(), index)
    }
}

/// The buckets of a pool, each under its index. The view is the map from
/// index to what is kept.
#[derive(Debug)]
pub struct TickTable {
    entries: Vec<(i32, TickInfo)>,
}

impl View for TickTable {
    type V = Map<int, TickInfo>;

    closed spec fn view(&self) -> Map<int, TickInfo> {
        Map::new(
            |index: int| entry_of(self.entries@, index) is Some,
            |index: int| entry_of(self.entries@, index)->0,
        )
    }
}

impl TickTable {
    #[verifier::type_invariant]
    closed spec fn ordered(&self) -> bool {
        increasing(self.entries@)
    }

    /// A table without buckets.
    pub fn new() -> (table: TickTable)
        ensures
            table@ == Map::<int, TickInfo>::empty(),
    {
        let table = TickTable { entries: Vec::new() };
        proof {
            assert(table@ =~= Map::<int, TickInfo>::empty());
        }
        table
    }

    /// Whether `list` holds exactly what `table` maps, in the order of the
    /// indexes.
    pub open spec fn lists(table: Map<int, TickInfo>, list: Seq<(i32, TickInfo)>) -> bool {
        &&& increasing(list)
        &&& forall|i: int|
            0 <= i < list.len() ==> table.contains_key(#[trigger] list[i].0 as int) && table[list[i].0 as int]
                == list[i].1
        &&& forall|index: int| #[trigger]
            table.contains_key(index) ==> exists|i: int| 0 <= i < list.len() && list[i].0 == index
    }

    /// The buckets of the table with their indexes, in the order of the
    /// indexes.
    pub fn entries(&self) -> (list: Vec<(i32, TickInfo)>)
        ensures
            TickTable::lists(self@, list@),
    {
        proof {
            use_type_invariant(self);
        }
        let mut list: Vec<(i32, TickInfo)> = Vec::new();
        let mut i: usize = 0;
        while i < self.entries.len()
            invariant
                i <= self.entries@.len(),
                list@ == self.entries@.take(i as int),
            decreases self.entries@.len() - i,
        {
            list.push(self.entries[i]);
            proof {
                assert(list@ =~= self.entries@.take(i + 1));
            }
            i += 1;
        }
        proof {
            assert(list@ =~= self.entries@);
            assert forall|i: int| 0 <= i < list@.len() implies self@.contains_key(#[trigger] list@[i].0 as int)
                && self@[list@[i].0 as int] == list@[i].1 by {
                lemma_entry_found(self.entries@, i);
            }
            assert forall|index: int| #[trigger] self@.contains_key(index) implies exists|i: int|
                0 <= i < list@.len() && list@[i].0 == index by {
                let i = lemma_entry_witness(self.entries@, index);
            }
        }
        list
    }

    /// The first position whose index is not below `index`.
    fn position(&self, index: i32) -> (at: usize)
        ensures
            at <= self.entries@.len(),
            forall|i: int| 0 <= i < at ==> self.entries@[i].0 < index,
            forall|i: int| at <= i < self.entries@.len() ==> self.entries@[i].0 >= index,
    {
        proof {
            use_type_invariant(self);
        }
        let mut low: usize = 0;
        let mut high: usize = self.entries.len();
        while low < high
            invariant
                low <= high <= self.entries@.len(),
                increasing(self.entries@),
                forall|i: int| 0 <= i < low ==> self.entries@[i].0 < index,
                forall|i: int| high <= i < self.entries@.len() ==> self.entries@[i].0 >= index,
            decreases high - low,
        {
            let middle = low + (high - low) / 2;
            if self.entries[middle].0 < index {
                low = middle + 1;
            } else {
                high = middle;
            }
        }
        low
    }

    /// What the table keeps for the bucket `index`.
    pub fn get(&self, index: i32) -> (info: Option<TickInfo>)
        ensures
            info == self@.get(index as int),
    {
        proof {
            use_type_invariant(self);
        }
        let at = self.position(index);
        if at < self.entries.len() && self.entries[at].0 == index {
            proof {
                lemma_entry_found(self.entries@, at as int);
            }
            Some(self.entries[at].1)
        } else {
            proof {
                lemma_entry_missing(self.entries@, index as int);
            }
            None
        }
    }

    /// The table with `info` kept for the bucket `index`, in place of what
    /// was kept for it before.
    pub fn set(self, index: i32, info: TickInfo) -> (table: TickTable)
        ensures
            table@ == self@.insert(index as int, info),
    {
        proof {
            use_type_invariant(&self);
        }
        let at = self.position(index);
        let ghost before = self.entries@;
        let mut entries = self.entries;
        if at < entries.len() && entries[at].0 == index {
            entries.set(at, (index, info));
        } else {
            entries.insert(at, (index, info));
        }
        let ghost after = entries@;
        proof {
            assert(increasing(after));
            lemma_entry_found(after, at as int);
            assert forall|k: int| k != index implies entry_of(after, k) == entry_of(before, k) by {
                if entry_of(before, k) is Some {
                    let i = lemma_entry_witness(before, k);
                    let j = if after.len() == before.len() || i < at { i } else { i + 1 };
                    assert(after[j] == before[i]);
                    lemma_entry_found(after, j);
                } else if entry_of(after, k) is Some {
                    let j = lemma_entry_witness(after, k);
                    let i = if after.len() == before.len() || j < at { j } else { j - 1 };
                    assert(before[i] == after[j]);
                    lemma_entry_found(before, i);
                }
            }
        }
        let table = TickTable { entries };
        proof {
            assert(table@ =~= self@.insert(index as int, info));
        }
        table
    }
}

} // verus!

//! The template pallet with an off-chain worker: every block the worker adds the
//! square of the block number to a running total kept in the node's local
//! storage, and the totals are saved on chain, one per block.
use vstd::prelude::*;

use crate::storage::StorageMap;

verus! {

/// What the pallet reports after saving a number. (who, index, number)
#[derive(Clone, Copy, Debug, PartialEq, Eq)]
pub enum TemplateEvent {
    NumberAppended(u64, u64, u64),
}

/// The storage of the pallet: the saved numbers, by index.
pub struct Module {
    numbers: StorageMap<u64, u64>,
}

/// `x * x`, or `u64::MAX` where that does not fit.
pub open spec fn spec_saturating_square(x: u64) -> u64 {
    if x * x > u64::MAX {
        u64::MAX
    } else {
        (x * x) as u64
    }
}

/// The total that the worker keeps after block `block_number`: the square of the
/// block number added (saturating) to the total stored so far, or the square
/// alone where nothing is stored.
pub open spec fn spec_next_total(stored: Option<u64>, block_number: u64) -> u64 {
    let square = spec_saturating_square(block_number);
    match stored {
        Some(val) => if val + square > u64::MAX {
            u64::MAX
        } else {
            (val + square) as u64
        },
        None => square,
    }
}

/// The sum of the squares of 1, ..., n.
pub open spec fn sum_of_squares(n: nat) -> nat
    decreases n,
{
    if n == 0 {
        0
    } else {
        sum_of_squares((n - 1) as nat) + n * n
    }
}

/// Squares `x`, saturating at `u64::MAX`.
pub fn saturating_square(x: u64) -> (r: u64)
    ensures
        r == spec_saturating_square(x),
{
    match x.checked_mul(x) {
        Some(sq) => sq,
        None => u64::MAX,
    }
}

/// What the off-chain worker computes in block `block_number` from the total it
/// stored before (`None` where nothing, or nothing readable, is stored): the new
/// total, which it stores again and submits to be saved on chain.
pub fn next_total(stored: Option<u64>, block_number: u64) -> (r: u64)
    ensures
        r == spec_next_total(stored, block_number),
        stored matches Some(v) ==> r == (if v + block_number * block_number > u64::MAX {
            u64::MAX as int
        } else {
            v + block_number * block_number
        }),
        stored is None ==> r == (if block_number * block_number > u64::MAX {
            u64::MAX as int
        } else {
            block_number * block_number
        }),
{
    let num_val = saturating_square(block_number);
    match stored {
        Some(val) => val.saturating_add(num_val),
        None => num_val,
    }
}

/// Whatever total is stored, the worker adds the square of the block number to
/// it, saturating at `u64::MAX`; with nothing stored it starts from the square.
pub proof fn lemma_next_total_adds_square(stored: Option<u64>, n: u64)
    ensures
        stored matches Some(v) ==> spec_next_total(stored, n) == (if v + n * n > u64::MAX {
            u64::MAX as int
        } else {
            v + n * n
        }),
        stored is None ==> spec_next_total(stored, n) == (if n * n > u64::MAX {
            u64::MAX as int
        } else {
            n * n
        }),
        stored matches Some(v) ==> spec_next_total(stored, n) >= v,
{
    assert(n * n >= 0) by (nonlinear_arith);
}

/// Run block after block from the first, the worker's total after block `n` is
/// the sum of the squares of 1, ..., n, as long as that sum fits in a `u64`.
pub proof fn lemma_totals_are_sums_of_squares(stored: Option<u64>, n: u64)
    requires
        n >= 1,
        sum_of_squares(n as nat) <= u64::MAX,
        n == 1 ==> stored is None,
        n > 1 ==> stored == Some(sum_of_squares((n - 1) as nat) as u64),
    ensures
        spec_next_total(stored, n) == sum_of_squares(n as nat),
{
    assert(sum_of_squares(n as nat) == sum_of_squares((n - 1) as nat) + n * n);
    if n == 1 {
        assert(sum_of_squares(0) == 0);
    }
}

impl Module {
    /// The saved numbers.
    pub closed spec fn numbers_map(&self) -> Map<u64, u64> {
        self.numbers@
    }

    /// The storage map is well formed.
    pub closed spec fn wf(&self) -> bool {
        self.numbers.wf()
    }

    /// A pallet with nothing saved.
    pub fn new() -> (m: Self)
        ensures
            m.wf(),
            m.numbers_map() == Map::<u64, u64>::empty(),
    {
        Module { numbers: StorageMap::new() }
    }

    /// The number saved under `index`; 0 where none is.
    pub fn numbers(&self, index: u64) -> (r: u64)
        requires
            self.wf(),
        ensures
            r == match self.numbers_map().get(index) {
                Some(n) => n,
                None => 0,
            },
    {
        match self.numbers.get(&index) {
            Some(n) => *n,
            None => 0,
        }
    }

    /// `who` saves `number` under `index`.
    pub fn save_number(&mut self, who: u64, index: u64, number: u64) -> (r: TemplateEvent)
        requires
            old(self).wf(),
        ensures
            final(self).wf(),
            final(self).numbers_map() == old(self).numbers_map().insert(index, number),
            r == TemplateEvent::NumberAppended(who, index, number),
    {
        self.numbers.insert(index, number);
        TemplateEvent::NumberAppended(who, index, number)
    }

    /// `who` saves `number` in block `block_number`: it goes under the index of the
    /// block before.
    pub fn save_number_in_block(&mut self, who: u64, block_number: u64, number: u64) -> (r:
        TemplateEvent)
        requires
            old(self).wf(),
            block_number >= 1,
        ensures
            final(self).wf(),
            final(self).numbers_map() == old(self).numbers_map().insert(
                (block_number - 1) as u64,
                number,
            ),
            r == TemplateEvent::NumberAppended(who, (block_number - 1) as u64, number),
    {
        self.save_number(who, block_number - 1, number)
    }
}

} // verus!

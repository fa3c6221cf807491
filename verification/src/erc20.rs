//! An ERC-20 style token: a fixed supply handed to its creator, balances that move
//! between accounts, and allowances that accounts grant each other.
use vstd::prelude::*;

use crate::storage::StorageMap;

verus! {

/// An account: 32 bytes.
pub type AccountId = [u8; 32];

/// An amount of the token.
pub type Balance = u128;

/// What the contract reports.
#[derive(Clone, Copy, Debug, PartialEq, Eq)]
pub enum Erc20Event {
    /// Tokens moved; `from` is `None` where they were minted.
    Transfered { from: Option<AccountId>, to: Option<AccountId>, value: Balance },
    /// `from` allowed `to` to spend `value` more of its tokens.
    Approved { from: AccountId, to: AccountId, value: Balance },
}

/// The sum of all values of a finite map.
pub open spec fn total_of<K>(m: Map<K, Balance>) -> int
    decreases m.dom().len(),
    when m.dom().finite()
{
    if m.dom().len() == 0 {
        0
    } else {
        let k = m.dom().choose();
        m[k] + total_of(m.remove(k))
    }
}

/// Taking one entry out of a finite map takes its value off the total.
pub proof fn lemma_total_remove<K>(m: Map<K, Balance>, k: K)
    requires
        m.dom().finite(),
    ensures
        total_of(m) == (if m.contains_key(k) {
            m[k] as int
        } else {
            0
        }) + total_of(m.remove(k)),
    decreases m.dom().len(),
{
    if !m.contains_key(k) {
        assert(m.remove(k) =~= m);
    } else {
        let j = m.dom().choose();
        if j != k {
            lemma_total_remove(m.remove(j), k);
            lemma_total_remove(m.remove(k), j);
            assert(m.remove(j).remove(k) =~= m.remove(k).remove(j));
        }
    }
}

/// No value of a finite map exceeds its total.
pub proof fn lemma_total_bounds<K>(m: Map<K, Balance>, k: K)
    requires
        m.dom().finite(),
    ensures
        0 <= total_of(m),
        m.contains_key(k) ==> m[k] <= total_of(m),
    decreases m.dom().len(),
{
    if m.dom().len() > 0 {
        let j = m.dom().choose();
        lemma_total_bounds(m.remove(j), k);
        if m.contains_key(k) {
            lemma_total_remove(m, k);
            lemma_total_bounds(m.remove(k), j);
        }
    }
}

/// The balance of `a` in `m`; none counts as zero.
pub open spec fn balance_in(m: Map<Seq<u8>, Balance>, a: Seq<u8>) -> Balance {
    match m.get(a) {
        Some(b) => b,
        None => 0,
    }
}

/// Moving `value` from one account to another leaves the total of all balances
/// as it was.
pub proof fn lemma_transfer_keeps_total(m: Map<Seq<u8>, Balance>, from: Seq<u8>, to: Seq<u8>, value: Balance)
    requires
        m.dom().finite(),
        from != to,
        balance_in(m, from) >= value,
        balance_in(m, to) + value <= Balance::MAX,
    ensures
        total_of(
            m.insert(from, (balance_in(m, from) - value) as Balance).insert(
                to,
                (balance_in(m, to) + value) as Balance,
            ),
        ) == total_of(m),
{
    let fb = balance_in(m, from);
    let tb = balance_in(m, to);
    let m1 = m.insert(from, (fb - value) as Balance);
    let m2 = m1.insert(to, (tb + value) as Balance);
    lemma_total_remove(m2, to);
    assert(m2.remove(to) =~= m1.remove(to));
    lemma_total_remove(m1.remove(to), from);
    assert(m1.remove(to).remove(from) =~= m.remove(to).remove(from));
    lemma_total_remove(m, to);
    lemma_total_remove(m.remove(to), from);
}

/// The storage of the contract.
pub struct Erc20 {
    total_supply: Balance,
    balances: StorageMap<AccountId, Balance>,
    allowance: StorageMap<(AccountId, AccountId), Balance>,
    events: Vec<Erc20Event>,
}

impl Erc20 {
    /// The supply that the contract was made with.
    pub closed spec fn supply(&self) -> Balance {
        self.total_supply
    }

    /// The balances of the accounts that have one.
    pub closed spec fn balances_map(&self) -> Map<Seq<u8>, Balance> {
        self.balances@
    }

    /// The allowances, by (owner, spender).
    pub closed spec fn allowances_map(&self) -> Map<(Seq<u8>, Seq<u8>), Balance> {
        self.allowance@
    }

    /// The events reported so far, oldest first.
    pub closed spec fn events_seq(&self) -> Seq<Erc20Event> {
        self.events@
    }

    /// The storage maps are well formed.
    pub closed spec fn wf(&self) -> bool {
        self.balances.wf() && self.allowance.wf()
    }

    /// The balance of `a`; an account without one has none.
    pub open spec fn balance(&self, a: AccountId) -> Balance {
        balance_in(self.balances_map(), a@)
    }

    /// The allowance that `from` gave `to`; none where it gave none.
    pub open spec fn allowance_of(&self, from: AccountId, to: AccountId) -> Balance {
        match self.allowances_map().get((from@, to@)) {
            Some(b) => b,
            None => 0,
        }
    }

    /// The balances add up to the supply.
    pub open spec fn supply_is_total(&self) -> bool {
        &&& self.balances_map().dom().finite()
        &&& total_of(self.balances_map()) == self.supply()
    }

    /// A `transfer` of `value` from `caller` to `to` is either refused or the new
    /// balance of `to` fits: `to`'s balance is read before `caller`'s is lowered.
    pub open spec fn transfer_fits(&self, caller: AccountId, to: AccountId, value: Balance) -> bool {
        self.balance(caller) < value || self.balance(to) + value <= Balance::MAX
    }

    /// Makes the token with `init_supply` units, all of them held by `caller`.
    pub fn new(caller: AccountId, init_supply: Balance) -> (c: Self)
        ensures
            c.wf(),
            c.supply() == init_supply,
            c.balances_map() == Map::<Seq<u8>, Balance>::empty().insert(caller@, init_supply),
            c.allowances_map() == Map::<(Seq<u8>, Seq<u8>), Balance>::empty(),
            c.events_seq() == seq![
                Erc20Event::Transfered { from: None, to: Some(caller), value: init_supply },
            ],
            c.supply_is_total(),
    {
        let mut balances = StorageMap::new();
        balances.insert(caller, init_supply);
        let mut events = Vec::new();
        events.push(Erc20Event::Transfered { from: None, to: Some(caller), value: init_supply });
        let c = Erc20 { total_supply: init_supply, balances, allowance: StorageMap::new(), events };
        proof {
            let m = c.balances_map();
            assert(m.dom() =~= set![caller@]);
            lemma_total_remove(m, caller@);
            assert(m.remove(caller@).dom() =~= Set::empty());
        }
        assert(c.events_seq() =~= seq![
            Erc20Event::Transfered { from: None, to: Some(caller), value: init_supply },
        ]);
        c
    }

    /// Makes the token with the default supply of 10^15 units, all held by `caller`.
    pub fn default(caller: AccountId) -> (c: Self)
        ensures
            c.wf(),
            c.supply() == 1_000_000_000_000_000u128,
            c.balances_map() == Map::<Seq<u8>, Balance>::empty().insert(
                caller@,
                1_000_000_000_000_000u128,
            ),
            c.allowances_map() == Map::<(Seq<u8>, Seq<u8>), Balance>::empty(),
            c.events_seq() == seq![
                Erc20Event::Transfered {
                    from: None,
                    to: Some(caller),
                    value: 1_000_000_000_000_000u128,
                },
            ],
            c.supply_is_total(),
    {
        Self::new(caller, 1_000_000_000_000_000)
    }

    /// The supply of the token.
    pub fn total_supply(&self) -> (r: Balance)
        ensures
            r == self.supply(),
    {
        self.total_supply
    }

    /// The balance of `owner`.
    pub fn balance_of(&self, owner: AccountId) -> (r: Balance)
        requires
            self.wf(),
        ensures
            r == self.balance(owner),
    {
        self.balance_of_or_zero(&owner)
    }

    fn balance_of_or_zero(&self, who: &AccountId) -> (r: Balance)
        requires
            self.wf(),
        ensures
            r == self.balance(*who),
    {
        match self.balances.get(who) {
            Some(b) => *b,
            None => 0,
        }
    }

    /// What `caller` has allowed `to` to spend.
    pub fn approval(&self, caller: AccountId, to: &AccountId) -> (r: Balance)
        requires
            self.wf(),
        ensures
            r == self.allowance_of(caller, *to),
    {
        self.allowance_of_or_zero(&caller, to)
    }

    fn allowance_of_or_zero(&self, from: &AccountId, to: &AccountId) -> (r: Balance)
        requires
            self.wf(),
        ensures
            r == self.allowance_of(*from, *to),
    {
        match self.allowance.get(&(*from, *to)) {
            Some(b) => *b,
            None => 0,
        }
    }

    /// `caller` sends `value` to `to`. Refused (false) where `caller` has less
    /// than `value`; otherwise `caller`'s balance goes down by `value`, then `to`'s
    /// balance as it was before becomes that plus `value`, and the move is
    /// reported.
    pub fn transfer(&mut self, caller: AccountId, to: AccountId, value: Balance) -> (r: bool)
        requires
            old(self).wf(),
            old(self).transfer_fits(caller, to, value),
        ensures
            final(self).wf(),
            final(self).supply() == old(self).supply(),
            final(self).allowances_map() == old(self).allowances_map(),
            r == (old(self).balance(caller) >= value),
            !r ==> final(self).balances_map() == old(self).balances_map(),
            !r ==> final(self).events_seq() == old(self).events_seq(),
            r ==> final(self).balances_map() == old(self).balances_map().insert(
                caller@,
                (old(self).balance(caller) - value) as Balance,
            ).insert(to@, (old(self).balance(to) + value) as Balance),
            r ==> final(self).events_seq() == old(self).events_seq().push(
                Erc20Event::Transfered { from: Some(caller), to: Some(to), value },
            ),
            old(self).supply_is_total() && caller@ != to@ ==> final(self).supply_is_total(),
    {
        let from_balance = self.balance_of_or_zero(&caller);
        if from_balance < value {
            false
        } else {
            let to_balance = self.balance_of_or_zero(&to);
            self.balances.insert(caller, from_balance - value);
            self.balances.insert(to, to_balance + value);
            self.events.push(Erc20Event::Transfered { from: Some(caller), to: Some(to), value });
            proof {
                if old(self).supply_is_total() && caller@ != to@ {
                    lemma_transfer_keeps_total(old(self).balances_map(), caller@, to@, value);
                }
            }
            true
        }
    }

    /// `caller` allows `to` to spend `value` more of its tokens; the allowance
    /// grows by `value` and the approval is reported.
    pub fn approve(&mut self, caller: AccountId, to: AccountId, value: Balance) -> (r: bool)
        requires
            old(self).wf(),
            old(self).allowance_of(caller, to) + value <= Balance::MAX,
        ensures
            final(self).wf(),
            r,
            final(self).supply() == old(self).supply(),
            final(self).balances_map() == old(self).balances_map(),
            final(self).allowances_map() == old(self).allowances_map().insert(
                (caller@, to@),
                (old(self).allowance_of(caller, to) + value) as Balance,
            ),
            final(self).events_seq() == old(self).events_seq().push(
                Erc20Event::Approved { from: caller, to, value },
            ),
    {
        let approval = self.allowance_of_or_zero(&caller, &to);
        self.allowance.insert((caller, to), approval + value);
        self.events.push(Erc20Event::Approved { from: caller, to, value });
        true
    }

    /// The events reported so far, oldest first.
    pub fn events(&self) -> (r: &Vec<Erc20Event>)
        ensures
            r@ == self.events_seq(),
    {
        &self.events
    }

    /// Where the balances add up to the supply, no account holds more than the
    /// supply, so a transfer between two different accounts always fits.
    pub proof fn lemma_balance_within_supply(&self, a: AccountId, b: AccountId, value: Balance)
        requires
            self.supply_is_total(),
        ensures
            self.balance(a) <= self.supply(),
            a@ != b@ && self.balance(a) >= value ==> self.transfer_fits(a, b, value),
    {
        let m = self.balances_map();
        lemma_total_bounds(m, a@);
        lemma_total_bounds(m, b@);
        if a@ != b@ && self.balance(a) >= value && m.contains_key(b@) {
            lemma_total_remove(m, b@);
            lemma_total_bounds(m.remove(b@), a@);
            assert(m.remove(b@).contains_key(a@) <==> m.contains_key(a@));
            if m.contains_key(a@) {
                assert(m.remove(b@)[a@] == m[a@]);
            }
        }
    }
}

} // verus!

//! The kitties pallet: kitties are created from randomness, bred from two parents,
//! transferred, offered for sale and bought. Every account's kitties are kept in
//! a linked list in storage.
use vstd::prelude::*;

use crate::dna::{blake2_128, child_dna, random_value, seed_payload, spec_child_dna, Kitty};
use crate::linked_item::{append, appended, holds_list, remove, removed, LinkedItem, ListMap, ListStorage};
use crate::ownership::{
    lemma_ownership_append, lemma_ownership_empty, lemma_ownership_remove, owned_of, ownership,
};
use crate::storage::StorageMap;

verus! {

/// Why a call of the pallet was refused.
#[derive(Clone, Copy, Debug, PartialEq, Eq)]
pub enum KittyError {
    KittiesCountOverflow,
    InvalidKittyId,
    RequireDifferentParent,
    RequireOwner,
    KittyIndexNotExist,
    NotForSale,
    PriceTooLow,
    /// The currency refused the payment.
    Currency(BalanceError),
}

/// Why a currency refused a transfer.
#[derive(Clone, Copy, Debug, PartialEq, Eq)]
pub enum BalanceError {
    InsufficientBalance,
    ExistentialDeposit,
    KeepAlive,
    Overflow,
}

/// What the pallet reports after a successful call.
#[derive(Clone, Copy, Debug, PartialEq, Eq)]
pub enum KittyEvent {
    /// A kitty is created. (owner, kitty_id)
    Created(u64, u32),
    /// A kitty is transferred. (from, to, kitty_id)
    Transferred(u64, u64, u32),
    /// A kitty is available for sale. (owner, kitty_id, price)
    Ask(u64, u32, Option<u64>),
    /// A kitty is sold. (from, to, kitty_id, price)
    Sold(u64, u64, u32, u64),
}

/// The currency that buyers pay with. The runtime that uses the pallet provides it.
pub trait Currency: Sized {
    /// `after` is this currency once `value` has moved from `from` to `to`.
    spec fn paid(&self, from: u64, to: u64, value: u64, after: &Self) -> bool;

    /// This currency refuses to move `value` from `from` to `to`.
    spec fn refuses(&self, from: u64, to: u64, value: u64) -> bool;

    /// Moves `value` from `from` to `to`, keeping `from` alive, or refuses and
    /// changes nothing.
    fn transfer(&mut self, from: u64, to: u64, value: u64) -> (r: Result<(), BalanceError>)
        ensures
            r is Err <==> old(self).refuses(from, to, value),
            r is Ok ==> old(self).paid(from, to, value, &*final(self)),
            r is Err ==> *final(self) == *old(self),
    ;
}

/// The storage of the pallet.
pub struct Module {
    kitties: StorageMap<u32, Kitty>,
    kitties_count: u32,
    owner_kitties: ListStorage,
    kitty_owners: StorageMap<u32, u64>,
    kitty_prices: StorageMap<u32, u64>,
    owned: Ghost<Map<u64, Seq<u32>>>,
}

/// The kitty that `create` makes for `sender`.
pub open spec fn created_kitty(seed: [u8; 32], sender: u64, extrinsic_index: Option<u32>) -> Seq<u8> {
    blake2_128(seed_payload(seed@, sender, extrinsic_index))
}

impl Module {
    /// The kitties, by index.
    pub closed spec fn kitties_map(&self) -> Map<u32, Kitty> {
        self.kitties@
    }

    /// The index that the next kitty gets.
    pub closed spec fn count(&self) -> u32 {
        self.kitties_count
    }

    /// The owner of each kitty.
    pub closed spec fn owners(&self) -> Map<u32, u64> {
        self.kitty_owners@
    }

    /// The price of each kitty that is for sale.
    pub closed spec fn prices(&self) -> Map<u32, u64> {
        self.kitty_prices@
    }

    /// The storage of the owners' linked lists.
    pub closed spec fn lists(&self) -> ListMap {
        self.owner_kitties@
    }

    /// The kitties that `a` owns, in the order that `a` acquired them.
    pub closed spec fn owned_kitties(&self, a: u64) -> Seq<u32> {
        owned_of(self.owned@, a)
    }

    closed spec fn wf_with_unowned(&self, unowned: Option<u32>) -> bool {
        &&& self.kitties.wf()
        &&& self.owner_kitties.wf()
        &&& self.kitty_owners.wf()
        &&& self.kitty_prices.wf()
        &&& forall|k: u32| #[trigger] self.kitties@.contains_key(k) ==> k < self.kitties_count
        &&& forall|k: u32| #[trigger]
            self.kitty_owners@.contains_key(k) <==> (self.kitties@.contains_key(k) && Some(k)
                != unowned)
        &&& (unowned matches Some(u) ==> self.kitties@.contains_key(u))
        &&& forall|k: u32| #[trigger]
            self.kitty_prices@.contains_key(k) ==> self.kitties@.contains_key(k)
        &&& ownership(self.owner_kitties@, self.kitty_owners@, self.owned@)
    }

    /// The storage maps are well formed (no key twice).
    pub closed spec fn storage_wf(&self) -> bool {
        &&& self.kitties.wf()
        &&& self.owner_kitties.wf()
        &&& self.kitty_owners.wf()
        &&& self.kitty_prices.wf()
    }

    /// The storage is consistent: every kitty's index is below the count, each
    /// kitty has an owner and only kitties have prices, and every account's linked
    /// list holds exactly the kitties it owns.
    pub closed spec fn wf(&self) -> bool {
        self.wf_with_unowned(None)
    }

    /// The kitties are exactly those with an index below the count.
    pub open spec fn numbered(&self) -> bool {
        forall|k: u32| #[trigger] self.kitties_map().contains_key(k) <==> k < self.count()
    }

    /// As `wf`, except that kitty `id` exists but has no owner yet.
    pub closed spec fn wf_awaiting_owner(&self, id: u32) -> bool {
        self.wf_with_unowned(Some(id))
    }

    /// The same storage apart from the owners, their lists and the prices.
    pub open spec fn same_kitties(&self, other: &Self) -> bool {
        &&& self.kitties_map() == other.kitties_map()
        &&& self.count() == other.count()
    }

    /// Everything that the pallet stores, unchanged.
    pub open spec fn unchanged(&self, other: &Self) -> bool {
        &&& self.same_kitties(other)
        &&& self.owners() == other.owners()
        &&& self.prices() == other.prices()
        &&& self.lists() == other.lists()
        &&& forall|a: u64| #[trigger] self.owned_kitties(a) == other.owned_kitties(a)
    }

    /// This storage is `old` after kitty `kitty_id` moved from `owner` to the end of
    /// the list of `to`; only the owners and their lists changed.
    pub open spec fn transferred_from(&self, old: &Self, owner: u64, to: u64, kitty_id: u32) -> bool {
        &&& self.same_kitties(old)
        &&& self.lists() == appended(removed(old.lists(), owner, kitty_id), to, kitty_id)
        &&& self.owners() == old.owners().insert(kitty_id, to)
        &&& self.owned_kitties(to) == (if to == owner {
            old.owned_kitties(owner).remove_value(kitty_id)
        } else {
            old.owned_kitties(to)
        }).push(kitty_id)
        &&& to != owner ==> self.owned_kitties(owner) == old.owned_kitties(owner).remove_value(
            kitty_id,
        )
        &&& forall|a: u64|
            a != owner && a != to ==> #[trigger] self.owned_kitties(a) == old.owned_kitties(a)
    }

    /// What `breed` checks before it breeds: both parents exist and differ, and
    /// there is room for another kitty.
    pub open spec fn breed_check(&self, kitty_id_1: u32, kitty_id_2: u32) -> Result<u32, KittyError> {
        if !self.kitties_map().contains_key(kitty_id_1) || !self.kitties_map().contains_key(
            kitty_id_2,
        ) {
            Err(KittyError::InvalidKittyId)
        } else if kitty_id_1 == kitty_id_2 {
            Err(KittyError::RequireDifferentParent)
        } else if self.count() == u32::MAX {
            Err(KittyError::KittiesCountOverflow)
        } else {
            Ok(self.count())
        }
    }

    /// What `transfer` and `ask` check: the kitty exists and `sender` owns it.
    pub open spec fn owner_check(&self, sender: u64, kitty_id: u32) -> Result<(), KittyError> {
        if !self.kitties_map().contains_key(kitty_id) {
            Err(KittyError::KittyIndexNotExist)
        } else if self.owners().get(kitty_id) != Some(sender) {
            Err(KittyError::RequireOwner)
        } else {
            Ok(())
        }
    }

    /// What `buy` checks before the payment: the kitty has an owner and a price,
    /// and the offer is at least that price. Gives the seller and the asking price.
    pub open spec fn purchase_check(&self, kitty_id: u32, price: u64) -> Result<(u64, u64), KittyError> {
        if !self.owners().contains_key(kitty_id) {
            Err(KittyError::InvalidKittyId)
        } else if !self.prices().contains_key(kitty_id) {
            Err(KittyError::NotForSale)
        } else if self.prices()[kitty_id] > price {
            Err(KittyError::PriceTooLow)
        } else {
            Ok((self.owners()[kitty_id], self.prices()[kitty_id]))
        }
    }

    /// Under a consistent storage, `a` has an entry for kitty `k` in its list
    /// exactly when `a` owns `k`.
    pub proof fn lemma_owner_entry(&self, a: u64, k: u32)
        requires
            self.wf(),
        ensures
            self.lists().contains_key((a, Some(k))) <==> self.owners().get(k) == Some(a),
    {
        let s = owned_of(self.owned@, a);
        assert(s.contains(k) <==> (self.kitty_owners@.contains_key(k) && self.kitty_owners@[k]
            == a));
        if s.contains(k) {
            let i = choose|i: int| 0 <= i < s.len() && s[i] == k;
            assert(self.owner_kitties@.get((a, Some(s[i]))) is Some);
        }
    }

    /// Under a consistent storage, every kitty's index is below the count, and a
    /// kitty has an owner exactly when it exists.
    pub proof fn lemma_kitties_numbered(&self, k: u32)
        requires
            self.wf(),
        ensures
            self.kitties_map().contains_key(k) ==> k < self.count(),
            self.owners().contains_key(k) <==> self.kitties_map().contains_key(k),
            self.prices().contains_key(k) ==> self.kitties_map().contains_key(k),
    {
    }

    /// A consistent storage has well-formed storage maps.
    pub proof fn lemma_wf_storage_wf(&self)
        requires
            self.wf(),
        ensures
            self.storage_wf(),
    {
    }

    /// The accounts whose lists hold kitty `k`.
    pub open spec fn listers(&self, k: u32) -> Set<u64> {
        Set::new(|a: u64| self.owned_kitties(a).contains(k))
    }

    /// Where the lists agree with the owners, a kitty with an owner is listed by
    /// that owner alone, nothing else is listed, and no list holds a kitty twice.
    proof fn lemma_listers_of_owners(m: &Self)
        requires
            ownership(m.owner_kitties@, m.kitty_owners@, m.owned@),
        ensures
            forall|k: u32| #[trigger]
                m.listers(k) == (if m.owners().contains_key(k) {
                    set![m.owners()[k]]
                } else {
                    Set::<u64>::empty()
                }),
            forall|a: u64| #[trigger] m.owned_kitties(a).no_duplicates(),
    {
        assert forall|a: u64| #[trigger] m.owned_kitties(a).no_duplicates() by {
            assert(holds_list(m.owner_kitties@, a, owned_of(m.owned@, a)));
        }
        assert forall|k: u32| #[trigger]
            m.listers(k) == (if m.owners().contains_key(k) {
                set![m.owners()[k]]
            } else {
                Set::<u64>::empty()
            }) by {
            assert forall|a: u64| m.listers(k).contains(a) <==> (m.owners().contains_key(k)
                && m.owners()[k] == a) by {
                assert(owned_of(m.owned@, a).contains(k) <==> (m.kitty_owners@.contains_key(k)
                    && m.kitty_owners@[k] == a));
            }
            assert(m.listers(k) =~= (if m.owners().contains_key(k) {
                set![m.owners()[k]]
            } else {
                Set::<u64>::empty()
            }));
        }
    }

    /// After a transfer out of a consistent storage, the lists still agree with
    /// the owners.
    proof fn lemma_transfer_ownership(before: &Self, after: &Self, owner: u64, to: u64, kitty_id: u32)
        requires
            before.wf(),
            before.owned_kitties(owner).contains(kitty_id),
            after.transferred_from(before, owner, to, kitty_id),
        ensures
            ownership(after.owner_kitties@, after.kitty_owners@, after.owned@),
            before.owners().contains_key(kitty_id),
    {
        let owners1 = before.kitty_owners@.remove(kitty_id);
        let owned1 = before.owned@.insert(owner, owned_of(before.owned@, owner).remove_value(kitty_id));
        let lists1 = removed(before.owner_kitties@, owner, kitty_id);
        assert(owned_of(before.owned@, owner).contains(kitty_id) <==> (
            before.kitty_owners@.contains_key(kitty_id) && before.kitty_owners@[kitty_id] == owner));
        lemma_ownership_remove(before.owner_kitties@, before.kitty_owners@, before.owned@, owner, kitty_id);
        lemma_ownership_append(lists1, owners1, owned1, to, kitty_id);
        let owned2 = owned1.insert(to, owned_of(owned1, to).push(kitty_id));
        let owners2 = owners1.insert(kitty_id, to);
        assert(owners2 =~= after.kitty_owners@);
        assert forall|a: u64| #[trigger] owned_of(owned2, a) == owned_of(after.owned@, a) by {
            if a != to && a != owner {
                assert(after.owned_kitties(a) == before.owned_kitties(a));
            }
        }
        assert forall|a: u64| holds_list(after.owner_kitties@, a, #[trigger] owned_of(after.owned@, a)) by {
            assert(owned_of(owned2, a) == owned_of(after.owned@, a));
        }
        assert forall|a: u64, k: u32|
            #![trigger owned_of(after.owned@, a).contains(k)]
            owned_of(after.owned@, a).contains(k) <==> (after.kitty_owners@.contains_key(k)
                && after.kitty_owners@[k] == a) by {
            assert(owned_of(owned2, a) == owned_of(after.owned@, a));
            assert(owned_of(owned2, a).contains(k) <==> (owners2.contains_key(k) && owners2[k] == a));
        }
    }

    /// Moving a kitty keeps every kitty in exactly one list: before and after
    /// `do_transfer`, a kitty with an owner is listed by its owner alone and
    /// nothing else is listed, each list holds a kitty at most once, the same
    /// kitties have owners, and so every kitty is listed as many times as before.
    pub proof fn lemma_transfer_keeps_one_list(
        before: &Self,
        after: &Self,
        owner: u64,
        to: u64,
        kitty_id: u32,
    )
        requires
            before.wf(),
            before.owned_kitties(owner).contains(kitty_id),
            after.transferred_from(before, owner, to, kitty_id),
        ensures
            forall|k: u32| #[trigger]
                before.listers(k) == (if before.owners().contains_key(k) {
                    set![before.owners()[k]]
                } else {
                    Set::<u64>::empty()
                }),
            forall|k: u32| #[trigger]
                after.listers(k) == (if after.owners().contains_key(k) {
                    set![after.owners()[k]]
                } else {
                    Set::<u64>::empty()
                }),
            after.owners().dom() == before.owners().dom(),
            after.owners().dom() == after.kitties_map().dom(),
            after.owners()[kitty_id] == to,
            forall|a: u64| #[trigger] after.owned_kitties(a).no_duplicates(),
            forall|k: u32| #[trigger] after.listers(k).len() == before.listers(k).len(),
    {
        Self::lemma_transfer_ownership(before, after, owner, to, kitty_id);
        Self::lemma_listers_of_owners(before);
        Self::lemma_listers_of_owners(after);
        assert(after.owners().dom() =~= before.owners().dom());
        assert(after.owners().dom() =~= after.kitties_map().dom());
        assert forall|k: u32| #[trigger] after.listers(k).len() == before.listers(k).len() by {
            assert(set![after.owners()[k]] == Set::<u64>::empty().insert(after.owners()[k]));
            assert(set![before.owners()[k]] == Set::<u64>::empty().insert(before.owners()[k]));
        }
    }

    /// Under a consistent storage, every account's linked list holds exactly the
    /// kitties it owns, and a kitty is in an account's list exactly when that account
    /// owns it.
    pub proof fn lemma_lists_hold_owned(&self, a: u64, k: u32)
        requires
            self.wf(),
        ensures
            holds_list(self.lists(), a, self.owned_kitties(a)),
            self.owned_kitties(a).contains(k) <==> self.owners().get(k) == Some(a),
    {
        assert(holds_list(self.owner_kitties@, a, owned_of(self.owned@, a)));
        assert(owned_of(self.owned@, a).contains(k) <==> (self.kitty_owners@.contains_key(k)
            && self.kitty_owners@[k] == a));
    }

    /// A pallet with nothing stored.
    pub fn new() -> (m: Self)
        ensures
            m.wf(),
            m.storage_wf(),
            m.kitties_map() == Map::<u32, Kitty>::empty(),
            m.count() == 0,
            m.owners() == Map::<u32, u64>::empty(),
            m.prices() == Map::<u32, u64>::empty(),
            m.lists() == ListMap::empty(),
            forall|a: u64| #[trigger] m.owned_kitties(a) == Seq::<u32>::empty(),
            m.numbered(),
    {
        proof {
            lemma_ownership_empty();
        }
        Module {
            kitties: StorageMap::new(),
            kitties_count: 0,
            owner_kitties: StorageMap::new(),
            kitty_owners: StorageMap::new(),
            kitty_prices: StorageMap::new(),
            owned: Ghost(Map::empty()),
        }
    }

    /// The kitty with index `id`, if there is one.
    pub fn kitties(&self, id: u32) -> (r: Option<Kitty>)
        requires
            self.storage_wf(),
        ensures
            r == self.kitties_map().get(id),
    {
        match self.kitties.get(&id) {
            Some(k) => Some(*k),
            None => None,
        }
    }

    /// The number of kitties made so far, which is the index of the next one.
    pub fn kitties_count(&self) -> (r: u32)
        ensures
            r == self.count(),
    {
        self.kitties_count
    }

    /// The link stored under `(owner, index)` in the owners' lists.
    pub fn owner_kitties(&self, owner: u64, index: Option<u32>) -> (r: Option<LinkedItem<u32>>)
        requires
            self.storage_wf(),
        ensures
            r == self.lists().get((owner, index)),
    {
        match self.owner_kitties.get(&(owner, index)) {
            Some(item) => Some(*item),
            None => None,
        }
    }

    /// The owner of kitty `id`, if it exists.
    pub fn kitty_owner(&self, id: u32) -> (r: Option<u64>)
        requires
            self.storage_wf(),
        ensures
            r == self.owners().get(id),
    {
        match self.kitty_owners.get(&id) {
            Some(o) => Some(*o),
            None => None,
        }
    }

    /// The price of kitty `id`, if it is for sale.
    pub fn kitty_price(&self, id: u32) -> (r: Option<u64>)
        requires
            self.storage_wf(),
        ensures
            r == self.prices().get(id),
    {
        match self.kitty_prices.get(&id) {
            Some(p) => Some(*p),
            None => None,
        }
    }

    /// The index for a new kitty, unless the count can grow no further.
    pub fn next_kitty_id(&self) -> (r: Result<u32, KittyError>)
        ensures
            r == (if self.count() == u32::MAX {
                Err(KittyError::KittiesCountOverflow)
            } else {
                Ok(self.count())
            }),
    {
        if self.kitties_count == u32::MAX {
            return Err(KittyError::KittiesCountOverflow);
        }
        Ok(self.kitties_count)
    }

    /// Hands kitty `kitty_id` to `owner`: it goes at the end of the owner's list
    /// and `owner` is recorded as its owner, whatever was recorded before. Where
    /// the storage was consistent but for this kitty, which exists and has no
    /// owner, it is consistent afterwards.
    pub fn insert_owned_kitty(&mut self, owner: u64, kitty_id: u32)
        requires
            old(self).storage_wf(),
        ensures
            final(self).storage_wf(),
            final(self).same_kitties(&*old(self)),
            final(self).prices() == old(self).prices(),
            final(self).lists() == appended(old(self).lists(), owner, kitty_id),
            final(self).owners() == old(self).owners().insert(kitty_id, owner),
            final(self).owned_kitties(owner) == old(self).owned_kitties(owner).push(kitty_id),
            forall|a: u64|
                a != owner ==> #[trigger] final(self).owned_kitties(a) == old(self).owned_kitties(a),
            old(self).wf_awaiting_owner(kitty_id) ==> final(self).wf(),
    {
        proof {
            if old(self).wf_awaiting_owner(kitty_id) {
                lemma_ownership_append(
                    self.owner_kitties@,
                    self.kitty_owners@,
                    self.owned@,
                    owner,
                    kitty_id,
                );
            }
        }
        append(&mut self.owner_kitties, owner, kitty_id);
        self.kitty_owners.insert(kitty_id, owner);
        self.owned = Ghost(self.owned@.insert(owner, owned_of(self.owned@, owner).push(kitty_id)));
        assert forall|a: u64| a != owner implies #[trigger] owned_of(self.owned@, a) == owned_of(
            old(self).owned@,
            a,
        ) by {}
    }

    /// Stores `kitty` under `kitty_id`, moves the count just past it, and gives the
    /// kitty to `owner`. Where the storage was consistent and the index is not
    /// below the count, it is consistent afterwards.
    pub fn insert_kitty(&mut self, owner: u64, kitty_id: u32, kitty: Kitty)
        requires
            old(self).storage_wf(),
            kitty_id < u32::MAX,
        ensures
            final(self).storage_wf(),
            final(self).kitties_map() == old(self).kitties_map().insert(kitty_id, kitty),
            final(self).count() == kitty_id + 1,
            final(self).prices() == old(self).prices(),
            final(self).lists() == appended(old(self).lists(), owner, kitty_id),
            final(self).owners() == old(self).owners().insert(kitty_id, owner),
            final(self).owned_kitties(owner) == old(self).owned_kitties(owner).push(kitty_id),
            forall|a: u64|
                a != owner ==> #[trigger] final(self).owned_kitties(a) == old(self).owned_kitties(a),
            old(self).wf() && kitty_id >= old(self).count() ==> final(self).wf(),
    {
        self.kitties.insert(kitty_id, kitty);
        self.kitties_count = kitty_id + 1;
        proof {
            if old(self).wf() && kitty_id >= old(self).count() {
                assert(!old(self).kitties@.contains_key(kitty_id));
                assert(self.wf_awaiting_owner(kitty_id));
            }
        }
        self.insert_owned_kitty(owner, kitty_id);
    }

    /// Moves kitty `kitty_id` from the list of `owner` to the end of the list of
    /// `to`, and records `to` as its owner. Where the storage was consistent and
    /// `owner` owned the kitty, it is consistent afterwards.
    pub fn do_transfer(&mut self, owner: u64, to: u64, kitty_id: u32)
        requires
            old(self).storage_wf(),
        ensures
            final(self).storage_wf(),
            final(self).transferred_from(&*old(self), owner, to, kitty_id),
            final(self).prices() == old(self).prices(),
            old(self).wf() && old(self).owners().get(kitty_id) == Some(owner) ==> final(self).wf(),
    {
        self.take_from_owner(owner, kitty_id);
        self.insert_owned_kitty(to, kitty_id);
        assert(self.kitty_owners@ =~= old(self).kitty_owners@.insert(kitty_id, to));
    }

    /// Takes kitty `kitty_id` out of the list of `owner` and forgets its owner.
    fn take_from_owner(&mut self, owner: u64, kitty_id: u32)
        requires
            old(self).storage_wf(),
        ensures
            final(self).storage_wf(),
            final(self).same_kitties(&*old(self)),
            final(self).prices() == old(self).prices(),
            final(self).lists() == removed(old(self).lists(), owner, kitty_id),
            final(self).owners() == old(self).owners().remove(kitty_id),
            final(self).owned_kitties(owner) == old(self).owned_kitties(owner).remove_value(kitty_id),
            forall|a: u64|
                a != owner ==> #[trigger] final(self).owned_kitties(a) == old(self).owned_kitties(a),
            old(self).wf() && old(self).owners().get(kitty_id) == Some(owner)
                ==> final(self).wf_awaiting_owner(kitty_id),
    {
        proof {
            if old(self).wf() && old(self).owners().get(kitty_id) == Some(owner) {
                lemma_ownership_remove(
                    self.owner_kitties@,
                    self.kitty_owners@,
                    self.owned@,
                    owner,
                    kitty_id,
                );
            }
        }
        remove(&mut self.owner_kitties, owner, kitty_id);
        self.kitty_owners.remove(&kitty_id);
        self.owned = Ghost(
            self.owned@.insert(owner, owned_of(self.owned@, owner).remove_value(kitty_id)),
        );
        assert forall|a: u64| a != owner implies #[trigger] owned_of(self.owned@, a) == owned_of(
            old(self).owned@,
            a,
        ) by {}
    }

    /// Creates a kitty for `sender`, its DNA drawn from the random seed, the sender
    /// and the extrinsic index.
    pub fn create(&mut self, sender: u64, seed: [u8; 32], extrinsic_index: Option<u32>) -> (r:
        Result<KittyEvent, KittyError>)
        requires
            old(self).wf(),
        ensures
            final(self).wf(),
            final(self).storage_wf(),
            old(self).numbered() ==> final(self).numbered(),
            old(self).count() == u32::MAX ==> r == Err::<KittyEvent, KittyError>(
                KittyError::KittiesCountOverflow,
            ) && final(self).unchanged(&*old(self)),
            old(self).count() < u32::MAX ==> {
                let id = old(self).count();
                &&& r == Ok::<KittyEvent, KittyError>(KittyEvent::Created(sender, id))
                &&& final(self).count() == id + 1
                &&& final(self).kitties_map().dom() == old(self).kitties_map().dom().insert(id)
                &&& final(self).kitties_map()[id].0@ == created_kitty(seed, sender, extrinsic_index)
                &&& forall|k: u32|
                    k != id ==> #[trigger] final(self).kitties_map().get(k) == old(
                        self,
                    ).kitties_map().get(k)
                &&& final(self).prices() == old(self).prices()
                &&& final(self).lists() == appended(old(self).lists(), sender, id)
                &&& final(self).owners() == old(self).owners().insert(id, sender)
                &&& final(self).owned_kitties(sender) == old(self).owned_kitties(sender).push(id)
                &&& forall|a: u64|
                    a != sender ==> #[trigger] final(self).owned_kitties(a) == old(
                        self,
                    ).owned_kitties(a)
            },
    {
        let kitty_id = match self.next_kitty_id() {
            Ok(id) => id,
            Err(e) => return Err(e),
        };
        let dna = random_value(&seed, sender, extrinsic_index);
        let kitty = Kitty(dna);
        self.insert_kitty(sender, kitty_id, kitty);
        Ok(KittyEvent::Created(sender, kitty_id))
    }

    /// Breeds a new kitty for `sender` from two different parents: each byte of its
    /// DNA mixes the parents' bytes under 16 random selector bytes drawn from the
    /// seed, the sender and the extrinsic index. Gives the new kitty's index.
    pub fn do_breed(
        &mut self,
        sender: u64,
        kitty_id_1: u32,
        kitty_id_2: u32,
        seed: [u8; 32],
        extrinsic_index: Option<u32>,
    ) -> (r: Result<u32, KittyError>)
        requires
            old(self).wf(),
        ensures
            final(self).wf(),
            final(self).storage_wf(),
            old(self).numbered() ==> final(self).numbered(),
            r == old(self).breed_check(kitty_id_1, kitty_id_2),
            r is Err ==> final(self).unchanged(&*old(self)),
            r matches Ok(id) ==> {
                &&& final(self).count() == id + 1
                &&& final(self).kitties_map().dom() == old(self).kitties_map().dom().insert(id)
                &&& final(self).kitties_map()[id].0@ == spec_child_dna(
                    old(self).kitties_map()[kitty_id_1].0@,
                    old(self).kitties_map()[kitty_id_2].0@,
                    created_kitty(seed, sender, extrinsic_index),
                )
                &&& forall|k: u32|
                    k != id ==> #[trigger] final(self).kitties_map().get(k) == old(
                        self,
                    ).kitties_map().get(k)
                &&& final(self).prices() == old(self).prices()
                &&& final(self).lists() == appended(old(self).lists(), sender, id)
                &&& final(self).owners() == old(self).owners().insert(id, sender)
                &&& final(self).owned_kitties(sender) == old(self).owned_kitties(sender).push(id)
                &&& forall|a: u64|
                    a != sender ==> #[trigger] final(self).owned_kitties(a) == old(
                        self,
                    ).owned_kitties(a)
            },
    {
        let kitty1 = match self.kitties(kitty_id_1) {
            Some(k) => k,
            None => return Err(KittyError::InvalidKittyId),
        };
        let kitty2 = match self.kitties(kitty_id_2) {
            Some(k) => k,
            None => return Err(KittyError::InvalidKittyId),
        };
        if kitty_id_1 == kitty_id_2 {
            return Err(KittyError::RequireDifferentParent);
        }
        let kitty_id = match self.next_kitty_id() {
            Ok(id) => id,
            Err(e) => return Err(e),
        };
        let selector = random_value(&seed, sender, extrinsic_index);
        let new_dna = child_dna(&kitty1.0, &kitty2.0, &selector);
        self.insert_kitty(sender, kitty_id, Kitty(new_dna));
        Ok(kitty_id)
    }

    /// Breeds a kitty for `sender` (see `do_breed`) and reports its creation.
    pub fn breed(
        &mut self,
        sender: u64,
        kitty_id_1: u32,
        kitty_id_2: u32,
        seed: [u8; 32],
        extrinsic_index: Option<u32>,
    ) -> (r: Result<KittyEvent, KittyError>)
        requires
            old(self).wf(),
        ensures
            final(self).wf(),
            final(self).storage_wf(),
            old(self).numbered() ==> final(self).numbered(),
            r == (match old(self).breed_check(kitty_id_1, kitty_id_2) {
                Ok(id) => Ok(KittyEvent::Created(sender, id)),
                Err(e) => Err(e),
            }),
            r is Err ==> final(self).unchanged(&*old(self)),
            r is Ok ==> {
                let id = old(self).count();
                &&& final(self).count() == id + 1
                &&& final(self).kitties_map().dom() == old(self).kitties_map().dom().insert(id)
                &&& final(self).kitties_map()[id].0@ == spec_child_dna(
                    old(self).kitties_map()[kitty_id_1].0@,
                    old(self).kitties_map()[kitty_id_2].0@,
                    created_kitty(seed, sender, extrinsic_index),
                )
                &&& forall|k: u32|
                    k != id ==> #[trigger] final(self).kitties_map().get(k) == old(
                        self,
                    ).kitties_map().get(k)
                &&& final(self).prices() == old(self).prices()
                &&& final(self).lists() == appended(old(self).lists(), sender, id)
                &&& final(self).owners() == old(self).owners().insert(id, sender)
                &&& final(self).owned_kitties(sender) == old(self).owned_kitties(sender).push(id)
                &&& forall|a: u64|
                    a != sender ==> #[trigger] final(self).owned_kitties(a) == old(
                        self,
                    ).owned_kitties(a)
            },
    {
        match self.do_breed(sender, kitty_id_1, kitty_id_2, seed, extrinsic_index) {
            Ok(id) => Ok(KittyEvent::Created(sender, id)),
            Err(e) => Err(e),
        }
    }

    /// Transfers kitty `kitty_id` from its owner `sender` to `to`.
    pub fn transfer(&mut self, sender: u64, to: u64, kitty_id: u32) -> (r: Result<
        KittyEvent,
        KittyError,
    >)
        requires
            old(self).wf(),
        ensures
            final(self).wf(),
            final(self).storage_wf(),
            r == (match old(self).owner_check(sender, kitty_id) {
                Ok(_) => Ok(KittyEvent::Transferred(sender, to, kitty_id)),
                Err(e) => Err(e),
            }),
            r is Err ==> final(self).unchanged(&*old(self)),
            r is Ok ==> final(self).transferred_from(&*old(self), sender, to, kitty_id)
                && final(self).prices() == old(self).prices(),
    {
        if !self.kitties.contains_key(&kitty_id) {
            return Err(KittyError::KittyIndexNotExist);
        }
        proof {
            self.lemma_owner_entry(sender, kitty_id);
        }
        if !self.owner_kitties.contains_key(&(sender, Some(kitty_id))) {
            return Err(KittyError::RequireOwner);
        }
        self.do_transfer(sender, to, kitty_id);
        Ok(KittyEvent::Transferred(sender, to, kitty_id))
    }

    /// Puts kitty `kitty_id` of `sender` up for sale at `price`, or withdraws it
    /// from sale where `price` is `None`.
    pub fn ask(&mut self, sender: u64, kitty_id: u32, price: Option<u64>) -> (r: Result<
        KittyEvent,
        KittyError,
    >)
        requires
            old(self).wf(),
        ensures
            final(self).wf(),
            final(self).storage_wf(),
            r == (match old(self).owner_check(sender, kitty_id) {
                Ok(_) => Ok(KittyEvent::Ask(sender, kitty_id, price)),
                Err(e) => Err(e),
            }),
            r is Err ==> final(self).unchanged(&*old(self)),
            r is Ok ==> {
                &&& final(self).same_kitties(&*old(self))
                &&& final(self).owners() == old(self).owners()
                &&& final(self).lists() == old(self).lists()
                &&& forall|a: u64| #[trigger]
                    final(self).owned_kitties(a) == old(self).owned_kitties(a)
                &&& final(self).prices() == match price {
                    Some(p) => old(self).prices().insert(kitty_id, p),
                    None => old(self).prices().remove(kitty_id),
                }
            },
    {
        if !self.kitties.contains_key(&kitty_id) {
            return Err(KittyError::KittyIndexNotExist);
        }
        proof {
            self.lemma_owner_entry(sender, kitty_id);
        }
        if !self.owner_kitties.contains_key(&(sender, Some(kitty_id))) {
            return Err(KittyError::RequireOwner);
        }
        match price {
            Some(p) => self.kitty_prices.insert(kitty_id, p),
            None => {
                self.kitty_prices.remove(&kitty_id);
            },
        }
        Ok(KittyEvent::Ask(sender, kitty_id, price))
    }

    /// Settles a purchase of kitty `kitty_id` by `buyer` at `price` once the
    /// payment has been attempted: a refused payment changes nothing; a made one
    /// sets the kitty's price to what was paid and moves the kitty to the buyer.
    pub fn complete_purchase(
        &mut self,
        buyer: u64,
        kitty_id: u32,
        price: u64,
        payment: Result<(), BalanceError>,
    ) -> (r: Result<KittyEvent, KittyError>)
        requires
            old(self).wf(),
            old(self).purchase_check(kitty_id, price) is Ok,
        ensures
            final(self).wf(),
            final(self).storage_wf(),
            ({
                let (seller, asking) = old(self).purchase_check(kitty_id, price)->Ok_0;
                match payment {
                    Err(e) => r == Err::<KittyEvent, KittyError>(KittyError::Currency(e))
                        && final(self).unchanged(&*old(self)),
                    Ok(_) => {
                        &&& r == Ok::<KittyEvent, KittyError>(
                            KittyEvent::Sold(seller, buyer, kitty_id, asking),
                        )
                        &&& final(self).transferred_from(&*old(self), seller, buyer, kitty_id)
                        &&& final(self).prices() == old(self).prices().insert(kitty_id, price)
                    },
                }
            }),
    {
        let owner = match self.kitty_owners.get(&kitty_id) {
            Some(o) => *o,
            None => return Err(KittyError::InvalidKittyId),
        };
        let kitty_price = match self.kitty_prices.get(&kitty_id) {
            Some(p) => *p,
            None => return Err(KittyError::NotForSale),
        };
        if let Err(e) = payment {
            return Err(KittyError::Currency(e));
        }
        self.kitty_prices.insert(kitty_id, price);
        self.do_transfer(owner, buyer, kitty_id);
        Ok(KittyEvent::Sold(owner, buyer, kitty_id, kitty_price))
    }

    /// `buyer` buys kitty `kitty_id`, offering `price`: once the checks pass, the
    /// price is paid to the seller with `currency`, and the purchase is settled.
    pub fn buy<C: Currency>(&mut self, buyer: u64, kitty_id: u32, price: u64, currency: &mut C) -> (r:
        Result<KittyEvent, KittyError>)
        requires
            old(self).wf(),
        ensures
            final(self).wf(),
            final(self).storage_wf(),
            match old(self).purchase_check(kitty_id, price) {
                Err(e) => {
                    &&& r == Err::<KittyEvent, KittyError>(e)
                    &&& final(self).unchanged(&*old(self))
                    &&& *final(currency) == *old(currency)
                },
                Ok((seller, asking)) => if old(currency).refuses(buyer, seller, price) {
                    &&& r matches Err(KittyError::Currency(_))
                    &&& final(self).unchanged(&*old(self))
                    &&& *final(currency) == *old(currency)
                } else {
                    &&& r == Ok::<KittyEvent, KittyError>(
                        KittyEvent::Sold(seller, buyer, kitty_id, asking),
                    )
                    &&& old(currency).paid(buyer, seller, price, &*final(currency))
                    &&& final(self).transferred_from(&*old(self), seller, buyer, kitty_id)
                    &&& final(self).prices() == old(self).prices().insert(kitty_id, price)
                },
            },
    {
        let owner = match self.kitty_owner(kitty_id) {
            Some(o) => o,
            None => return Err(KittyError::InvalidKittyId),
        };
        let kitty_price = match self.kitty_price(kitty_id) {
            Some(p) => p,
            None => return Err(KittyError::NotForSale),
        };
        if kitty_price > price {
            return Err(KittyError::PriceTooLow);
        }
        let payment = currency.transfer(buyer, owner, price);
        self.complete_purchase(buyer, kitty_id, price, payment)
    }
}

} // verus!

//! The first version of the kitties pallet: kitties are created and bred, and
//! every account's kitties are numbered 0, 1, 2, ... in the order it got them.
use vstd::prelude::*;

use crate::dna::{child_dna, random_value, spec_child_dna, Kitty};
use crate::kitties::{created_kitty, KittyError};
use crate::storage::StorageMap;

verus! {

/// The storage of the pallet.
pub struct Module {
    kitties: StorageMap<u32, Kitty>,
    kitties_count: u32,
    owner_kitties: StorageMap<(u64, u32), u32>,
    owner_kitties_count: StorageMap<u64, u32>,
}

/// The number of kitties that `a` owns, where a missing entry counts as none.
pub open spec fn count_of(counts: Map<u64, u32>, a: u64) -> u32 {
    match counts.get(a) {
        Some(n) => n,
        None => 0,
    }
}

impl Module {
    /// The kitties, by index.
    pub closed spec fn kitties_map(&self) -> Map<u32, Kitty> {
        self.kitties@
    }

    /// The count of kitties, which is the index of the next one.
    pub closed spec fn count(&self) -> u32 {
        self.kitties_count
    }

    /// The kitty that each account holds at each of its positions.
    pub closed spec fn owned_map(&self) -> Map<(u64, u32), u32> {
        self.owner_kitties@
    }

    /// The number of kitties of each account that has any.
    pub closed spec fn owned_counts(&self) -> Map<u64, u32> {
        self.owner_kitties_count@
    }

    /// The storage maps are well formed (no key twice).
    pub closed spec fn storage_wf(&self) -> bool {
        &&& self.kitties.wf()
        &&& self.owner_kitties.wf()
        &&& self.owner_kitties_count.wf()
    }

    /// The storage is consistent: an account's kitties sit at exactly the
    /// positions below its own count, and each of them is a kitty that exists.
    pub closed spec fn wf(&self) -> bool {
        &&& self.storage_wf()
        &&& forall|a: u64, i: u32| #[trigger]
            self.owner_kitties@.contains_key((a, i)) <==> i < count_of(
                self.owner_kitties_count@,
                a,
            )
        &&& forall|a: u64, i: u32| #[trigger]
            self.owner_kitties@.contains_key((a, i)) ==> self.kitties@.contains_key(
                self.owner_kitties@[(a, i)],
            )
    }

    /// The kitties are exactly those with an index below the count.
    pub open spec fn numbered(&self) -> bool {
        forall|k: u32| #[trigger] self.kitties_map().contains_key(k) <==> k < self.count()
    }

    /// Everything that the pallet stores, unchanged.
    pub open spec fn unchanged(&self, other: &Self) -> bool {
        &&& self.kitties_map() == other.kitties_map()
        &&& self.count() == other.count()
        &&& self.owned_map() == other.owned_map()
        &&& self.owned_counts() == other.owned_counts()
    }

    /// Under a consistent storage, an account's kitties sit at exactly the
    /// positions below its own count, and each of them is a kitty that exists.
    pub proof fn lemma_positions(&self, a: u64, i: u32)
        requires
            self.wf(),
        ensures
            self.owned_map().contains_key((a, i)) <==> i < count_of(self.owned_counts(), a),
            self.owned_map().contains_key((a, i)) ==> self.kitties_map().contains_key(
                self.owned_map()[(a, i)],
            ),
    {
    }

    /// A consistent storage has well-formed storage maps.
    pub proof fn lemma_wf_storage_wf(&self)
        requires
            self.wf(),
        ensures
            self.storage_wf(),
    {
    }

    /// A pallet with nothing stored.
    pub fn new() -> (m: Self)
        ensures
            m.wf(),
            m.storage_wf(),
            m.numbered(),
            m.kitties_map() == Map::<u32, Kitty>::empty(),
            m.count() == 0,
            m.owned_map() == Map::<(u64, u32), u32>::empty(),
            m.owned_counts() == Map::<u64, u32>::empty(),
    {
        Module {
            kitties: StorageMap::new(),
            kitties_count: 0,
            owner_kitties: StorageMap::new(),
            owner_kitties_count: StorageMap::new(),
        }
    }

    /// The kitty with index `id`, if there is one.
    pub fn kitties(&self, id: u32) -> (r: Option<Kitty>)
        requires
            self.storage_wf(),
        ensures
            r == self.kitties_map().get(id),
    {
        match self.kitties.get(&id) {
            Some(k) => Some(*k),
            None => None,
        }
    }

    /// The count of kitties.
    pub fn kitties_count(&self) -> (r: u32)
        ensures
            r == self.count(),
    {
        self.kitties_count
    }

    /// Sets the count of kitties to any value, as the storage allows any caller
    /// with access to it.
    pub fn put_kitties_count(&mut self, count: u32)
        ensures
            old(self).wf() ==> final(self).wf(),
            final(self).storage_wf() == old(self).storage_wf(),
            final(self).count() == count,
            final(self).kitties_map() == old(self).kitties_map(),
            final(self).owned_map() == old(self).owned_map(),
            final(self).owned_counts() == old(self).owned_counts(),
    {
        self.kitties_count = count;
    }

    /// The kitty that `owner` holds at position `index` of its kitties; 0 where
    /// there is none.
    pub fn owner_kitties(&self, owner: u64, index: u32) -> (r: u32)
        requires
            self.storage_wf(),
        ensures
            r == match self.owned_map().get((owner, index)) {
                Some(k) => k,
                None => 0,
            },
    {
        match self.owner_kitties.get(&(owner, index)) {
            Some(k) => *k,
            None => 0,
        }
    }

    /// The number of kitties that `owner` has.
    pub fn owner_kitties_count(&self, owner: u64) -> (r: u32)
        requires
            self.storage_wf(),
        ensures
            r == count_of(self.owned_counts(), owner),
    {
        match self.owner_kitties_count.get(&owner) {
            Some(n) => *n,
            None => 0,
        }
    }

    /// The index for a new kitty, unless the count can grow no further.
    pub fn next_kitty_id(&self) -> (r: Result<u32, KittyError>)
        ensures
            r == (if self.count() == u32::MAX {
                Err(KittyError::KittiesCountOverflow)
            } else {
                Ok(self.count())
            }),
    {
        if self.kitties_count == u32::MAX {
            return Err(KittyError::KittiesCountOverflow);
        }
        Ok(self.kitties_count)
    }

    /// Stores `kitty` under `kitty_id`, moves the count just past it, and puts the
    /// kitty at the next position of `owner`'s kitties.
    pub fn insert_kitty(&mut self, owner: u64, kitty_id: u32, kitty: Kitty)
        requires
            old(self).storage_wf(),
            kitty_id < u32::MAX,
            count_of(old(self).owned_counts(), owner) < u32::MAX,
        ensures
            final(self).storage_wf(),
            old(self).wf() ==> final(self).wf(),
            final(self).kitties_map() == old(self).kitties_map().insert(kitty_id, kitty),
            final(self).count() == kitty_id + 1,
            final(self).owned_map() == old(self).owned_map().insert(
                (owner, count_of(old(self).owned_counts(), owner)),
                kitty_id,
            ),
            final(self).owned_counts() == old(self).owned_counts().insert(
                owner,
                (count_of(old(self).owned_counts(), owner) + 1) as u32,
            ),
    {
        self.kitties.insert(kitty_id, kitty);
        self.kitties_count = kitty_id + 1;
        let owner_id = self.owner_kitties_count(owner);
        self.owner_kitties.insert((owner, owner_id), kitty_id);
        self.owner_kitties_count.insert(owner, owner_id + 1);
        proof {
            if old(self).wf() {
                assert forall|a: u64, i: u32| #[trigger]
                    self.owner_kitties@.contains_key((a, i)) <==> i < count_of(
                        self.owner_kitties_count@,
                        a,
                    ) by {
                    assert(old(self).owner_kitties@.contains_key((a, i)) <==> i < count_of(
                        old(self).owner_kitties_count@,
                        a,
                    ));
                }
                assert forall|a: u64, i: u32| #[trigger]
                    self.owner_kitties@.contains_key((a, i)) implies self.kitties@.contains_key(
                    self.owner_kitties@[(a, i)],
                ) by {
                    if (a, i) != (owner, owner_id) {
                        assert(old(self).owner_kitties@.contains_key((a, i)));
                        assert(old(self).kitties@.contains_key(old(self).owner_kitties@[(a, i)]));
                    }
                }
            }
        }
    }

    /// Creates a kitty for `sender`, its DNA drawn from the random seed, the sender
    /// and the extrinsic index.
    pub fn create(&mut self, sender: u64, seed: [u8; 32], extrinsic_index: Option<u32>) -> (r:
        Result<(), KittyError>)
        requires
            old(self).wf(),
            old(self).count() < u32::MAX ==> count_of(old(self).owned_counts(), sender) < u32::MAX,
        ensures
            final(self).wf(),
            final(self).storage_wf(),
            old(self).numbered() ==> final(self).numbered(),
            old(self).count() == u32::MAX ==> r == Err::<(), KittyError>(
                KittyError::KittiesCountOverflow,
            ) && final(self).unchanged(&*old(self)),
            old(self).count() < u32::MAX ==> {
                let id = old(self).count();
                let n = count_of(old(self).owned_counts(), sender);
                &&& r is Ok
                &&& final(self).count() == id + 1
                &&& final(self).kitties_map() == old(self).kitties_map().insert(
                    id,
                    final(self).kitties_map()[id],
                )
                &&& final(self).kitties_map()[id].0@ == created_kitty(seed, sender, extrinsic_index)
                &&& final(self).owned_map() == old(self).owned_map().insert((sender, n), id)
                &&& final(self).owned_counts() == old(self).owned_counts().insert(
                    sender,
                    (n + 1) as u32,
                )
            },
    {
        let kitty_id = match self.next_kitty_id() {
            Ok(id) => id,
            Err(e) => return Err(e),
        };
        let dna = random_value(&seed, sender, extrinsic_index);
        self.insert_kitty(sender, kitty_id, Kitty(dna));
        Ok(())
    }

    /// What breeding checks: both parents exist and differ, and there is room for
    /// another kitty.
    pub open spec fn breed_check(&self, kitty_id_1: u32, kitty_id_2: u32) -> Result<u32, KittyError> {
        if !self.kitties_map().contains_key(kitty_id_1) || !self.kitties_map().contains_key(
            kitty_id_2,
        ) {
            Err(KittyError::InvalidKittyId)
        } else if kitty_id_1 == kitty_id_2 {
            Err(KittyError::RequireDifferentParent)
        } else if self.count() == u32::MAX {
            Err(KittyError::KittiesCountOverflow)
        } else {
            Ok(self.count())
        }
    }

    /// Breeds a new kitty for `sender` from two different parents: each byte of its
    /// DNA mixes the parents' bytes under random selector bytes drawn from the seed,
    /// the sender and the extrinsic index.
    pub fn do_breed(
        &mut self,
        sender: u64,
        kitty_id_1: u32,
        kitty_id_2: u32,
        seed: [u8; 32],
        extrinsic_index: Option<u32>,
    ) -> (r: Result<(), KittyError>)
        requires
            old(self).wf(),
            old(self).breed_check(kitty_id_1, kitty_id_2) is Ok ==> count_of(
                old(self).owned_counts(),
                sender,
            ) < u32::MAX,
        ensures
            final(self).wf(),
            final(self).storage_wf(),
            old(self).numbered() ==> final(self).numbered(),
            r == (match old(self).breed_check(kitty_id_1, kitty_id_2) {
                Ok(_) => Ok(()),
                Err(e) => Err(e),
            }),
            r is Err ==> final(self).unchanged(&*old(self)),
            r is Ok ==> {
                let id = old(self).count();
                let n = count_of(old(self).owned_counts(), sender);
                &&& final(self).count() == id + 1
                &&& final(self).kitties_map() == old(self).kitties_map().insert(
                    id,
                    final(self).kitties_map()[id],
                )
                &&& final(self).kitties_map()[id].0@ == spec_child_dna(
                    old(self).kitties_map()[kitty_id_1].0@,
                    old(self).kitties_map()[kitty_id_2].0@,
                    created_kitty(seed, sender, extrinsic_index),
                )
                &&& final(self).owned_map() == old(self).owned_map().insert((sender, n), id)
                &&& final(self).owned_counts() == old(self).owned_counts().insert(
                    sender,
                    (n + 1) as u32,
                )
            },
    {
        let kitty1 = match self.kitties(kitty_id_1) {
            Some(k) => k,
            None => return Err(KittyError::InvalidKittyId),
        };
        let kitty2 = match self.kitties(kitty_id_2) {
            Some(k) => k,
            None => return Err(KittyError::InvalidKittyId),
        };
        if kitty_id_1 == kitty_id_2 {
            return Err(KittyError::RequireDifferentParent);
        }
        let kitty_id = match self.next_kitty_id() {
            Ok(id) => id,
            Err(e) => return Err(e),
        };
        let selector = random_value(&seed, sender, extrinsic_index);
        let new_dna = child_dna(&kitty1.0, &kitty2.0, &selector);
        self.insert_kitty(sender, kitty_id, Kitty(new_dna));
        Ok(())
    }

    /// Breeds a kitty for `sender` (see `do_breed`).
    pub fn breed(
        &mut self,
        sender: u64,
        kitty_id_1: u32,
        kitty_id_2: u32,
        seed: [u8; 32],
        extrinsic_index: Option<u32>,
    ) -> (r: Result<(), KittyError>)
        requires
            old(self).wf(),
            old(self).breed_check(kitty_id_1, kitty_id_2) is Ok ==> count_of(
                old(self).owned_counts(),
                sender,
            ) < u32::MAX,
        ensures
            final(self).wf(),
            final(self).storage_wf(),
            old(self).numbered() ==> final(self).numbered(),
            r == (match old(self).breed_check(kitty_id_1, kitty_id_2) {
                Ok(_) => Ok(()),
                Err(e) => Err(e),
            }),
            r is Err ==> final(self).unchanged(&*old(self)),
            r is Ok ==> {
                let id = old(self).count();
                let n = count_of(old(self).owned_counts(), sender);
                &&& final(self).count() == id + 1
                &&& final(self).kitties_map() == old(self).kitties_map().insert(
                    id,
                    final(self).kitties_map()[id],
                )
                &&& final(self).kitties_map()[id].0@ == spec_child_dna(
                    old(self).kitties_map()[kitty_id_1].0@,
                    old(self).kitties_map()[kitty_id_2].0@,
                    created_kitty(seed, sender, extrinsic_index),
                )
                &&& final(self).owned_map() == old(self).owned_map().insert((sender, n), id)
                &&& final(self).owned_counts() == old(self).owned_counts().insert(
                    sender,
                    (n + 1) as u32,
                )
            },
    {
        self.do_breed(sender, kitty_id_1, kitty_id_2, seed, extrinsic_index)
    }
}

} // verus!

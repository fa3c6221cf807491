//! The proof-of-existence pallet: an account claims a byte string (a hash of a
//! document, say) and is then recorded as its owner, with the block and the time
//! of the claim and an optional note. Owners may revoke or transfer their claims,
//! and every account keeps a list of the claims it made.
use vstd::prelude::*;

use crate::storage::{bytes_equal, StorageMap};

verus! {

/// Why a call of the pallet was refused.
#[derive(Clone, Copy, Debug, PartialEq, Eq)]
pub enum PoeError {
    ProofAlreadyExist,
    ClaimNotExist,
    NotClaimOwner,
    ProofTooLong,
}

/// What the pallet reports after a successful call.
#[derive(Clone, Debug, PartialEq, Eq)]
pub enum PoeEvent {
    ClaimCreated(u64, Vec<u8>),
    ClaimRevoked(u64, Vec<u8>),
    ClaimTransfered(u64, Vec<u8>),
}

/// The record of a claim: its owner, the block and time it was made in, and the
/// note that came with it.
#[derive(Debug, PartialEq, Eq)]
pub struct Proof {
    pub owner: u64,
    pub block_number: u64,
    pub note: Option<Vec<u8>>,
    pub moment: u64,
}

/// An entry of an account's list of claims.
#[derive(Debug, PartialEq, Eq)]
pub struct Note {
    pub claim: Vec<u8>,
    pub block_number: u64,
    pub note: Option<Vec<u8>>,
    pub moment: u64,
}

/// A claim record as the contracts see it.
pub struct ProofView {
    pub owner: u64,
    pub block_number: u64,
    pub note: Option<Seq<u8>>,
    pub moment: u64,
}

/// A list entry as the contracts see it.
pub struct NoteView {
    pub claim: Seq<u8>,
    pub block_number: u64,
    pub note: Option<Seq<u8>>,
    pub moment: u64,
}

/// The bytes of an optional byte string.
pub open spec fn opt_bytes(o: Option<Vec<u8>>) -> Option<Seq<u8>> {
    match o {
        Some(v) => Some(v@),
        None => None,
    }
}

impl View for Proof {
    type V = ProofView;

    open spec fn view(&self) -> ProofView {
        ProofView {
            owner: self.owner,
            block_number: self.block_number,
            note: opt_bytes(self.note),
            moment: self.moment,
        }
    }
}

impl View for Note {
    type V = NoteView;

    open spec fn view(&self) -> NoteView {
        NoteView {
            claim: self.claim@,
            block_number: self.block_number,
            note: opt_bytes(self.note),
            moment: self.moment,
        }
    }
}

/// How the contracts see a list of entries.
pub open spec fn note_views(s: Seq<Note>) -> Seq<NoteView> {
    s.map_values(|n: Note| n@)
}

/// The entries of `s` that are about another claim than `claim`, in order.
pub open spec fn without_claim(s: Seq<NoteView>, claim: Seq<u8>) -> Seq<NoteView>
    decreases s.len(),
{
    if s.len() == 0 {
        Seq::empty()
    } else {
        let rest = without_claim(s.drop_last(), claim);
        if s.last().claim == claim {
            rest
        } else {
            rest.push(s.last())
        }
    }
}

/// Dropping the entries about `c` keeps every entry about another claim, in
/// order: it is the list filtered by "about another claim than `c`".
pub proof fn lemma_without_claim_is_filter(s: Seq<NoteView>, c: Seq<u8>)
    ensures
        without_claim(s, c) == s.filter(|e: NoteView| e.claim != c),
    decreases s.len(),
{
    reveal(Seq::filter);
    if s.len() > 0 {
        lemma_without_claim_is_filter(s.drop_last(), c);
    }
}

/// No two entries of a list are about the same claim.
pub open spec fn claims_distinct(s: Seq<NoteView>) -> bool {
    forall|i: int, j: int| 0 <= i < j < s.len() ==> #[trigger] s[i].claim != #[trigger] s[j].claim
}

/// Dropping the entries about a claim leaves entries of the list that are about
/// other claims, and keeps a list without repeated claims so.
pub proof fn lemma_without_claim(s: Seq<NoteView>, c: Seq<u8>)
    ensures
        forall|i: int|
            0 <= i < without_claim(s, c).len() ==> (#[trigger] without_claim(s, c)[i]).claim != c
                && s.contains(without_claim(s, c)[i]),
        claims_distinct(s) ==> claims_distinct(without_claim(s, c)),
    decreases s.len(),
{
    if s.len() > 0 {
        let d = s.drop_last();
        lemma_without_claim(d, c);
        let w = without_claim(d, c);
        assert forall|i: int| 0 <= i < w.len() implies s.contains(#[trigger] w[i]) by {
            let k = choose|k: int| 0 <= k < d.len() && d[k] == w[i];
            assert(s[k] == w[i]);
        }
        if s.last().claim != c {
            let r = w.push(s.last());
            assert(r[w.len() as int] == s.last());
            assert(s[s.len() - 1] == s.last());
            assert forall|i: int| 0 <= i < r.len() implies (#[trigger] r[i]).claim != c
                && s.contains(r[i]) by {
                if i < w.len() {
                    assert(r[i] == w[i]);
                }
            }
            if claims_distinct(s) {
                assert(claims_distinct(d)) by {
                    assert forall|i: int, j: int| 0 <= i < j < d.len() implies #[trigger] d[i].claim
                        != #[trigger] d[j].claim by {
                        assert(d[i] == s[i] && d[j] == s[j]);
                    }
                }
                assert forall|i: int, j: int| 0 <= i < j < r.len() implies #[trigger] r[i].claim
                    != #[trigger] r[j].claim by {
                    if j == w.len() {
                        let k = choose|k: int| 0 <= k < d.len() && d[k] == w[i];
                        assert(s[k] == d[k]);
                        assert(s[k].claim != s[s.len() - 1].claim);
                    } else {
                        assert(r[i] == w[i] && r[j] == w[j]);
                    }
                }
            }
        } else {
            if claims_distinct(s) {
                assert forall|i: int, j: int| 0 <= i < j < d.len() implies #[trigger] d[i].claim
                    != #[trigger] d[j].claim by {
                    assert(d[i] == s[i] && d[j] == s[j]);
                }
            }
        }
    }
}

/// A new entry about claim `c` added after the entries about other claims keeps a
/// list free of repeated claims.
pub proof fn lemma_claim_listed_once(s: Seq<NoteView>, new: NoteView)
    requires
        claims_distinct(s),
    ensures
        claims_distinct(without_claim(s, new.claim).push(new)),
{
    lemma_without_claim(s, new.claim);
    let w = without_claim(s, new.claim);
    let r = w.push(new);
    assert forall|i: int, j: int| 0 <= i < j < r.len() implies #[trigger] r[i].claim
        != #[trigger] r[j].claim by {
        if j == w.len() {
            assert(r[i] == w[i]);
        } else {
            assert(r[i] == w[i] && r[j] == w[j]);
        }
    }
}

fn copy_bytes(v: &Vec<u8>) -> (r: Vec<u8>)
    ensures
        r@ == v@,
{
    let r = v.clone();
    assert(r@ =~= v@);
    r
}

fn copy_opt_bytes(o: &Option<Vec<u8>>) -> (r: Option<Vec<u8>>)
    ensures
        opt_bytes(r) == opt_bytes(*o),
{
    match o {
        Some(v) => Some(copy_bytes(v)),
        None => None,
    }
}

fn copy_note(n: &Note) -> (r: Note)
    ensures
        r@ == n@,
{
    Note {
        claim: copy_bytes(&n.claim),
        block_number: n.block_number,
        note: copy_opt_bytes(&n.note),
        moment: n.moment,
    }
}

/// The storage of the pallet.
pub struct Module {
    max_claim_length: u32,
    proofs: StorageMap<Vec<u8>, Proof>,
    notes: StorageMap<u64, Vec<Note>>,
}

impl Module {
    /// The claims and their records.
    pub closed spec fn proofs_map(&self) -> Map<Seq<u8>, ProofView> {
        self.proofs@.map_values(|p: Proof| p@)
    }

    /// The list of claims of each account that has made any.
    pub closed spec fn notes_map(&self) -> Map<u64, Seq<NoteView>> {
        self.notes@.map_values(|v: Vec<Note>| note_views(v@))
    }

    /// The longest claim that is accepted.
    pub closed spec fn max_length(&self) -> u32 {
        self.max_claim_length
    }

    /// The storage maps are well formed, and no account's list has two entries
    /// about the same claim.
    pub closed spec fn wf(&self) -> bool {
        &&& self.proofs.wf()
        &&& self.notes.wf()
        &&& forall|a: u64| #[trigger]
            self.notes_map().contains_key(a) ==> claims_distinct(self.notes_map()[a])
    }

    /// Under a well-formed storage, every account's list of claims names each claim
    /// at most once.
    pub proof fn lemma_claims_listed_once(&self, a: u64)
        requires
            self.wf(),
        ensures
            claims_distinct(self.notes_of(a)),
    {
    }

    /// The list of claims of account `a`; empty where it has none.
    pub open spec fn notes_of(&self, a: u64) -> Seq<NoteView> {
        if self.notes_map().contains_key(a) {
            self.notes_map()[a]
        } else {
            Seq::empty()
        }
    }

    /// A pallet that accepts claims of at most `max_claim_length` bytes and has
    /// nothing stored.
    pub fn new(max_claim_length: u32) -> (m: Self)
        ensures
            m.wf(),
            m.max_length() == max_claim_length,
            m.proofs_map() == Map::<Seq<u8>, ProofView>::empty(),
            m.notes_map() == Map::<u64, Seq<NoteView>>::empty(),
    {
        let m = Module {
            max_claim_length,
            proofs: StorageMap::new(),
            notes: StorageMap::new(),
        };
        assert(m.proofs_map() =~= Map::<Seq<u8>, ProofView>::empty());
        assert(m.notes_map() =~= Map::<u64, Seq<NoteView>>::empty());
        m
    }

    /// The record of `claim`, if it has been claimed.
    pub fn proofs(&self, claim: &Vec<u8>) -> (r: Option<(u64, u64, Option<Vec<u8>>, u64)>)
        requires
            self.wf(),
        ensures
            match r {
                Some((owner, block_number, note, moment)) => self.proofs_map().contains_key(claim@)
                    && self.proofs_map()[claim@] == (ProofView {
                    owner,
                    block_number,
                    note: opt_bytes(note),
                    moment,
                }),
                None => !self.proofs_map().contains_key(claim@),
            },
    {
        match self.proofs.get(claim) {
            Some(p) => Some((p.owner, p.block_number, copy_opt_bytes(&p.note), p.moment)),
            None => None,
        }
    }

    /// The list of claims that `account` made.
    pub fn get_account_proofs(&self, account: u64) -> (r: Vec<Note>)
        requires
            self.wf(),
        ensures
            note_views(r@) == self.notes_of(account),
    {
        let mut r: Vec<Note> = Vec::new();
        match self.notes.get(&account) {
            Some(list) => {
                let mut i: usize = 0;
                while i < list.len()
                    invariant
                        0 <= i <= list@.len(),
                        r@.len() == i,
                        forall|j: int| 0 <= j < i ==> #[trigger] r@[j]@ == list@[j]@,
                    decreases list@.len() - i,
                {
                    r.push(copy_note(&list[i]));
                    i = i + 1;
                }
                assert(note_views(r@) =~= note_views(list@));
            },
            None => {
                assert(note_views(r@) =~= Seq::<NoteView>::empty());
            },
        }
        r
    }

    /// What `create_claim_with_note` checks: the claim is new and not too long.
    pub open spec fn create_check(&self, claim: Seq<u8>) -> Result<(), PoeError> {
        if self.proofs_map().contains_key(claim) {
            Err(PoeError::ProofAlreadyExist)
        } else if self.max_length() < (claim.len() as u32) {
            Err(PoeError::ProofTooLong)
        } else {
            Ok(())
        }
    }

    /// The entries of the list of `sender` without those about `claim`.
    fn notes_without(&mut self, sender: u64, claim: &Vec<u8>) -> (r: Vec<Note>)
        requires
            old(self).wf(),
        ensures
            final(self).wf(),
            final(self).proofs_map() == old(self).proofs_map(),
            final(self).notes_map() == old(self).notes_map().remove(sender),
            final(self).max_length() == old(self).max_length(),
            note_views(r@) == without_claim(old(self).notes_of(sender), claim@),
    {
        let old_list = self.notes.remove(&sender);
        assert(self.notes_map() =~= old(self).notes_map().remove(sender));
        let mut rest = match old_list {
            Some(l) => l,
            None => Vec::new(),
        };
        let ghost orig = note_views(rest@);
        assert(orig == old(self).notes_of(sender));
        let mut kept: Vec<Note> = Vec::new();
        let ghost mut i: int = 0;
        assert(orig.take(0) =~= Seq::<NoteView>::empty());
        while rest.len() > 0
            invariant
                0 <= i <= orig.len(),
                note_views(rest@) == orig.skip(i),
                note_views(kept@) == without_claim(orig.take(i), claim@),
            decreases rest@.len(),
        {
            assert(note_views(rest@).len() == rest@.len());
            assert(orig.skip(i).len() == orig.len() - i);
            assert(i < orig.len());
            let ghost before = rest@;
            let n = rest.remove(0);
            assert(n@ == orig[i]) by {
                assert(n == before[0]);
                assert(note_views(before).len() == before.len());
                assert(orig.skip(i)[0] == orig[i]);
                assert(note_views(before)[0] == before[0]@);
                assert(note_views(before)[0] == orig.skip(i)[0]);
            }
            assert(note_views(rest@) =~= orig.skip(i + 1)) by {
                assert forall|j: int| 0 <= j < rest@.len() implies rest@[j]@ == orig.skip(i + 1)[j] by {
                    assert(note_views(before).len() == before.len());
                    assert(orig.skip(i + 1)[j] == orig.skip(i)[j + 1]);
                    assert(rest@[j] == before[j + 1]);
                    assert(note_views(before)[j + 1] == before[j + 1]@);
                    assert(note_views(before)[j + 1] == orig.skip(i)[j + 1]);
                }
            }
            assert(orig.take(i + 1).drop_last() =~= orig.take(i));
            assert(orig.take(i + 1).last() == orig[i]);
            if !bytes_equal(n.claim.as_slice(), claim.as_slice()) {
                let ghost kb = kept@;
                kept.push(n);
                assert(note_views(kept@) =~= note_views(kb).push(orig[i]));
            }
            proof {
                i = i + 1;
            }
        }
        assert(orig.take(i) =~= orig);
        kept
    }

    /// `sender` claims `claim`, with an optional note, in block `block_number` at
    /// time `now`. The claim is recorded as the sender's, and it goes at the end of
    /// the sender's list of claims, which keeps no earlier entry about the same
    /// claim.
    pub fn create_claim_with_note(
        &mut self,
        sender: u64,
        claim: Vec<u8>,
        note: Option<Vec<u8>>,
        block_number: u64,
        now: u64,
    ) -> (r: Result<PoeEvent, PoeError>)
        requires
            old(self).wf(),
        ensures
            final(self).wf(),
            final(self).max_length() == old(self).max_length(),
            match old(self).create_check(claim@) {
                Err(e) => r == Err::<PoeEvent, PoeError>(e) && final(self).proofs_map() == old(
                    self,
                ).proofs_map() && final(self).notes_map() == old(self).notes_map(),
                Ok(_) => {
                    &&& r matches Ok(PoeEvent::ClaimCreated(who, c)) && who == sender && c@
                        == claim@
                    &&& final(self).proofs_map() == old(self).proofs_map().insert(
                        claim@,
                        ProofView { owner: sender, block_number, note: opt_bytes(note), moment: now },
                    )
                    &&& final(self).notes_map() == old(self).notes_map().insert(
                        sender,
                        without_claim(old(self).notes_of(sender), claim@).push(
                            NoteView {
                                claim: claim@,
                                block_number,
                                note: opt_bytes(note),
                                moment: now,
                            },
                        ),
                    )
                },
            },
    {
        if self.proofs.contains_key(&claim) {
            return Err(PoeError::ProofAlreadyExist);
        }
        if self.max_claim_length < #[verifier::truncate] (claim.len() as u32) {
            return Err(PoeError::ProofTooLong);
        }
        let mut list = self.notes_without(sender, &claim);
        let proof = Proof {
            owner: sender,
            block_number,
            note: copy_opt_bytes(&note),
            moment: now,
        };
        self.proofs.insert(copy_bytes(&claim), proof);
        assert(self.proofs_map() =~= old(self).proofs_map().insert(
            claim@,
            ProofView { owner: sender, block_number, note: opt_bytes(note), moment: now },
        ));
        let ghost lb = list@;
        list.push(Note { claim: copy_bytes(&claim), block_number, note, moment: now });
        assert(note_views(list@) =~= note_views(lb).push(
            NoteView { claim: claim@, block_number, note: opt_bytes(note), moment: now },
        ));
        proof {
            assert(claims_distinct(old(self).notes_of(sender)));
            lemma_claim_listed_once(
                old(self).notes_of(sender),
                NoteView { claim: claim@, block_number, note: opt_bytes(note), moment: now },
            );
        }
        let ghost before_insert = self.notes@;
        let ghost new_list = note_views(list@);
        self.notes.insert(sender, list);
        assert(self.notes_map() =~= before_insert.map_values(|v: Vec<Note>| note_views(v@)).insert(
            sender,
            new_list,
        ));
        assert(before_insert.map_values(|v: Vec<Note>| note_views(v@)) == old(
            self,
        ).notes_map().remove(sender));
        assert(self.notes_map() =~= old(self).notes_map().insert(
            sender,
            without_claim(old(self).notes_of(sender), claim@).push(
                NoteView { claim: claim@, block_number, note: opt_bytes(note), moment: now },
            ),
        ));
        Ok(PoeEvent::ClaimCreated(sender, claim))
    }

    /// `sender` claims `claim` without a note (see `create_claim_with_note`).
    pub fn create_claim(&mut self, sender: u64, claim: Vec<u8>, block_number: u64, now: u64) -> (r:
        Result<PoeEvent, PoeError>)
        requires
            old(self).wf(),
        ensures
            final(self).wf(),
            final(self).max_length() == old(self).max_length(),
            match old(self).create_check(claim@) {
                Err(e) => r == Err::<PoeEvent, PoeError>(e) && final(self).proofs_map() == old(
                    self,
                ).proofs_map() && final(self).notes_map() == old(self).notes_map(),
                Ok(_) => {
                    &&& r matches Ok(PoeEvent::ClaimCreated(who, c)) && who == sender && c@
                        == claim@
                    &&& final(self).proofs_map() == old(self).proofs_map().insert(
                        claim@,
                        ProofView { owner: sender, block_number, note: None, moment: now },
                    )
                    &&& final(self).notes_map() == old(self).notes_map().insert(
                        sender,
                        without_claim(old(self).notes_of(sender), claim@).push(
                            NoteView { claim: claim@, block_number, note: None, moment: now },
                        ),
                    )
                },
            },
    {
        self.create_claim_with_note(sender, claim, None, block_number, now)
    }

    /// What `revoke_claim` and `transfer_claim` check: the claim exists and
    /// belongs to `sender`.
    pub open spec fn owner_check(&self, sender: u64, claim: Seq<u8>) -> Result<(), PoeError> {
        if !self.proofs_map().contains_key(claim) {
            Err(PoeError::ClaimNotExist)
        } else if self.proofs_map()[claim].owner != sender {
            Err(PoeError::NotClaimOwner)
        } else {
            Ok(())
        }
    }

    /// The owner of a claim, checked to be `sender`.
    fn check_owner(&self, sender: u64, claim: &Vec<u8>) -> (r: Result<(), PoeError>)
        requires
            self.wf(),
        ensures
            r == self.owner_check(sender, claim@),
    {
        match self.proofs.get(claim) {
            None => Err(PoeError::ClaimNotExist),
            Some(p) => {
                if p.owner != sender {
                    Err(PoeError::NotClaimOwner)
                } else {
                    Ok(())
                }
            },
        }
    }

    /// `sender` revokes its claim `claim`, which is then no longer recorded.
    pub fn revoke_claim(&mut self, sender: u64, claim: Vec<u8>) -> (r: Result<PoeEvent, PoeError>)
        requires
            old(self).wf(),
        ensures
            final(self).wf(),
            final(self).max_length() == old(self).max_length(),
            final(self).notes_map() == old(self).notes_map(),
            match old(self).owner_check(sender, claim@) {
                Err(e) => r == Err::<PoeEvent, PoeError>(e) && final(self).proofs_map() == old(
                    self,
                ).proofs_map(),
                Ok(_) => {
                    &&& r matches Ok(PoeEvent::ClaimRevoked(who, c)) && who == sender && c@
                        == claim@
                    &&& final(self).proofs_map() == old(self).proofs_map().remove(claim@)
                },
            },
    {
        match self.check_owner(sender, &claim) {
            Err(e) => return Err(e),
            Ok(_) => {},
        }
        self.proofs.remove(&claim);
        assert(self.proofs_map() =~= old(self).proofs_map().remove(claim@));
        assert(self.notes_map() == old(self).notes_map());
        Ok(PoeEvent::ClaimRevoked(sender, claim))
    }

    /// `sender` hands its claim `claim` over to `dest` in block `block_number`: the
    /// record names `dest` as owner and that block; its note and time stay, and
    /// the transfer is reported.
    pub fn transfer_claim(&mut self, sender: u64, claim: Vec<u8>, dest: u64, block_number: u64) -> (r:
        Result<PoeEvent, PoeError>)
        requires
            old(self).wf(),
        ensures
            final(self).wf(),
            final(self).max_length() == old(self).max_length(),
            final(self).notes_map() == old(self).notes_map(),
            match old(self).owner_check(sender, claim@) {
                Err(e) => r == Err::<PoeEvent, PoeError>(e) && final(self).proofs_map() == old(
                    self,
                ).proofs_map(),
                Ok(_) => {
                    let p = old(self).proofs_map()[claim@];
                    &&& r matches Ok(PoeEvent::ClaimTransfered(who, c)) && who == sender && c@
                        == claim@
                    &&& final(self).proofs_map() == old(self).proofs_map().insert(
                        claim@,
                        ProofView { owner: dest, block_number, note: p.note, moment: p.moment },
                    )
                },
            },
    {
        match self.check_owner(sender, &claim) {
            Err(e) => return Err(e),
            Ok(_) => {},
        }
        let old_proof = self.proofs.remove(&claim);
        let (note, moment) = match old_proof {
            Some(p) => (p.note, p.moment),
            None => (None, 0),
        };
        let proof = Proof { owner: dest, block_number, note, moment };
        self.proofs.insert(copy_bytes(&claim), proof);
        assert(self.notes_map() == old(self).notes_map());
        assert(self.proofs_map() =~= old(self).proofs_map().insert(
            claim@,
            ProofView {
                owner: dest,
                block_number,
                note: old(self).proofs_map()[claim@].note,
                moment: old(self).proofs_map()[claim@].moment,
            },
        ));
        Ok(PoeEvent::ClaimTransfered(sender, claim))
    }
}

} // verus!

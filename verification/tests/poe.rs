use pallets::poe::{Module as PoeModule, PoeError, PoeEvent};

const MAX_CLAIM_LENGTH: u32 = 6;
const BLOCK: u64 = 1;
const NOW: u64 = 6000;

fn new_poe() -> PoeModule {
    PoeModule::new(MAX_CLAIM_LENGTH)
}

#[test]
fn create_claim_works() {
    let mut poe = new_poe();
    let hash: Vec<u8> = vec![1, 2, 3];
    assert!(poe.create_claim(1, hash.clone(), BLOCK, NOW).is_ok());
    assert_eq!(poe.proofs(&hash), Some((1, BLOCK, None, NOW)));
}

#[test]
fn revoke_claim_works() {
    let mut poe = new_poe();
    let hash: Vec<u8> = vec![1, 2, 3];
    assert!(poe.create_claim(1, hash.clone(), BLOCK, NOW).is_ok());
    assert!(poe.revoke_claim(1, hash).is_ok());
}

#[test]
fn transfer_claim_works() {
    let mut poe = new_poe();
    let hash: Vec<u8> = vec![1, 2, 3];
    assert!(poe.create_claim(1, hash.clone(), BLOCK, NOW).is_ok());
    assert!(poe.transfer_claim(1, hash.clone(), 2, BLOCK).is_ok());
    assert_eq!(poe.proofs(&hash), Some((2, BLOCK, None, NOW)));
}

#[test]
fn create_claim_error_proof_too_long() {
    let mut poe = new_poe();
    let hash: Vec<u8> = vec![1, 2, 3, 4, 5, 6, 7];
    assert_eq!(poe.create_claim(1, hash.clone(), BLOCK, NOW), Err(PoeError::ProofTooLong));
    assert_eq!(poe.proofs(&hash), None);
    assert_eq!(poe.get_account_proofs(1).len(), 0);
}

#[test]
fn create_claim_error_proof_already_exists() {
    let mut poe = new_poe();
    let hash: Vec<u8> = vec![1, 2, 3];
    assert!(poe.create_claim(1, hash.clone(), BLOCK, NOW).is_ok());
    assert_eq!(poe.create_claim(2, hash.clone(), 5, 7), Err(PoeError::ProofAlreadyExist));
    assert_eq!(poe.proofs(&hash), Some((1, BLOCK, None, NOW)));
    assert_eq!(poe.get_account_proofs(1).len(), 1);
    assert_eq!(poe.get_account_proofs(2).len(), 0);
}

#[test]
fn revoke_claim_error_claim_not_exists() {
    let mut poe = new_poe();
    let hash: Vec<u8> = vec![1, 2, 3];
    assert!(poe.create_claim(1, hash.clone(), BLOCK, NOW).is_ok());
    let another_hash: Vec<u8> = [4, 5, 6].to_vec();
    assert_eq!(poe.revoke_claim(1, another_hash.clone()), Err(PoeError::ClaimNotExist));
    assert_eq!(poe.proofs(&hash), Some((1, BLOCK, None, NOW)));
    assert_eq!(poe.proofs(&another_hash), None);
}

#[test]
fn revoke_claim_error_not_claim_owner() {
    let mut poe = new_poe();
    let hash: Vec<u8> = vec![1, 2, 3];
    assert!(poe.create_claim(1, hash.clone(), BLOCK, NOW).is_ok());
    assert_eq!(poe.revoke_claim(2, hash.clone()), Err(PoeError::NotClaimOwner));
    assert_eq!(poe.proofs(&hash), Some((1, BLOCK, None, NOW)));
}

#[test]
fn transfer_claim_error_claim_not_exists() {
    let mut poe = new_poe();
    let hash: Vec<u8> = vec![1, 2, 3];
    assert_eq!(poe.transfer_claim(1, hash.clone(), 2, BLOCK), Err(PoeError::ClaimNotExist));
    assert_eq!(poe.proofs(&hash), None);
}

#[test]
fn transfer_claim_error_not_claim_owner() {
    let mut poe = new_poe();
    let hash: Vec<u8> = [0, 1, 2].to_vec();
    assert!(poe.create_claim(1, hash.clone(), BLOCK, NOW).is_ok());
    assert_eq!(poe.transfer_claim(2, hash.clone(), 3, BLOCK), Err(PoeError::NotClaimOwner));
    assert_eq!(poe.proofs(&hash), Some((1, BLOCK, None, NOW)));
}

#[test]
fn create_and_revoke() {
    let mut poe = PoeModule::new(16);
    assert!(poe
        .create_claim_with_note(1, b"claim_1".to_vec(), Some(b"memo_1".to_vec()), BLOCK, NOW)
        .is_ok());
    assert!(poe
        .create_claim_with_note(1, b"claim_2".to_vec(), Some(b"memo_2".to_vec()), BLOCK, NOW)
        .is_ok());
    assert!(poe
        .create_claim_with_note(1, b"claim_3".to_vec(), Some(b"memo_3".to_vec()), BLOCK, NOW)
        .is_ok());
    let a = poe.get_account_proofs(1);
    assert_eq!(3, a.len());
}

#[test]
fn claim_with_note_is_recorded_and_listed() {
    let mut poe = PoeModule::new(16);
    let claim = b"doc".to_vec();
    assert_eq!(
        poe.create_claim_with_note(5, claim.clone(), Some(b"memo".to_vec()), 3, 42),
        Ok(PoeEvent::ClaimCreated(5, claim.clone()))
    );
    assert_eq!(poe.proofs(&claim), Some((5, 3, Some(b"memo".to_vec()), 42)));
    let list = poe.get_account_proofs(5);
    assert_eq!(list.len(), 1);
    assert_eq!(list[0].claim, claim);
    assert_eq!(list[0].note, Some(b"memo".to_vec()));
    assert_eq!(list[0].block_number, 3);
    assert_eq!(list[0].moment, 42);
    assert_eq!(poe.get_account_proofs(6).len(), 0);
}

#[test]
fn reclaiming_replaces_the_list_entry() {
    let mut poe = PoeModule::new(16);
    let a = b"a".to_vec();
    let b = b"b".to_vec();
    assert!(poe.create_claim(1, a.clone(), 1, 10).is_ok());
    assert!(poe.create_claim(1, b.clone(), 2, 20).is_ok());
    assert_eq!(poe.revoke_claim(1, a.clone()), Ok(PoeEvent::ClaimRevoked(1, a.clone())));
    assert_eq!(poe.proofs(&a), None);
    // the list still has the revoked claim until it is claimed again
    assert_eq!(poe.get_account_proofs(1).len(), 2);
    assert!(poe.create_claim(1, a.clone(), 3, 30).is_ok());
    let list = poe.get_account_proofs(1);
    assert_eq!(list.len(), 2);
    assert_eq!(list[0].claim, b);
    assert_eq!(list[1].claim, a);
    assert_eq!(list[1].block_number, 3);
}

#[test]
fn transfer_is_reported_and_keeps_note() {
    let mut poe = PoeModule::new(16);
    let c = b"x".to_vec();
    assert!(poe.create_claim_with_note(1, c.clone(), Some(b"n".to_vec()), 1, 10).is_ok());
    assert_eq!(poe.transfer_claim(1, c.clone(), 9, 4), Ok(PoeEvent::ClaimTransfered(1, c.clone())));
    assert_eq!(poe.proofs(&c), Some((9, 4, Some(b"n".to_vec()), 10)));
    assert_eq!(poe.revoke_claim(1, c.clone()), Err(PoeError::NotClaimOwner));
}

#[test]
fn claim_at_the_length_limit_is_accepted() {
    let mut poe = new_poe();
    assert!(poe.create_claim(1, vec![0; 6], BLOCK, NOW).is_ok());
    assert!(poe.create_claim(1, vec![], BLOCK, NOW).is_ok());
    assert_eq!(poe.create_claim(1, vec![0; 7], BLOCK, NOW), Err(PoeError::ProofTooLong));
}

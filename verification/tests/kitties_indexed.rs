use pallets::kitties::KittyError;
use pallets::kitties_indexed::Module as IndexedKitties;

const SEED: [u8; 32] = [3u8; 32];

#[test]
fn create_kitty() {
    let mut kitty = IndexedKitties::new();
    assert_eq!(kitty.create(1, SEED, Some(0)), Ok(()));
    assert_eq!(kitty.kitties_count(), 1);
    assert_eq!(kitty.owner_kitties_count(1), 1);
    kitty.put_kitties_count(u32::MAX);
    assert_eq!(kitty.create(1, SEED, Some(0)), Err(KittyError::KittiesCountOverflow));
    assert_eq!(kitty.kitties_count(), u32::MAX);
    assert_eq!(kitty.owner_kitties_count(1), 1);
}

#[test]
fn breed_kitty() {
    let mut kitty = IndexedKitties::new();
    assert_eq!(kitty.create(4, SEED, Some(0)), Ok(()));
    assert_eq!(kitty.create(1, SEED, Some(1)), Ok(()));
    assert_eq!(kitty.create(1, SEED, Some(2)), Ok(()));
    assert_eq!(kitty.create(2, SEED, Some(3)), Ok(()));
    assert_eq!(kitty.create(2, SEED, Some(4)), Ok(()));
    assert_eq!(kitty.kitties_count(), 5);
    assert_eq!(kitty.breed(1, 1, 2, SEED, Some(5)), Ok(()));
    assert_eq!(kitty.owner_kitties_count(1), 3);
    assert_eq!(kitty.owner_kitties_count(2), 2);
    assert_eq!(kitty.breed(3, 1, 6, SEED, Some(6)), Err(KittyError::InvalidKittyId));
    assert_eq!(kitty.breed(3, 1, 1, SEED, Some(6)), Err(KittyError::RequireDifferentParent));
    assert_eq!(kitty.kitties_count(), 6);
    assert_eq!(kitty.owner_kitties_count(3), 0);
    for i in 0u32..kitty.kitties_count() {
        assert!(kitty.kitties(i).is_some());
    }

    for j in 0u64..2 {
        for i in 0u32..kitty.owner_kitties_count(j) {
            assert!(kitty.owner_kitties(j, i) > 0);
        }
    }
}

#[test]
fn indexed_kitties_are_numbered_per_owner() {
    let mut kitty = IndexedKitties::new();
    let _ = kitty.create(7, SEED, None);
    let _ = kitty.create(8, SEED, None);
    let _ = kitty.create(7, SEED, None);
    assert_eq!(kitty.owner_kitties(7, 0), 0);
    assert_eq!(kitty.owner_kitties(7, 1), 2);
    assert_eq!(kitty.owner_kitties(8, 0), 1);
    assert_eq!(kitty.owner_kitties_count(9), 0);
    assert_eq!(kitty.breed(8, 0, 2, SEED, None), Ok(()));
    assert_eq!(kitty.owner_kitties(8, 1), 3);
    assert_eq!(kitty.owner_kitties_count(8), 2);
    assert_eq!(kitty.kitties_count(), 4);
}

#[test]
fn put_count_may_lower_it() {
    let mut kitty = IndexedKitties::new();
    let _ = kitty.create(1, SEED, None);
    let _ = kitty.create(1, SEED, None);
    kitty.put_kitties_count(0);
    assert_eq!(kitty.kitties_count(), 0);
    // the next kitty overwrites the one at index 0
    assert_eq!(kitty.create(2, [4u8; 32], None), Ok(()));
    assert_eq!(kitty.kitties_count(), 1);
    assert_eq!(kitty.owner_kitties(2, 0), 0);
    assert_eq!(kitty.owner_kitties_count(1), 2);
    assert_eq!(kitty.owner_kitties_count(2), 1);
}

#[test]
fn insert_kitty_under_any_index() {
    let mut kitty = IndexedKitties::new();
    kitty.insert_kitty(3, 9, pallets::dna::Kitty([2u8; 16]));
    assert_eq!(kitty.kitties_count(), 10);
    assert_eq!(kitty.kitties(9), Some(pallets::dna::Kitty([2u8; 16])));
    assert_eq!(kitty.owner_kitties(3, 0), 9);
    assert_eq!(kitty.owner_kitties_count(3), 1);
}

use std::collections::HashMap;

use pallets::dna::{child_dna, combine_dna, random_value, Kitty};
use pallets::kitties::{BalanceError, Currency, KittyError, KittyEvent, Module as KittiesModule};
use pallets::linked_item::{append, remove, LinkedItem, ListStorage};

type KittyLinkedItemTest = LinkedItem<u32>;

const SEED: [u8; 32] = [7u8; 32];

/// The balances of the test runtime: an existential deposit of 1, and transfers
/// that keep the sender alive.
struct Balances {
    balances: HashMap<u64, u64>,
    existential_deposit: u64,
}

impl Balances {
    fn new() -> Self {
        let mut balances = HashMap::new();
        for a in 1..=4u64 {
            balances.insert(a, 10000);
        }
        Balances { balances, existential_deposit: 1 }
    }

    fn total_balance(&self, who: u64) -> u64 {
        *self.balances.get(&who).unwrap_or(&0)
    }
}

impl Currency for Balances {
    fn paid(&self, from: u64, to: u64, value: u64, after: &Self) -> bool {
        from == to
            || (after.total_balance(from) + value == self.total_balance(from)
                && after.total_balance(to) == self.total_balance(to) + value)
    }

    fn refuses(&self, from: u64, to: u64, value: u64) -> bool {
        if value == 0 || from == to {
            return false;
        }
        match self.total_balance(from).checked_sub(value) {
            None => true,
            Some(new_from) => {
                new_from < self.existential_deposit
                    || match self.total_balance(to).checked_add(value) {
                        None => true,
                        Some(new_to) => new_to < self.existential_deposit,
                    }
            }
        }
    }

    fn transfer(&mut self, from: u64, to: u64, value: u64) -> Result<(), BalanceError> {
        if value == 0 || from == to {
            return Ok(());
        }
        let from_balance = self.total_balance(from);
        let new_from = from_balance.checked_sub(value).ok_or(BalanceError::InsufficientBalance)?;
        if new_from < self.existential_deposit {
            return Err(BalanceError::KeepAlive);
        }
        let to_balance = self.total_balance(to);
        let new_to = to_balance.checked_add(value).ok_or(BalanceError::Overflow)?;
        if new_to < self.existential_deposit {
            return Err(BalanceError::ExistentialDeposit);
        }
        self.balances.insert(from, new_from);
        self.balances.insert(to, new_to);
        Ok(())
    }
}

fn item(prev: Option<u32>, next: Option<u32>) -> Option<KittyLinkedItemTest> {
    Some(KittyLinkedItemTest { prev, next })
}

fn create(m: &mut KittiesModule, sender: u64) -> Result<KittyEvent, KittyError> {
    m.create(sender, SEED, Some(0))
}

#[test]
fn owned_kitties_can_append_values() {
    let mut st = ListStorage::new();
    append(&mut st, 1, 1);

    assert_eq!(st.get(&(1, None)).copied(), item(Some(1), Some(1)));
    assert_eq!(st.get(&(1, Some(1))).copied(), item(None, None));

    append(&mut st, 1, 2);

    assert_eq!(st.get(&(1, None)).copied(), item(Some(2), Some(1)));
    assert_eq!(st.get(&(1, Some(1))).copied(), item(None, Some(2)));
    assert_eq!(st.get(&(1, Some(2))).copied(), item(Some(1), None));

    append(&mut st, 1, 3);

    assert_eq!(st.get(&(1, None)).copied(), item(Some(3), Some(1)));
    assert_eq!(st.get(&(1, Some(1))).copied(), item(None, Some(2)));
    assert_eq!(st.get(&(1, Some(2))).copied(), item(Some(1), Some(3)));
    assert_eq!(st.get(&(1, Some(3))).copied(), item(Some(2), None));
}

#[test]
fn owned_kitties_can_remove_values() {
    let mut st = ListStorage::new();
    append(&mut st, 1, 1);
    append(&mut st, 1, 2);
    append(&mut st, 1, 3);
    append(&mut st, 1, 4);
    append(&mut st, 1, 5);

    remove(&mut st, 1, 3);

    assert_eq!(st.get(&(1, Some(3))).copied(), None);
    assert_eq!(st.get(&(1, Some(2))).copied(), item(Some(1), Some(4)));
    assert_eq!(st.get(&(1, Some(4))).copied(), item(Some(2), Some(5)));
}

#[test]
fn removing_ends_and_absent_values_of_a_list() {
    let mut st = ListStorage::new();
    append(&mut st, 1, 1);
    append(&mut st, 1, 2);
    append(&mut st, 1, 3);
    append(&mut st, 2, 9);

    // a value that is not in the list changes nothing
    remove(&mut st, 1, 7);
    assert_eq!(st.len(), 6);

    remove(&mut st, 1, 1);
    assert_eq!(st.get(&(1, None)).copied(), item(Some(3), Some(2)));
    assert_eq!(st.get(&(1, Some(2))).copied(), item(None, Some(3)));

    remove(&mut st, 1, 3);
    assert_eq!(st.get(&(1, None)).copied(), item(Some(2), Some(2)));
    assert_eq!(st.get(&(1, Some(2))).copied(), item(None, None));

    remove(&mut st, 1, 2);
    assert_eq!(st.get(&(1, None)).copied(), item(None, None));
    assert_eq!(st.get(&(1, Some(2))).copied(), None);

    // the list of another account is untouched
    assert_eq!(st.get(&(2, None)).copied(), item(Some(9), Some(9)));
    assert_eq!(st.get(&(2, Some(9))).copied(), item(None, None));
}

#[test]
fn create_kitty_works() {
    let mut m = KittiesModule::new();

    let _result = create(&mut m, 1);

    assert_eq!(m.kitties_count(), 1);
    assert_eq!(m.owner_kitties(1, None), item(Some(0), Some(0)));
    assert_eq!(m.kitty_owner(0), Some(1));

    let _result = create(&mut m, 2);

    assert_eq!(m.kitties_count(), 2);
    assert_eq!(m.owner_kitties(2, None), item(Some(1), Some(1)));
    assert_eq!(m.kitty_owner(1), Some(2));
}

#[test]
fn breed_kitty_works() {
    let mut m = KittiesModule::new();

    let _ = create(&mut m, 1);
    let _ = create(&mut m, 1);
    let _ = create(&mut m, 1);

    assert_eq!(m.kitties_count(), 3);

    let _ = m.breed(1, 0, 1, SEED, Some(1));

    assert_eq!(m.kitties_count(), 4);
    assert_eq!(m.owner_kitties(1, Some(3)), item(Some(2), None));
    assert_eq!(m.kitty_owner(3), Some(1));
}

#[test]
fn transfer_kitty_works() {
    let mut m = KittiesModule::new();

    let _ = create(&mut m, 1);

    assert_eq!(m.kitties_count(), 1);
    assert_eq!(m.owner_kitties(1, None), item(Some(0), Some(0)));
    assert_eq!(m.owner_kitties(2, None), None);
    assert_eq!(m.kitty_owner(0), Some(1));

    let _ = m.transfer(1, 2, 0);

    assert_eq!(m.owner_kitties(1, None), item(None, None));
    assert_eq!(m.owner_kitties(2, None), item(Some(0), Some(0)));
    assert_eq!(m.kitty_owner(0), Some(2));
}

#[test]
fn ask_kitty_price_works() {
    let mut m = KittiesModule::new();

    let _ = create(&mut m, 1);

    assert_eq!(m.kitties_count(), 1);
    assert_eq!(m.kitty_price(0), None);

    let _ = m.ask(1, 0, Some(100));

    assert_eq!(m.kitty_price(0), Some(100));
}

#[test]
fn buy_kitty_works() {
    let mut m = KittiesModule::new();
    let mut balances = Balances::new();

    let _ = create(&mut m, 1);

    assert_eq!(m.kitties_count(), 1);
    assert_eq!(m.kitty_price(0), None);

    let _ = m.ask(1, 0, Some(1000));

    assert_eq!(m.kitty_price(0), Some(1000));
    assert_eq!(m.kitty_owner(0), Some(1));

    let before = Balances { balances: balances.balances.clone(), existential_deposit: 1 };
    let _ = m.buy(2, 0, 1000, &mut balances);
    assert!(before.paid(2, 1, 1000, &balances));

    assert_eq!(m.kitty_owner(0), Some(2));
    assert_eq!(balances.total_balance(1), 11000);
    assert_eq!(balances.total_balance(2), 9000);
}

#[test]
fn kitty_dna_is_the_hash_of_the_encoded_seed_sender_and_index() {
    let mut payload = Vec::new();
    payload.extend_from_slice(&SEED);
    payload.extend_from_slice(&1u64.to_le_bytes());
    payload.push(1);
    payload.extend_from_slice(&0u32.to_le_bytes());
    let expected = sp_io::hashing::blake2_128(&payload);

    assert_eq!(random_value(&SEED, 1, Some(0)), expected);

    let mut m = KittiesModule::new();
    assert_eq!(create(&mut m, 1), Ok(KittyEvent::Created(1, 0)));
    assert_eq!(m.kitties(0), Some(Kitty(expected)));

    let mut payload = Vec::new();
    payload.extend_from_slice(&SEED);
    payload.extend_from_slice(&0x0102030405060708u64.to_le_bytes());
    payload.push(0);
    assert_eq!(random_value(&SEED, 0x0102030405060708, None), sp_io::hashing::blake2_128(&payload));
}

#[test]
fn combine_dna_takes_bits_by_selector() {
    assert_eq!(combine_dna(0b1100_1100, 0b1010_1010, 0b1111_0000), 0b1100_1010);
    assert_eq!(combine_dna(0xff, 0x00, 0x00), 0x00);
    assert_eq!(combine_dna(0xff, 0x00, 0xff), 0xff);
    let a = [0xf0u8; 16];
    let b = [0x0fu8; 16];
    let mut sel = [0u8; 16];
    sel[3] = 0xff;
    let child = child_dna(&a, &b, &sel);
    assert_eq!(child[3], 0xf0);
    assert_eq!(child[0], 0x0f);
}

#[test]
fn bred_kitty_mixes_the_parents() {
    let mut m = KittiesModule::new();
    let _ = create(&mut m, 1);
    let _ = m.create(1, [9u8; 32], Some(4));
    let k0 = m.kitties(0).unwrap();
    let k1 = m.kitties(1).unwrap();
    assert_eq!(m.breed(1, 0, 1, SEED, Some(5)), Ok(KittyEvent::Created(1, 2)));
    let selector = random_value(&SEED, 1, Some(5));
    assert_eq!(m.kitties(2), Some(Kitty(child_dna(&k0.0, &k1.0, &selector))));
}

#[test]
fn kitty_errors() {
    let mut m = KittiesModule::new();
    let mut balances = Balances::new();
    let _ = create(&mut m, 1);
    let _ = create(&mut m, 2);

    assert_eq!(m.breed(1, 0, 5, SEED, None), Err(KittyError::InvalidKittyId));
    assert_eq!(m.breed(1, 7, 0, SEED, None), Err(KittyError::InvalidKittyId));
    assert_eq!(m.breed(1, 0, 0, SEED, None), Err(KittyError::RequireDifferentParent));
    assert_eq!(m.transfer(1, 3, 9), Err(KittyError::KittyIndexNotExist));
    assert_eq!(m.transfer(1, 3, 1), Err(KittyError::RequireOwner));
    assert_eq!(m.ask(2, 9, Some(5)), Err(KittyError::KittyIndexNotExist));
    assert_eq!(m.ask(2, 0, Some(5)), Err(KittyError::RequireOwner));
    assert_eq!(m.buy(3, 9, 5, &mut balances), Err(KittyError::InvalidKittyId));
    assert_eq!(m.buy(3, 0, 5, &mut balances), Err(KittyError::NotForSale));
    assert_eq!(m.ask(1, 0, Some(50)), Ok(KittyEvent::Ask(1, 0, Some(50))));
    assert_eq!(m.buy(3, 0, 49, &mut balances), Err(KittyError::PriceTooLow));
    assert!(balances.refuses(3, 1, 20000));
    assert!(balances.refuses(3, 1, 10000));
    assert!(!balances.refuses(3, 1, 50));
    assert_eq!(
        m.buy(3, 0, 20000, &mut balances),
        Err(KittyError::Currency(BalanceError::InsufficientBalance))
    );
    assert_eq!(
        m.buy(3, 0, 10000, &mut balances),
        Err(KittyError::Currency(BalanceError::KeepAlive))
    );
    // nothing changed by the refused calls
    assert_eq!(m.kitty_owner(0), Some(1));
    assert_eq!(m.kitty_price(0), Some(50));
    assert_eq!(balances.total_balance(3), 10000);

    // a withdrawn offer
    assert_eq!(m.ask(1, 0, None), Ok(KittyEvent::Ask(1, 0, None)));
    assert_eq!(m.kitty_price(0), None);
}

#[test]
fn sale_keeps_the_paid_price_and_moves_the_kitty() {
    let mut m = KittiesModule::new();
    let mut balances = Balances::new();
    let _ = create(&mut m, 1);
    let _ = create(&mut m, 1);
    let _ = m.ask(1, 0, Some(100));
    assert_eq!(m.buy(3, 0, 150, &mut balances), Ok(KittyEvent::Sold(1, 3, 0, 100)));
    assert_eq!(m.kitty_price(0), Some(150));
    assert_eq!(m.kitty_owner(0), Some(3));
    assert_eq!(m.owner_kitties(1, None), item(Some(1), Some(1)));
    assert_eq!(m.owner_kitties(1, Some(1)), item(None, None));
    assert_eq!(m.owner_kitties(3, None), item(Some(0), Some(0)));
    assert_eq!(balances.total_balance(1), 10150);
    assert_eq!(balances.total_balance(3), 9850);
}

#[test]
fn transfer_to_self_keeps_the_kitty() {
    let mut m = KittiesModule::new();
    let _ = create(&mut m, 1);
    let _ = create(&mut m, 1);
    assert_eq!(m.transfer(1, 1, 0), Ok(KittyEvent::Transferred(1, 1, 0)));
    assert_eq!(m.kitty_owner(0), Some(1));
    // kitty 0 now comes after kitty 1
    assert_eq!(m.owner_kitties(1, None), item(Some(0), Some(1)));
    assert_eq!(m.owner_kitties(1, Some(1)), item(None, Some(0)));
    assert_eq!(m.owner_kitties(1, Some(0)), item(Some(1), None));
}

#[test]
fn insert_owned_kitty_on_fresh_storage() {
    let mut m = KittiesModule::new();
    m.insert_owned_kitty(1, 1);
    assert_eq!(m.owner_kitties(1, None), item(Some(1), Some(1)));
    assert_eq!(m.owner_kitties(1, Some(1)), item(None, None));
    assert_eq!(m.kitty_owner(1), Some(1));
    m.insert_owned_kitty(1, 2);
    assert_eq!(m.owner_kitties(1, None), item(Some(2), Some(1)));
    assert_eq!(m.owner_kitties(1, Some(1)), item(None, Some(2)));
    assert_eq!(m.owner_kitties(1, Some(2)), item(Some(1), None));
    m.insert_owned_kitty(1, 3);
    assert_eq!(m.owner_kitties(1, None), item(Some(3), Some(1)));
    assert_eq!(m.owner_kitties(1, Some(2)), item(Some(1), Some(3)));
    assert_eq!(m.owner_kitties(1, Some(3)), item(Some(2), None));
    // no kitty was stored
    assert_eq!(m.kitties_count(), 0);
    assert_eq!(m.kitties(1), None);
}

#[test]
fn do_transfer_on_list_only_storage() {
    let mut m = KittiesModule::new();
    for k in 1..=5u32 {
        m.insert_owned_kitty(1, k);
    }
    m.do_transfer(1, 2, 3);
    assert_eq!(m.owner_kitties(1, Some(3)), None);
    assert_eq!(m.owner_kitties(1, Some(2)), item(Some(1), Some(4)));
    assert_eq!(m.owner_kitties(1, Some(4)), item(Some(2), Some(5)));
    assert_eq!(m.owner_kitties(2, None), item(Some(3), Some(3)));
    assert_eq!(m.kitty_owner(3), Some(2));
}

#[test]
fn insert_kitty_under_any_free_index() {
    let mut m = KittiesModule::new();
    m.insert_kitty(4, 5, Kitty([1u8; 16]));
    assert_eq!(m.kitties_count(), 6);
    assert_eq!(m.kitties(5), Some(Kitty([1u8; 16])));
    assert_eq!(m.kitties(0), None);
    assert_eq!(m.kitty_owner(5), Some(4));
    assert_eq!(m.owner_kitties(4, None), item(Some(5), Some(5)));
    // the next created kitty takes the index after it
    assert_eq!(create(&mut m, 1), Ok(KittyEvent::Created(1, 6)));
}

#[test]
fn transferred_kitty_is_listed_once() {
    let mut m = KittiesModule::new();
    assert!(create(&mut m, 1).is_ok());
    assert!(create(&mut m, 1).is_ok());
    assert!(create(&mut m, 2).is_ok());
    assert_eq!(m.transfer(1, 2, 0), Ok(KittyEvent::Transferred(1, 2, 0)));
    // kitty 0 now sits in the list of 2 only, after kitty 2
    assert_eq!(m.owner_kitties(1, Some(0)), None);
    assert_eq!(m.owner_kitties(2, Some(0)), item(Some(2), None));
    assert_eq!(m.owner_kitties(2, None), item(Some(0), Some(2)));
    assert_eq!(m.owner_kitties(1, None), item(Some(1), Some(1)));
    assert_eq!(m.kitty_owner(0), Some(2));
    // the other kitties stay listed once, by their owners
    assert_eq!(m.owner_kitties(1, Some(1)), item(None, None));
    assert_eq!(m.owner_kitties(2, Some(1)), None);
    assert_eq!(m.owner_kitties(2, Some(2)), item(None, Some(0)));
    assert_eq!(m.kitty_owner(1), Some(1));
}

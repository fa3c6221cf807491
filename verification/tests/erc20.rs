use pallets::erc20::{AccountId, Erc20, Erc20Event};

#[test]
fn total_supply_works() {
    let value = 10000000;
    let erc20 = Erc20::new(AccountId::from([0x01; 32]), value);
    assert_eq!(erc20.total_supply(), value);
}

#[test]
fn transfer_works() {
    let mut erc20 = Erc20::new(AccountId::from([0x01; 32]), 100_000);
    let from = AccountId::from([0x01; 32]);
    assert_eq!(erc20.balance_of(from), 100_000);
    let to = AccountId::from([0x02; 32]);
    assert!(erc20.transfer(from, to, 50_000));
    assert_eq!(erc20.balance_of(from), 50_000);
    assert_eq!(erc20.balance_of(to), 50_000);
}

#[test]
fn refused_transfer_changes_nothing() {
    let a = [1u8; 32];
    let b = [2u8; 32];
    let mut erc20 = Erc20::new(a, 10);
    assert!(!erc20.transfer(b, a, 1));
    assert!(!erc20.transfer(a, b, 11));
    assert_eq!(erc20.balance_of(a), 10);
    assert_eq!(erc20.balance_of(b), 0);
    assert_eq!(erc20.events().len(), 1);
    assert!(erc20.transfer(a, b, 10));
    assert_eq!(erc20.balance_of(a), 0);
    assert_eq!(erc20.balance_of(b), 10);
    assert_eq!(
        erc20.events()[1],
        Erc20Event::Transfered { from: Some(a), to: Some(b), value: 10 }
    );
}

#[test]
fn transfer_to_self_adds_the_value() {
    let a = [1u8; 32];
    let mut erc20 = Erc20::new(a, 10);
    assert!(erc20.transfer(a, a, 4));
    assert_eq!(erc20.balance_of(a), 14);
    assert_eq!(erc20.total_supply(), 10);
}

#[test]
fn approvals_accumulate() {
    let a = [1u8; 32];
    let b = [2u8; 32];
    let mut erc20 = Erc20::new(a, 10);
    assert_eq!(erc20.approval(a, &b), 0);
    assert!(erc20.approve(a, b, 5));
    assert!(erc20.approve(a, b, 7));
    assert_eq!(erc20.approval(a, &b), 12);
    assert_eq!(erc20.approval(b, &a), 0);
    assert_eq!(erc20.events()[2], Erc20Event::Approved { from: a, to: b, value: 7 });
}

#[test]
fn default_supply() {
    let a = [9u8; 32];
    let erc20 = Erc20::default(a);
    assert_eq!(erc20.total_supply(), 1_000_000_000_000_000);
    assert_eq!(erc20.balance_of(a), 1_000_000_000_000_000);
    assert_eq!(
        erc20.events()[0],
        Erc20Event::Transfered { from: None, to: Some(a), value: 1_000_000_000_000_000 }
    );
}

#[test]
fn transfers_between_accounts_keep_the_supply() {
    let a = [1u8; 32];
    let b = [2u8; 32];
    let c = [3u8; 32];
    let mut erc20 = Erc20::new(a, 1000);
    assert!(erc20.transfer(a, b, 300));
    assert!(erc20.transfer(b, c, 100));
    assert!(erc20.transfer(c, a, 50));
    let total = erc20.balance_of(a) + erc20.balance_of(b) + erc20.balance_of(c);
    assert_eq!(total, erc20.total_supply());
    assert_eq!(erc20.balance_of(a), 750);
    assert_eq!(erc20.balance_of(b), 200);
    assert_eq!(erc20.balance_of(c), 50);
}

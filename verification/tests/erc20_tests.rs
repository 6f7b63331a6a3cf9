//! The token contract, driven as the original contract tests drive it.
//! The contract environment's 32-byte account ids are modelled as plain
//! integers: account `n` stands for the id whose bytes are all `n`.

use kitties::erc20::{Erc20, Erc20Event, Error, Transfer};

#[test]
fn new_works() {
    let erc20 = Erc20::new(1, 100);
    assert_eq!(erc20.total_supply(), 100);
}

#[test]
fn balance_of_works() {
    let erc20 = Erc20::new(1, 100);
    assert_eq!(erc20.balance_of(1), 100);
    assert_eq!(erc20.balance_of(2), 0);
}

#[test]
fn transfer_works() {
    let mut erc20 = Erc20::new(1, 100);
    assert_eq!(erc20.balance_of(1), 100);

    let to_addr: u64 = 2;
    erc20.transfer(1, to_addr, 50).unwrap();

    assert_eq!(erc20.balance_of(1), 50);
    assert_eq!(erc20.balance_of(to_addr), 50);
}

#[test]
fn approve_works() {
    let mut erc20 = Erc20::new(1, 100);
    assert_eq!(erc20.balance_of(1), 100);

    erc20.approve(1, 2, 50).unwrap();
    assert_eq!(erc20.allowance(1, 2), 50);
}

#[test]
fn mint_works() {
    let mut erc20 = Erc20::new(1, 100);
    assert_eq!(erc20.balance_of(1), 100);

    erc20.mint(1, 2, 100).unwrap();
    assert_eq!(erc20.balance_of(2), 100);
    assert_eq!(erc20.total_supply(), 200);
}

#[test]
fn burn_works() {
    let mut erc20 = Erc20::new(1, 100);
    assert_eq!(erc20.balance_of(1), 100);

    erc20.burn(1, 1, 50).unwrap();
    assert_eq!(erc20.balance_of(1), 50);
    assert_eq!(erc20.total_supply(), 50);
}

#[test]
fn transfer_from_works() {
    let mut erc20 = Erc20::new(1, 100);
    erc20.approve(1, 2, 60).unwrap();

    erc20.transfer_from(2, 1, 3, 50).unwrap();
    assert_eq!(erc20.balance_of(1), 50);
    assert_eq!(erc20.balance_of(3), 50);
    assert_eq!(erc20.allowance(1, 2), 10);
}

#[test]
fn transfer_from_failed_when_allowance_not_enough() {
    let mut erc20 = Erc20::new(1, 100);
    erc20.approve(1, 2, 30).unwrap();

    assert_eq!(erc20.transfer_from(2, 1, 3, 50), Err(Error::AllowanceNotEnough));
    assert_eq!(erc20.balance_of(1), 100);
    assert_eq!(erc20.allowance(1, 2), 30);
}

#[test]
fn transfer_from_failed_when_balance_not_enough() {
    let mut erc20 = Erc20::new(1, 100);
    erc20.approve(1, 2, 500).unwrap();

    assert_eq!(erc20.transfer_from(2, 1, 3, 200), Err(Error::InsufficientBalance));
    assert_eq!(erc20.balance_of(1), 100);
    assert_eq!(erc20.allowance(1, 2), 500);
}

#[test]
fn transfer_failed_when_balance_not_enough() {
    let mut erc20 = Erc20::new(1, 100);
    assert_eq!(erc20.transfer(1, 2, 101), Err(Error::InsufficientBalance));
    assert_eq!(erc20.balance_of(1), 100);
    assert_eq!(erc20.balance_of(2), 0);
}

#[test]
fn transfer_logs_event() {
    let mut erc20 = Erc20::new(1, 100);
    erc20.transfer(1, 2, 25).unwrap();
    let events = erc20.events();
    assert_eq!(events.len(), 1);
    assert_eq!(events[0], Erc20Event::Transfer(Transfer { from: 1, to: 2, value: 25 }));
}

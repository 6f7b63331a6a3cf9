//! The registry call surface, driven as the original pallet tests drive
//! it: accounts 1..=5 endowed at genesis, stake 1000.

use kitties::ledger::Ledger;
use kitties::registry::{Event, KittyError, KittyModule};

fn seed() -> [u8; 32] {
    [0u8; 32]
}

fn new_test_module() -> KittyModule {
    let mut ledger = Ledger::new();
    ledger.endow(1, 10000);
    ledger.endow(2, 11000);
    ledger.endow(3, 12000);
    ledger.endow(4, 13000);
    ledger.endow(5, 14000);
    KittyModule::new(ledger)
}

#[test]
fn create_kitty_works() {
    let mut m = new_test_module();
    assert!(m.create(1, &seed(), 0).is_ok());
    assert!(m.has_event(Event::Created(1, 0)));
}

#[test]
fn transfer_kitty_works() {
    let mut m = new_test_module();
    assert!(m.create(1, &seed(), 0).is_ok());
    assert!(m.transfer(1, 2, 0).is_ok());
    assert!(m.has_event(Event::Transferred(1, 2, 0)));
}

#[test]
fn transfer_kitty_failed_when_not_kitty_owner() {
    let mut m = new_test_module();
    assert!(m.create(1, &seed(), 0).is_ok());
    assert_eq!(m.transfer(2, 3, 0), Err(KittyError::RequireOwner));
    // nothing was mutated
    assert_eq!(m.kitty_owners(0), Some(1));
    assert!(!m.has_event(Event::Transferred(2, 3, 0)));
}

#[test]
fn transfer_kitty_failed_when_transfer_to_self() {
    let mut m = new_test_module();
    assert!(m.create(1, &seed(), 0).is_ok());
    assert_eq!(m.transfer(1, 1, 0), Err(KittyError::TransferToSelf));
    assert_eq!(m.kitty_owners(0), Some(1));
}

#[test]
fn transfer_kitty_failed_when_kitty_id_not_exist() {
    let mut m = new_test_module();
    assert_eq!(m.transfer(2, 3, 0), Err(KittyError::InvalidKittyId));
}

#[test]
fn breed_kitty_works() {
    let mut m = new_test_module();
    assert!(m.create(1, &seed(), 0).is_ok());
    assert!(m.create(1, &seed(), 1).is_ok());
    assert!(m.breed(1, 0, 1, &seed(), 2).is_ok());
    assert!(m.has_event(Event::Created(1, 2)));
}

#[test]
fn breed_kitty_failed_when_same_parent() {
    let mut m = new_test_module();
    assert!(m.create(1, &seed(), 0).is_ok());
    assert_eq!(m.breed(2, 0, 0, &seed(), 1), Err(KittyError::RequireDifferentParent));
    assert_eq!(m.kitties_count(), 1);
}

#[test]
fn breed_kitty_failed_when_kitty_id_not_exist() {
    let mut m = new_test_module();
    assert_eq!(m.breed(2, 1, 0, &seed(), 0), Err(KittyError::InvalidKittyId));
}

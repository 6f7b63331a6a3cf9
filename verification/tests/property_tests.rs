//! Concrete checks of the registry's stated properties: identifier
//! allocation, genome derivation and combination, relationship edges,
//! ownership-index consistency, stake economics, and the error cases.

use blake2::{Blake2b128, Digest};
use kitties::genome::{combine_dna, random_value};
use kitties::ledger::{Ledger, LedgerError};
use kitties::registry::{Event, KittyError, KittyModule};

fn seed() -> [u8; 32] {
    let mut s = [0u8; 32];
    let mut i = 0usize;
    while i < 32 {
        s[i] = (7 * i + 3) as u8;
        i += 1;
    }
    s
}

fn new_test_module() -> KittyModule {
    let mut ledger = Ledger::new();
    ledger.endow(1, 10000);
    ledger.endow(2, 11000);
    ledger.endow(3, 12000);
    KittyModule::new(ledger)
}

/// The digest the genome engine is specified to draw: BLAKE2b-128 over
/// seed, then sender and call index in little-endian.
fn expected_random(sender: u64, seed: &[u8; 32], extrinsic_index: u32) -> [u8; 16] {
    let mut payload: Vec<u8> = Vec::new();
    payload.extend_from_slice(seed);
    payload.extend_from_slice(&sender.to_le_bytes());
    payload.extend_from_slice(&extrinsic_index.to_le_bytes());
    let digest = Blake2b128::digest(&payload);
    let mut out = [0u8; 16];
    out.copy_from_slice(&digest);
    out
}

#[test]
fn combine_dna_exact_values() {
    assert_eq!(combine_dna(0xAA, 0x55, 0xF0), 0xA5);
    assert_eq!(combine_dna(0x12, 0x34, 0xFF), 0x12);
    assert_eq!(combine_dna(0x12, 0x34, 0x00), 0x34);
    assert_eq!(combine_dna(0xFF, 0x00, 0x0F), 0x0F);
}

#[test]
fn random_value_is_the_payload_digest() {
    let s = seed();
    let r = random_value(7, &s, 3);
    assert_eq!(r, expected_random(7, &s, 3));
    // the digest is not the payload handed back
    assert_ne!(r, s[0..16]);
    // and it depends on each of the inputs
    assert_ne!(r, random_value(8, &s, 3));
    assert_ne!(r, random_value(7, &s, 4));
    assert_ne!(r, random_value(7, &[9u8; 32], 3));
}

#[test]
fn create_allocates_ids_in_order() {
    let mut m = new_test_module();
    assert_eq!(m.kitties_count(), 0);
    assert_eq!(m.create(1, &seed(), 0), Ok(0));
    assert_eq!(m.kitties_count(), 1);
    assert_eq!(m.create(1, &seed(), 1), Ok(1));
    assert_eq!(m.kitties_count(), 2);
}

#[test]
fn created_genome_is_the_random_draw() {
    let s = seed();
    let mut m = new_test_module();
    assert_eq!(m.create(1, &s, 5), Ok(0));
    let kitty = m.kitties(0).expect("kitty 0 exists");
    assert_eq!(kitty.0, expected_random(1, &s, 5));
}

#[test]
fn bred_genome_combines_parents_bytewise() {
    let s = seed();
    let mut m = new_test_module();
    assert_eq!(m.create(1, &s, 0), Ok(0));
    assert_eq!(m.create(1, &[42u8; 32], 1), Ok(1));
    let g1 = m.kitties(0).unwrap().0;
    let g2 = m.kitties(1).unwrap().0;
    assert_ne!(g1, g2);

    assert_eq!(m.breed(1, 0, 1, &s, 2), Ok(2));
    let selector = expected_random(1, &s, 2);
    let child = m.kitties(2).unwrap().0;
    let mut i = 0usize;
    while i < 16 {
        assert_eq!(child[i], (selector[i] & g1[i]) | (!selector[i] & g2[i]));
        i += 1;
    }
}

#[test]
fn breed_records_relationship_edges() {
    let mut m = new_test_module();
    assert_eq!(m.create(1, &seed(), 0), Ok(0));
    assert_eq!(m.create(1, &seed(), 1), Ok(1));
    assert_eq!(m.breed(1, 0, 1, &seed(), 2), Ok(2));

    assert_eq!(m.kitty_owners(2), Some(1));
    assert_eq!(m.kitty_parents(2), Some((0, 1)));
    assert!(m.kitty_spouse(0, 1));
    assert!(m.kitty_spouse(1, 0));
    assert!(m.kitty_children(0, 2));
    assert!(m.kitty_children(1, 2));
    // a non-bred asset has no parents and no edges
    assert_eq!(m.kitty_parents(0), None);
    assert!(!m.kitty_children(2, 0));
    assert!(!m.kitty_spouse(0, 2));
}

#[test]
fn breed_with_absent_id_mutates_nothing() {
    let mut m = new_test_module();
    assert_eq!(m.create(1, &seed(), 0), Ok(0));
    let free_before = m.ledger().free_balance(1);
    assert_eq!(m.breed(1, 0, 9, &seed(), 1), Err(KittyError::InvalidKittyId));
    assert_eq!(m.kitties_count(), 1);
    assert_eq!(m.ledger().free_balance(1), free_before);
}

#[test]
fn transfer_to_self_mutates_nothing() {
    let mut m = new_test_module();
    assert_eq!(m.create(1, &seed(), 0), Ok(0));
    let free_before = m.ledger().free_balance(1);
    let reserved_before = m.ledger().reserved_balance(1);
    assert_eq!(m.transfer(1, 1, 0), Err(KittyError::TransferToSelf));
    assert_eq!(m.kitty_owners(0), Some(1));
    assert_eq!(m.ledger().free_balance(1), free_before);
    assert_eq!(m.ledger().reserved_balance(1), reserved_before);
}

#[test]
fn ownership_chain_scenario() {
    let mut m = new_test_module();
    // A = 1, B = 2, C = 3
    assert_eq!(m.create(1, &seed(), 0), Ok(0));
    assert!(m.transfer(1, 2, 0).is_ok());
    assert_eq!(m.kitty_owners(0), Some(2));
    // A is no longer the owner: any call signed by A fails,
    // whatever the destination
    assert_eq!(m.transfer(1, 3, 0), Err(KittyError::RequireOwner));
    assert_eq!(m.transfer(1, 2, 0), Err(KittyError::RequireOwner));
    assert_eq!(m.kitty_owners(0), Some(2));
    // the owner B may pass it on
    assert!(m.transfer(2, 3, 0).is_ok());
    assert_eq!(m.kitty_owners(0), Some(3));
}

#[test]
fn ownership_index_matches_owner_map() {
    let mut m = new_test_module();
    assert_eq!(m.create(1, &seed(), 0), Ok(0));
    assert_eq!(m.create(2, &seed(), 1), Ok(1));
    assert!(m.transfer(1, 3, 0).is_ok());
    assert_eq!(m.breed(2, 1, 1, &seed(), 2), Err(KittyError::RequireDifferentParent));

    let accounts = [1u64, 2, 3, 4];
    for account in accounts {
        let mut id = 0u32;
        while id < 4 {
            let owns = m.is_owned_by(account, id);
            let owner_matches = m.kitty_owners(id) == Some(account);
            assert_eq!(owns, owner_matches);
            id += 1;
        }
    }
}

#[test]
fn create_fails_without_stake_balance() {
    let mut ledger = Ledger::new();
    ledger.endow(9, 500);
    let mut m = KittyModule::new(ledger);
    assert_eq!(
        m.create(9, &seed(), 0),
        Err(KittyError::Currency(LedgerError::InsufficientBalance))
    );
    assert_eq!(m.kitties_count(), 0);
}

#[test]
fn breed_fails_without_stake_balance() {
    let mut ledger = Ledger::new();
    ledger.endow(1, 2500);
    let mut m = KittyModule::new(ledger);
    assert_eq!(m.create(1, &seed(), 0), Ok(0));
    assert_eq!(m.create(1, &seed(), 1), Ok(1));
    // 500 free is left: the third stake cannot be reserved
    assert_eq!(
        m.breed(1, 0, 1, &seed(), 2),
        Err(KittyError::Currency(LedgerError::InsufficientBalance))
    );
    assert_eq!(m.kitties_count(), 2);
}

#[test]
fn transfer_fails_when_recipient_balance_would_overflow() {
    let mut ledger = Ledger::new();
    ledger.endow(1, 10000);
    ledger.endow(2, u64::MAX);
    let mut m = KittyModule::new(ledger);
    assert_eq!(m.create(1, &seed(), 0), Ok(0));
    assert_eq!(m.transfer(1, 2, 0), Err(KittyError::Currency(LedgerError::Overflow)));
    assert_eq!(m.kitty_owners(0), Some(1));
    assert_eq!(m.ledger().reserved_balance(1), 1000);
}

#[test]
fn stake_is_reserved_on_create_and_paid_to_recipient_on_transfer() {
    let mut m = new_test_module();
    assert_eq!(m.create(1, &seed(), 0), Ok(0));
    assert_eq!(m.ledger().free_balance(1), 9000);
    assert_eq!(m.ledger().reserved_balance(1), 1000);

    // the outgoing owner's stake is unreserved and then paid to the
    // incoming owner
    assert!(m.transfer(1, 2, 0).is_ok());
    assert_eq!(m.ledger().free_balance(1), 9000);
    assert_eq!(m.ledger().reserved_balance(1), 0);
    assert_eq!(m.ledger().free_balance(2), 12000);
    assert_eq!(m.ledger().reserved_balance(2), 0);
}

#[test]
fn event_log_is_append_only_and_in_order() {
    let mut m = new_test_module();
    assert_eq!(m.create(1, &seed(), 0), Ok(0));
    assert_eq!(m.create(1, &seed(), 1), Ok(1));
    // a failed call appends nothing
    assert_eq!(m.transfer(1, 1, 0), Err(KittyError::TransferToSelf));
    assert!(m.transfer(1, 2, 1).is_ok());
    assert_eq!(m.breed(1, 0, 0, &seed(), 2), Err(KittyError::RequireDifferentParent));
    let events = m.events();
    assert_eq!(events.len(), 3);
    assert_eq!(events[0], Event::Created(1, 0));
    assert_eq!(events[1], Event::Created(1, 1));
    assert_eq!(events[2], Event::Transferred(1, 2, 1));
}

#[test]
fn ledger_reserve_unreserve_and_transfer() {
    let mut ledger = Ledger::new();
    ledger.endow(1, 3000);
    assert_eq!(ledger.reserve(1, 2000), Ok(()));
    assert_eq!(ledger.free_balance(1), 1000);
    assert_eq!(ledger.reserved_balance(1), 2000);
    assert_eq!(ledger.reserve(1, 1500), Err(LedgerError::InsufficientBalance));

    // unreserve is capped by what is actually held
    assert_eq!(ledger.unreserve(1, 5000), 2000);
    assert_eq!(ledger.free_balance(1), 3000);
    assert_eq!(ledger.reserved_balance(1), 0);

    // a transfer may create the recipient's entry
    assert_eq!(ledger.transfer(1, 8, 3000), Ok(()));
    assert_eq!(ledger.free_balance(1), 0);
    assert_eq!(ledger.free_balance(8), 3000);
    assert_eq!(ledger.transfer(1, 8, 1), Err(LedgerError::InsufficientBalance));
}

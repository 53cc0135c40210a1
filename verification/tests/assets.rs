use ledger_core::attribute::Category;
use ledger_core::balances::BalanceLedger;
use ledger_core::registry::AssetRegistry;
use ledger_core::errors::LedgerError;
use ledger_core::events::Event;
use ledger_core::ident::{derive_asset_id, ASSET_ID_LEN};
use ledger_core::service::LedgerService;

fn u64_byte(x: u64, i: usize) -> u8 {
    ((x >> (((i % 8) as u64) * 8)) & 0xff) as u8
}

fn expected_id(nonce: u64, stamp: u64, entropy: &[u8]) -> Vec<u8> {
    let mut id = Vec::new();
    for i in 0..ASSET_ID_LEN {
        let e = if entropy.is_empty() { 0 } else { entropy[i % entropy.len()] };
        id.push(u64_byte(nonce, i) ^ u64_byte(stamp, i) ^ e);
    }
    id
}

#[test]
fn derived_id_matches_formula() {
    let id = derive_asset_id(0, 0, &[]);
    assert_eq!(id, vec![0u8; 32]);
    let id = derive_asset_id(1, 0, &[]);
    let mut want = vec![0u8; 32];
    want[0] = 1;
    want[8] = 1;
    want[16] = 1;
    want[24] = 1;
    assert_eq!(id, want);
    let id = derive_asset_id(0x0102, 0x10, &[0xff, 0x00]);
    assert_eq!(id, expected_id(0x0102, 0x10, &[0xff, 0x00]));
}

#[test]
fn derived_id_is_deterministic() {
    let a = derive_asset_id(7, 99, &[1, 2, 3]);
    let b = derive_asset_id(7, 99, &[1, 2, 3]);
    assert_eq!(a, b);
    let c = derive_asset_id(8, 99, &[1, 2, 3]);
    assert_ne!(a, c);
}

#[test]
fn create_twice_gives_two_records() {
    let mut l = LedgerService::new(10);
    let r1 = l.create_asset(1, 10, 1000, &[1, 2, 3]);
    let r2 = l.create_asset(1, 10, 1001, &[4, 5, 6]);
    assert!(r1.is_ok());
    assert!(r2.is_ok());
    assert_eq!(l.asset_count(), 2);
    assert_eq!(l.owned_len(1), 2);
    assert_eq!(l.next_nonce(), 2);
    let ids = l.owned_ids(1);
    assert_eq!(ids.len(), 2);
    assert_ne!(ids[0], ids[1]);
    assert_eq!(l.asset_owner(&ids[0]), Some(1));
    assert_eq!(l.asset_price(&ids[0]), Some(10));
    assert_eq!(l.asset_created_at(&ids[0]), Some(1000));
}

#[test]
fn created_event_carries_the_derived_id() {
    let mut l = LedgerService::new(10);
    let want = expected_id(0, 42, &[9, 9]);
    let r = l.create_asset(3, 5, 42, &[9, 9]);
    assert_eq!(r, Ok(Event::AssetCreated { id: want.clone(), owner: 3 }));
    assert!(l.has(&want));
    assert_eq!(l.asset_owner(&want), Some(3));
}

#[test]
fn asset_attribute_is_derived_from_id_length() {
    let mut l = LedgerService::new(10);
    l.create_asset(1, 0, 0, &[]).unwrap();
    let ids = l.owned_ids(1);
    // every id has the fixed even length, so the category is Even
    assert_eq!(ids[0].len(), ASSET_ID_LEN);
    assert_eq!(l.asset_attribute(&ids[0]), Some(Category::Even));
}

#[test]
fn forced_collision_fails_and_keeps_nonce() {
    let mut l = LedgerService::new(10);
    l.create_asset(1, 10, 1000, &[7; 32]).unwrap();
    let ids = l.owned_ids(1);
    let id1 = &ids[0];
    assert_eq!(l.next_nonce(), 1);
    // craft entropy so the next derivation reproduces id1
    let stamp2: u64 = 2000;
    let mut entropy2 = vec![0u8; 32];
    for i in 0..32 {
        entropy2[i] = id1[i] ^ u64_byte(1, i) ^ u64_byte(stamp2, i);
    }
    let r = l.create_asset(2, 10, stamp2, &entropy2);
    assert_eq!(r, Err(LedgerError::DuplicateAsset));
    assert_eq!(l.next_nonce(), 1);
    assert_eq!(l.asset_count(), 1);
    assert_eq!(l.owned_len(2), 0);
}

#[test]
fn transfer_asset_moves_it_between_indexes() {
    let mut l = LedgerService::new(10);
    l.create_asset(1, 10, 0, &[1]).unwrap();
    let ids = l.owned_ids(1);
    let id = ids[0].clone();
    let r = l.transfer_asset(1, 2, &id);
    assert_eq!(r, Ok(Event::AssetTransferred { id: id.clone(), from: 1, to: 2 }));
    assert_eq!(l.owned_len(1), 0);
    let owned2 = l.owned_ids(2);
    assert_eq!(owned2, vec![id.clone()]);
    assert_eq!(l.asset_owner(&id), Some(2));
    // the id appears exactly once in the receiver's list
    assert_eq!(owned2.iter().filter(|x| **x == id).count(), 1);
}

#[test]
fn transfer_asset_error_cases() {
    let mut l = LedgerService::new(10);
    l.create_asset(1, 10, 0, &[1]).unwrap();
    let id = l.owned_ids(1)[0].clone();
    assert_eq!(l.transfer_asset(1, 2, &vec![0u8; 32]), Err(LedgerError::NotFound));
    assert_eq!(l.transfer_asset(3, 2, &id), Err(LedgerError::NotOwner));
    assert_eq!(l.transfer_asset(1, 1, &id), Err(LedgerError::SelfTransfer));
    assert_eq!(l.asset_owner(&id), Some(1));
    assert_eq!(l.owned_len(1), 1);
}

#[test]
fn owner_index_respects_capacity_on_create() {
    let mut l = LedgerService::new(2);
    assert!(l.create_asset(1, 0, 0, &[1]).is_ok());
    assert!(l.create_asset(1, 0, 0, &[2]).is_ok());
    let before_nonce = l.next_nonce();
    let r = l.create_asset(1, 0, 0, &[3]);
    assert_eq!(r, Err(LedgerError::CapacityExceeded));
    assert_eq!(l.owned_len(1), 2);
    assert_eq!(l.asset_count(), 2);
    assert_eq!(l.next_nonce(), before_nonce);
}

#[test]
fn transfer_to_full_owner_fails_and_keeps_owner() {
    let mut l = LedgerService::new(2);
    assert!(l.create_asset(2, 0, 0, &[1]).is_ok());
    assert!(l.create_asset(2, 0, 0, &[2]).is_ok());
    assert!(l.create_asset(1, 0, 0, &[3]).is_ok());
    let id = l.owned_ids(1)[0].clone();
    let before = l.owned_ids(1);
    let r = l.transfer_asset(1, 2, &id);
    assert_eq!(r, Err(LedgerError::CapacityExceeded));
    assert_eq!(l.asset_owner(&id), Some(1));
    assert_eq!(l.owned_ids(1), before);
    assert_eq!(l.owned_len(2), 2);
}

#[test]
fn unknown_owner_has_no_assets() {
    let l = LedgerService::new(10);
    assert_eq!(l.owned_len(5), 0);
    assert_eq!(l.owned_ids(5), Vec::<Vec<u8>>::new());
    assert!(!l.has(&vec![0u8; 32]));
    assert_eq!(l.asset_owner(&vec![0u8; 32]), None);
    assert_eq!(l.asset_price(&vec![0u8; 32]), None);
    assert_eq!(l.asset_attribute(&vec![0u8; 32]), None);
    assert_eq!(l.asset_created_at(&vec![0u8; 32]), None);
}

#[test]
fn nonce_exhaustion_reports_overflow() {
    let mut l = LedgerService {
        balances: BalanceLedger { entries: Vec::new(), total: 0 },
        assets: AssetRegistry {
            records: Vec::new(),
            owners: Vec::new(),
            next_nonce: u64::MAX,
            capacity: 5,
        },
    };
    let r = l.create_asset(1, 0, 0, &[]);
    assert_eq!(r, Err(LedgerError::Overflow));
    assert_eq!(l.next_nonce(), u64::MAX);
    assert_eq!(l.asset_count(), 0);
}

#[test]
fn mint_kitty() {
    let mut l = LedgerService::new(10);
    let r = l.create_asset(1, 100, 0, &[]);
    assert!(r.is_ok());
}

#[test]
fn correct_error_for_none_value() {
    // Ensure the expected error is thrown when no value is present.
    let mut l = LedgerService::new(10);
    let r = l.transfer_asset(1, 2, &vec![5u8; 32]);
    assert_eq!(r, Err(LedgerError::NotFound));
}

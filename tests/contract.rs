use arcnes_nft::error::NftError;
use arcnes_nft::events::{NFTExtensionsEventKind, SetRoyalty, SetTokenMetadata};
use arcnes_nft::lock::NonFungibleTokenLock;
use arcnes_nft::metadata::NonFungibleTokenMetadata;
use arcnes_nft::royalty::{NonFungibleTokenRoyalty, Royalty};
use arcnes_nft::state::{assert_one_yocto, Contract};
use near_contract_standards::non_fungible_token::metadata::TokenMetadata;

fn owner() -> String {
    "owner.near".to_string()
}

fn schedule(entries: &[(&str, u32)]) -> Royalty {
    let mut r = Royalty::new();
    for (account, share) in entries {
        r.insert(account.to_string(), *share);
    }
    r
}

fn empty_metadata() -> TokenMetadata {
    TokenMetadata {
        title: None,
        description: None,
        media: None,
        media_hash: None,
        copies: None,
        issued_at: None,
        expires_at: None,
        starts_at: None,
        updated_at: None,
        extra: None,
        reference: None,
        reference_hash: None,
    }
}

#[test]
fn set_royalty_event() {
    let event = SetRoyalty {
        previous_royalty: Royalty::new(),
        new_royalty: schedule(&[("test.near", 200)]),
    };
    let log = event.emit();
    assert_eq!(log.standard, "arcnes_nft");
    assert_eq!(log.version, "1.0.0");
    match log.event {
        NFTExtensionsEventKind::SetRoyalty(e) => {
            assert!(e.previous_royalty.entries.is_empty());
            assert_eq!(e.new_royalty.entries, vec![("test.near".to_string(), 200)]);
        }
        _ => panic!("wrong event kind"),
    }
}

#[test]
fn set_token_metadata_event() {
    let event = SetTokenMetadata {
        token_id: "1".to_string(),
        previous_token_metadata: None,
        new_token_metadata: empty_metadata(),
    };
    let log = event.emit();
    assert_eq!(log.standard, "arcnes_nft");
    assert_eq!(log.version, "1.0.0");
    match log.event {
        NFTExtensionsEventKind::SetTokenMetadata(e) => {
            assert_eq!(e.token_id, "1");
            assert!(e.previous_token_metadata.is_none());
            assert_eq!(e.new_token_metadata, empty_metadata());
        }
        _ => panic!("wrong event kind"),
    }
}

#[test]
fn lock_twice_succeeds() {
    let mut c = Contract::new(owner());
    assert!(!c.is_locked().is_locked);
    assert_eq!(c.nft_lock(&owner(), 1), Ok(()));
    assert!(c.is_locked().is_locked);
    assert_eq!(c.nft_lock(&owner(), 1), Ok(()));
    assert!(c.is_locked().is_locked);
}

#[test]
fn lock_requires_owner_and_deposit() {
    let mut c = Contract::new(owner());
    assert_eq!(c.nft_lock(&"eve.near".to_string(), 1), Err(NftError::Unauthorized));
    assert_eq!(c.nft_lock(&owner(), 0), Err(NftError::PaymentMarkerRequired));
    assert_eq!(c.nft_lock(&owner(), 2), Err(NftError::PaymentMarkerRequired));
    assert!(!c.is_locked().is_locked);
}

#[test]
fn set_royalty_replaces_schedule_and_reports_change() {
    let mut c = Contract::new(owner());
    let first = schedule(&[("alice", 500)]);
    let ev = c.set_nft_royalty(&owner(), 1, first).unwrap();
    assert!(ev.previous_royalty.entries.is_empty());
    assert_eq!(ev.new_royalty.entries, vec![("alice".to_string(), 500)]);
    let second = schedule(&[("bob", 300)]);
    let ev = c.set_nft_royalty(&owner(), 1, second).unwrap();
    assert_eq!(ev.previous_royalty.entries, vec![("alice".to_string(), 500)]);
    assert_eq!(c.nft_royalty().royalty.entries, vec![("bob".to_string(), 300)]);
}

#[test]
fn set_royalty_refusals_change_nothing() {
    let mut c = Contract::new(owner());
    c.set_nft_royalty(&owner(), 1, schedule(&[("alice", 500)])).unwrap();
    let bad = schedule(&[("alice", 9999), ("bob", 1)]);
    assert!(matches!(c.set_nft_royalty(&owner(), 1, bad), Err(NftError::RoyaltyExceedsTotal)));
    assert!(matches!(
        c.set_nft_royalty(&"eve.near".to_string(), 1, schedule(&[("eve.near", 1)])),
        Err(NftError::Unauthorized)
    ));
    assert!(matches!(
        c.set_nft_royalty(&owner(), 0, schedule(&[("bob", 1)])),
        Err(NftError::PaymentMarkerRequired)
    ));
    assert_eq!(c.nft_royalty().royalty.entries, vec![("alice".to_string(), 500)]);
}

#[test]
fn locked_contract_refuses_mutations() {
    let mut c = Contract::new(owner());
    c.nft_lock(&owner(), 1).unwrap();
    assert!(matches!(
        c.set_nft_royalty(&owner(), 1, schedule(&[("alice", 500)])),
        Err(NftError::Locked)
    ));
    assert!(matches!(
        c.set_token_metadata(&owner(), 1, "1".to_string(), None, empty_metadata()),
        Err(NftError::Locked)
    ));
    assert!(matches!(
        c.set_nft_royalty(&owner(), 1, schedule(&[("alice", 5)])),
        Err(NftError::Locked)
    ));
    assert!(c.nft_royalty().royalty.entries.is_empty());
}

#[test]
fn metadata_update_is_authorized_for_owner() {
    let c = Contract::new(owner());
    let ev = c
        .set_token_metadata(&owner(), 1, "7".to_string(), None, empty_metadata())
        .unwrap();
    assert_eq!(ev.token_id, "7");
    assert!(matches!(
        c.set_token_metadata(&"eve.near".to_string(), 1, "7".to_string(), None, empty_metadata()),
        Err(NftError::Unauthorized)
    ));
}

#[test]
fn payout_view_matches_transfer_payout() {
    let mut c = Contract::new(owner());
    c.set_nft_royalty(&owner(), 1, schedule(&[("alice", 500), ("bob", 300)])).unwrap();
    let seller = "carol".to_string();
    let view = c.nft_payout(&seller, 10000, 10).unwrap();
    let again = c.nft_payout(&seller, 10000, 10).unwrap();
    let paid = c.nft_transfer_payout(1, &seller, 10000, 10).unwrap();
    assert_eq!(view.payout, again.payout);
    assert_eq!(view.payout, paid.payout);
    assert_eq!(
        paid.payout,
        vec![("alice".to_string(), 500), ("bob".to_string(), 300), ("carol".to_string(), 9200)]
    );
}

#[test]
fn transfer_payout_requires_deposit() {
    let c = Contract::new(owner());
    assert!(matches!(
        c.nft_transfer_payout(0, &"carol".to_string(), 10, 10),
        Err(NftError::PaymentMarkerRequired)
    ));
    assert_eq!(assert_one_yocto(1), Ok(()));
}

use arcnes_nft::error::NftError;
use arcnes_nft::royalty::{assert_valid_royalty, compute_payout, Payout, Royalty};

fn schedule(entries: &[(&str, u32)]) -> Royalty {
    let mut r = Royalty::new();
    for (account, share) in entries {
        r.insert(account.to_string(), *share);
    }
    r
}

fn entries(p: &Payout) -> Vec<(String, u128)> {
    p.payout.clone()
}

fn sorted(p: &Payout) -> Vec<(String, u128)> {
    let mut v = entries(p);
    v.sort();
    v
}

fn total(p: &Payout) -> u128 {
    p.payout.iter().map(|e| e.1).sum()
}

#[test]
fn two_beneficiaries_exact_split() {
    let r = schedule(&[("alice", 500), ("bob", 300)]);
    let p = compute_payout(&r, &"carol".to_string(), 10000, 10).unwrap();
    assert_eq!(
        entries(&p),
        vec![("alice".to_string(), 500), ("bob".to_string(), 300), ("carol".to_string(), 9200)]
    );
    assert_eq!(total(&p), 10000);
}

#[test]
fn rounding_loss_is_not_redistributed() {
    let r = schedule(&[("alice", 3333)]);
    let p = compute_payout(&r, &"carol".to_string(), 100, 10).unwrap();
    assert_eq!(entries(&p), vec![("alice".to_string(), 33), ("carol".to_string(), 66)]);
    assert_eq!(total(&p), 99);
}

#[test]
fn seven_entries_are_too_many() {
    let r = schedule(&[("a", 1), ("b", 1), ("c", 1), ("d", 1), ("e", 1), ("f", 1), ("g", 1)]);
    assert_eq!(assert_valid_royalty(&r), Err(NftError::TooManyBeneficiaries));
}

#[test]
fn six_entries_are_accepted() {
    let r = schedule(&[("a", 1), ("b", 1), ("c", 1), ("d", 1), ("e", 1), ("f", 1)]);
    assert_eq!(assert_valid_royalty(&r), Ok(()));
}

#[test]
fn full_hundred_percent_is_refused() {
    let r = schedule(&[("alice", 9999), ("bob", 1)]);
    assert_eq!(assert_valid_royalty(&r), Err(NftError::RoyaltyExceedsTotal));
}

#[test]
fn just_below_hundred_percent_is_accepted() {
    let r = schedule(&[("alice", 9998), ("bob", 1)]);
    assert_eq!(assert_valid_royalty(&r), Ok(()));
}

#[test]
fn huge_shares_do_not_wrap_the_sum() {
    let r = schedule(&[("alice", u32::MAX), ("bob", 1)]);
    assert_eq!(assert_valid_royalty(&r), Err(NftError::RoyaltyExceedsTotal));
}

#[test]
fn empty_schedule_pays_the_owner_everything() {
    let r = Royalty::new();
    assert_eq!(assert_valid_royalty(&r), Ok(()));
    let p = compute_payout(&r, &"carol".to_string(), 12345, 0).unwrap();
    assert_eq!(entries(&p), vec![("carol".to_string(), 12345)]);
}

#[test]
fn zero_shares_are_allowed() {
    let r = schedule(&[("alice", 0)]);
    assert_eq!(assert_valid_royalty(&r), Ok(()));
    let p = compute_payout(&r, &"carol".to_string(), 500, 1).unwrap();
    assert_eq!(entries(&p), vec![("alice".to_string(), 0), ("carol".to_string(), 500)]);
}

#[test]
fn caller_cap_is_enforced() {
    let r = schedule(&[("alice", 500), ("bob", 300)]);
    assert!(matches!(
        compute_payout(&r, &"carol".to_string(), 10000, 1),
        Err(NftError::TooManyRecipientsForCaller)
    ));
    assert!(compute_payout(&r, &"carol".to_string(), 10000, 2).is_ok());
}

#[test]
fn owner_share_in_schedule_is_folded_into_residual() {
    let r = schedule(&[("alice", 500), ("carol", 1000)]);
    let p = compute_payout(&r, &"carol".to_string(), 10000, 10).unwrap();
    assert_eq!(entries(&p), vec![("alice".to_string(), 500), ("carol".to_string(), 9500)]);
}

#[test]
fn largest_amount_does_not_overflow() {
    let r = schedule(&[("alice", 9999)]);
    let p = compute_payout(&r, &"carol".to_string(), u128::MAX, 10).unwrap();
    let a = u128::MAX;
    let alice = (a / 10000) * 9999 + (a % 10000) * 9999 / 10000;
    let carol = a / 10000 + (a % 10000) / 10000;
    assert_eq!(entries(&p), vec![("alice".to_string(), alice), ("carol".to_string(), carol)]);
    assert!(total(&p) <= a);
    assert!(a - total(&p) <= 1);
}

#[test]
fn shortfall_bounded_by_beneficiaries() {
    let r = schedule(&[("a", 1111), ("b", 2222), ("c", 3333)]);
    let p = compute_payout(&r, &"owner".to_string(), 7, 10).unwrap();
    assert!(total(&p) <= 7);
    assert!(7 - total(&p) <= 3);
}

#[test]
fn multiple_of_denominator_loses_nothing() {
    let r = schedule(&[("a", 1111), ("b", 2222), ("c", 3333)]);
    let p = compute_payout(&r, &"owner".to_string(), 30000, 10).unwrap();
    assert_eq!(total(&p), 30000);
}

#[test]
fn order_of_entries_does_not_matter() {
    let r1 = schedule(&[("alice", 500), ("bob", 300), ("carol", 100)]);
    let r2 = schedule(&[("carol", 100), ("alice", 500), ("bob", 300)]);
    let first = compute_payout(&r1, &"carol".to_string(), 9876, 10).unwrap();
    let second = compute_payout(&r2, &"carol".to_string(), 9876, 10).unwrap();
    assert_eq!(sorted(&first), sorted(&second));
}

#[test]
fn insert_replaces_existing_share() {
    let mut r = schedule(&[("alice", 500), ("bob", 300)]);
    r.insert("alice".to_string(), 700);
    assert_eq!(r.len(), 2);
    assert_eq!(r.entries, vec![("alice".to_string(), 700), ("bob".to_string(), 300)]);
}

#[test]
fn copy_keeps_entries() {
    let r = schedule(&[("alice", 500), ("bob", 300)]);
    assert_eq!(r.copy().entries, r.entries);
}

#[test]
fn error_reasons() {
    assert_eq!(NftError::Unauthorized.reason(), "Unauthorized");
    assert_eq!(NftError::Locked.reason(), "Locked function");
}

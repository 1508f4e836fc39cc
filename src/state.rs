use vstd::prelude::*;

use crate::error::NftError;
use crate::events::{SetRoyalty, SetTokenMetadata};
use crate::lock::{IsLocked, NonFungibleTokenLock};
use crate::metadata::NonFungibleTokenMetadata;
use near_contract_standards::non_fungible_token::metadata::TokenMetadata;
use crate::royalty::{
    assert_valid_royalty, compute_payout, keys_unique, payout_entries, schedule_valid,
    JsonRoyalty, NonFungibleTokenRoyalty, Payout, Royalty,
};
use crate::AccountId;

verus! {

/// The deposit that marks a mutating call as deliberate.
pub const ONE_YOCTO: u128 = 1;

/// The extension state as the contracts of the extension interfaces see it.
pub trait ExtensionsView {
    /// The collection owner.
    spec fn owner_view(&self) -> Seq<char>;

    /// Whether the lock is set.
    spec fn locked_view(&self) -> bool;

    /// The stored royalty schedule.
    spec fn royalty_view(&self) -> Seq<(Seq<char>, u32)>;

    /// The stored schedule is a valid mapping.
    spec fn wf_view(&self) -> bool;
}

/// The outcome of the checks that guard an owner-only call: the deposit
/// marker first, then the caller's identity.
pub open spec fn owner_check(owner: Seq<char>, caller: Seq<char>, attached_deposit: u128) -> Result<
    (),
    NftError,
> {
    if attached_deposit != ONE_YOCTO {
        Err(NftError::PaymentMarkerRequired)
    } else if caller != owner {
        Err(NftError::Unauthorized)
    } else {
        Ok(())
    }
}

/// The outcome of the checks that guard a lockable mutation: those of an
/// owner-only call, then the lock.
pub open spec fn mutation_check(
    owner: Seq<char>,
    locked: bool,
    caller: Seq<char>,
    attached_deposit: u128,
) -> Result<(), NftError> {
    if owner_check(owner, caller, attached_deposit) is Err {
        owner_check(owner, caller, attached_deposit)
    } else if locked {
        Err(NftError::Locked)
    } else {
        Ok(())
    }
}

/// Once locked, every lockable mutation is refused: by the deposit or caller
/// checks where those fail, and with `Locked` for the owner with the deposit.
pub proof fn lemma_locked_refuses_mutation(owner: Seq<char>, caller: Seq<char>, attached_deposit: u128)
    ensures
        mutation_check(owner, true, caller, attached_deposit) is Err,
        caller == owner && attached_deposit == ONE_YOCTO ==> mutation_check(
            owner,
            true,
            caller,
            attached_deposit,
        ) == Err::<(), NftError>(NftError::Locked),
{
}

/// Any caller other than the owner is refused with `Unauthorized`, by the lock
/// and by every lockable mutation, even with the deposit attached.
pub proof fn lemma_only_owner(owner: Seq<char>, locked: bool, caller: Seq<char>)
    requires
        caller != owner,
    ensures
        owner_check(owner, caller, ONE_YOCTO) == Err::<(), NftError>(NftError::Unauthorized),
        mutation_check(owner, locked, caller, ONE_YOCTO) == Err::<(), NftError>(
            NftError::Unauthorized,
        ),
{
}

/// Requires exactly one unit of attached deposit.
pub fn assert_one_yocto(attached_deposit: u128) -> (r: Result<(), NftError>)
    ensures
        r is Ok <==> attached_deposit == ONE_YOCTO,
        r is Err ==> r->Err_0 == NftError::PaymentMarkerRequired,
{
    if attached_deposit != ONE_YOCTO {
        Err(NftError::PaymentMarkerRequired)
    } else {
        Ok(())
    }
}

/// The persistent state of the extensions: the collection owner, the royalty
/// schedule and the lock.
pub struct Contract {
    pub owner_id: AccountId,
    pub royalty: Royalty,
    pub is_locked: bool,
}

impl Contract {
    /// Fresh state: the given owner, an empty schedule, unlocked.
    pub fn new(owner_id: AccountId) -> (r: Contract)
        ensures
            r.wf(),
            r.owner_id@ == owner_id@,
            r.royalty@.len() == 0,
            !r.is_locked,
    {
        Contract { owner_id, royalty: Royalty::new(), is_locked: false }
    }

    /// The stored schedule names each beneficiary once and may be stored.
    pub open spec fn wf(&self) -> bool {
        keys_unique(self.royalty@) && schedule_valid(self.royalty@)
    }

    /// Runs the checks of an owner-only call.
    pub fn check_owner(&self, caller: &AccountId, attached_deposit: u128) -> (r: Result<(), NftError>)
        ensures
            r == owner_check(self.owner_id@, caller@, attached_deposit),
    {
        assert_one_yocto(attached_deposit)?;
        if *caller != self.owner_id {
            return Err(NftError::Unauthorized);
        }
        Ok(())
    }

    /// Runs the checks of a lockable mutation.
    pub fn check_mutation(&self, caller: &AccountId, attached_deposit: u128) -> (r: Result<(), NftError>)
        ensures
            r == mutation_check(self.owner_id@, self.is_locked, caller@, attached_deposit),
    {
        match self.check_owner(caller, attached_deposit) {
            Err(e) => Err(e),
            Ok(()) => {
                if self.is_locked {
                    Err(NftError::Locked)
                } else {
                    Ok(())
                }
            },
        }
    }
}

impl ExtensionsView for Contract {
    open spec fn owner_view(&self) -> Seq<char> {
        self.owner_id@
    }

    open spec fn locked_view(&self) -> bool {
        self.is_locked
    }

    open spec fn royalty_view(&self) -> Seq<(Seq<char>, u32)> {
        self.royalty@
    }

    open spec fn wf_view(&self) -> bool {
        self.wf()
    }
}

impl NonFungibleTokenLock for Contract {
    fn nft_lock(&mut self, caller: &AccountId, attached_deposit: u128) -> (r: Result<(), NftError>) {
        self.check_owner(caller, attached_deposit)?;
        self.is_locked = true;
        Ok(())
    }

    fn is_locked(&self) -> (r: IsLocked) {
        IsLocked { is_locked: self.is_locked }
    }
}

impl NonFungibleTokenMetadata for Contract {
    fn set_token_metadata(
        &self,
        caller: &AccountId,
        attached_deposit: u128,
        token_id: String,
        previous_token_metadata: Option<TokenMetadata>,
        token_metadata: TokenMetadata,
    ) -> (r: Result<SetTokenMetadata, NftError>) {
        self.check_mutation(caller, attached_deposit)?;
        Ok(SetTokenMetadata { token_id, previous_token_metadata, new_token_metadata: token_metadata })
    }
}

impl NonFungibleTokenRoyalty for Contract {
    fn nft_payout(&self, owner_id: &AccountId, balance: u128, max_len_payout: u32) -> (r: Result<
        Payout,
        NftError,
    >) {
        compute_payout(&self.royalty, owner_id, balance, max_len_payout)
    }

    fn nft_transfer_payout(
        &self,
        attached_deposit: u128,
        previous_owner_id: &AccountId,
        balance: u128,
        max_len_payout: u32,
    ) -> (r: Result<Payout, NftError>) {
        assert_one_yocto(attached_deposit)?;
        compute_payout(&self.royalty, previous_owner_id, balance, max_len_payout)
    }

    fn nft_royalty(&self) -> (r: JsonRoyalty) {
        JsonRoyalty { royalty: self.royalty.copy() }
    }

    fn set_nft_royalty(&mut self, caller: &AccountId, attached_deposit: u128, royalty: Royalty) -> (r:
        Result<SetRoyalty, NftError>) {
        self.check_mutation(caller, attached_deposit)?;
        assert_valid_royalty(&royalty)?;
        let previous_royalty = self.royalty.copy();
        self.royalty = royalty.copy();
        Ok(SetRoyalty { previous_royalty, new_royalty: royalty })
    }
}

} // verus!

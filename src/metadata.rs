use vstd::prelude::*;

use crate::error::NftError;
use crate::events::SetTokenMetadata;
use crate::state::{mutation_check, ExtensionsView};
use crate::AccountId;



verus! {

#[verifier::external_type_specification]
#[verifier::external_body]
pub struct ExTokenMetadata(near_contract_standards::non_fungible_token::metadata::TokenMetadata);

/// Replacing the metadata of one token; subject to the lock.
pub trait NonFungibleTokenMetadata: ExtensionsView {
    /// Authorizes replacing the metadata of `token_id` and returns the event that
    /// records it. The caller stores `token_metadata` only when this succeeds.
    fn set_token_metadata(
        &self,
        caller: &AccountId,
        attached_deposit: u128,
        token_id: String,
        previous_token_metadata: Option<near_contract_standards::non_fungible_token::metadata::TokenMetadata>,
        token_metadata: near_contract_standards::non_fungible_token::metadata::TokenMetadata,
    ) -> (r: Result<SetTokenMetadata, NftError>)
        ensures
            r is Ok <==> mutation_check(
                self.owner_view(),
                self.locked_view(),
                caller@,
                attached_deposit,
            ) is Ok,
            r is Err ==> r->Err_0 == mutation_check(
                self.owner_view(),
                self.locked_view(),
                caller@,
                attached_deposit,
            )->Err_0,
            r is Ok ==> r->Ok_0.token_id == token_id && r->Ok_0.previous_token_metadata
                == previous_token_metadata && r->Ok_0.new_token_metadata == token_metadata,
    ;
}

} // verus!

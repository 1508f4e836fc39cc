use vstd::prelude::*;

use crate::error::NftError;
use crate::state::{owner_check, ExtensionsView};
use crate::AccountId;

verus! {

/// Whether the extensions are locked.
pub struct IsLocked {
    pub is_locked: bool,
}

/// The one-way lock on the mutable metadata and royalty surface.
pub trait NonFungibleTokenLock: ExtensionsView {
    /// Locks the extensions: afterwards every function that modifies token
    /// metadata or the royalty schedule is refused. Locking again is a no-op.
    fn nft_lock(&mut self, caller: &AccountId, attached_deposit: u128) -> (r: Result<(), NftError>)
        requires
            old(self).wf_view(),
        ensures
            final(self).wf_view(),
            r == owner_check(old(self).owner_view(), caller@, attached_deposit),
            final(self).owner_view() == old(self).owner_view(),
            final(self).royalty_view() == old(self).royalty_view(),
            final(self).locked_view() == (old(self).locked_view() || r is Ok),
    ;

    /// Reports whether the extensions are locked.
    fn is_locked(&self) -> (r: IsLocked)
        ensures
            r.is_locked == self.locked_view(),
    ;
}

} // verus!

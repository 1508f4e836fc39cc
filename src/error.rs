use vstd::prelude::*;

verus! {

/// Why a call into the extensions was rejected.
#[derive(Debug, Clone, Copy, PartialEq, Eq, Structural)]
pub enum NftError {
    /// The call must carry exactly one unit of attached deposit.
    PaymentMarkerRequired,
    /// The caller is not the collection owner.
    Unauthorized,
    /// The extensions are locked against mutation.
    Locked,
    /// A royalty schedule names more than six beneficiaries.
    TooManyBeneficiaries,
    /// The shares of a royalty schedule add up to 100% or more.
    RoyaltyExceedsTotal,
    /// The schedule has more entries than the caller can pay out.
    TooManyRecipientsForCaller,
}

impl NftError {
    /// A human-readable reason for the rejection.
    pub fn reason(&self) -> (r: &'static str) {
        match self {
            NftError::PaymentMarkerRequired => "Requires attached deposit of exactly 1 yoctoNEAR",
            NftError::Unauthorized => "Unauthorized",
            NftError::Locked => "Locked function",
            NftError::TooManyBeneficiaries => "Cannot add more than 6 royalty amounts",
            NftError::RoyaltyExceedsTotal => "Cannot set 100% or more for royalties",
            NftError::TooManyRecipientsForCaller => "Market cannot payout to that many receivers",
        }
    }
}

} // verus!

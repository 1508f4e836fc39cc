use vstd::prelude::*;
use vstd::string::StringExecFns;

use near_contract_standards::non_fungible_token::metadata::TokenMetadata;
use crate::royalty::Royalty;
use crate::{CONTRACT_STANDARD, CONTRACT_VERSION};

verus! {

/// The royalty schedule was replaced.
#[must_use]
pub struct SetRoyalty {
    pub previous_royalty: Royalty,
    pub new_royalty: Royalty,
}

impl SetRoyalty {
    /// The log record of this event, ready for the host's event log.
    pub fn emit(self) -> (r: EventLog)
        ensures
            r.standard@ == CONTRACT_STANDARD@,
            r.version@ == CONTRACT_VERSION@,
            r.event == NFTExtensionsEventKind::SetRoyalty(self),
    {
        new_log(NFTExtensionsEventKind::SetRoyalty(self))
    }
}

/// The metadata of one token was replaced.
#[must_use]
pub struct SetTokenMetadata {
    pub token_id: String,
    pub previous_token_metadata: Option<TokenMetadata>,
    pub new_token_metadata: TokenMetadata,
}

impl SetTokenMetadata {
    /// The log record of this event, ready for the host's event log.
    pub fn emit(self) -> (r: EventLog)
        ensures
            r.standard@ == CONTRACT_STANDARD@,
            r.version@ == CONTRACT_VERSION@,
            r.event == NFTExtensionsEventKind::SetTokenMetadata(self),
    {
        new_log(NFTExtensionsEventKind::SetTokenMetadata(self))
    }
}

/// The kinds of event these extensions record.
pub enum NFTExtensionsEventKind {
    SetRoyalty(SetRoyalty),
    SetTokenMetadata(SetTokenMetadata),
}

/// One event record: the standard it follows, its schema version, and the event.
pub struct EventLog {
    pub standard: String,
    pub version: String,
    pub event: NFTExtensionsEventKind,
}

fn new_log(event_variant: NFTExtensionsEventKind) -> (r: EventLog)
    ensures
        r.standard@ == CONTRACT_STANDARD@,
        r.version@ == CONTRACT_VERSION@,
        r.event == event_variant,
{
    EventLog {
        standard: <String as StringExecFns>::from_str(CONTRACT_STANDARD),
        version: <String as StringExecFns>::from_str(CONTRACT_VERSION),
        event: event_variant,
    }
}

} // verus!

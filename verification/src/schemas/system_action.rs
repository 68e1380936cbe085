//! System action records. The upstream payload is free-form JSON; the
//! library keeps the one field the converters read, the payload's `type`
//! string, which the caller extracts when it decodes the record.

use vstd::prelude::*;

verus! {

#[derive(Debug, Clone)]
pub struct SystemAction {
    pub user: String,
    pub nonce: u64,
    pub evm_tx_hash: String,
    pub action_type: Option<String>,
}

} // verus!

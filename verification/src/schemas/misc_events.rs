//! Miscellaneous ledger events: deposits, withdrawals, delegations,
//! validator rewards, funding payments and ledger updates.

use vstd::prelude::*;

verus! {

#[derive(Debug, Clone)]
pub struct MiscEvent {
    pub time: String,
    pub hash: String,
    pub inner: MiscEventInner,
}

#[derive(Debug, Clone)]
pub enum MiscEventInner {
    CDeposit(CDeposit),
    Delegation(Delegation),
    CWithdrawal(CWithdrawal),
    ValidatorRewards(ValidatorRewards),
    Funding(Funding),
    LedgerUpdate(LedgerUpdate),
}

#[derive(Debug, Clone)]
pub struct CDeposit {
    pub user: String,
    pub amount: String,
}

#[derive(Debug, Clone)]
pub struct Delegation {
    pub user: String,
    pub validator: String,
    pub amount: String,
    pub is_undelegate: bool,
}

#[derive(Debug, Clone)]
pub struct CWithdrawal {
    pub user: String,
    pub amount: String,
    pub is_finalized: bool,
}

#[derive(Debug, Clone)]
pub struct ValidatorRewards {
    pub validator_to_reward: Vec<(String, String)>,
}

#[derive(Debug, Clone)]
pub struct Funding {
    pub deltas: Vec<FundingDelta>,
}

#[derive(Debug, Clone)]
pub struct FundingDelta {
    pub user: String,
    pub coin: String,
    pub funding_amount: String,
    pub szi: String,
    pub funding_rate: String,
}

#[derive(Debug, Clone)]
pub struct LedgerUpdate {
    pub users: Vec<String>,
    pub delta: LedgerDelta,
}

#[derive(Debug, Clone)]
pub enum LedgerDelta {
    Withdraw(Withdraw),
    Deposit(Deposit),
    VaultCreate(VaultCreate),
    VaultDeposit(VaultDeposit),
    VaultWithdraw(VaultWithdraw),
    VaultDistribution(VaultDistribution),
    VaultLeaderCommission(VaultLeaderCommission),
    Liquidation(Liquidation),
    InternalTransfer(InternalTransfer),
    SubAccountTransfer(SubAccountTransfer),
    SpotTransfer(SpotTransfer),
    SpotGenesis(SpotGenesis),
    RewardsClaim(RewardsClaim),
    AccountActivationGas(AccountActivationGas),
    PerpDexClassTransfer(PerpDexClassTransfer),
    DeployGasAuction(DeployGasAuction),
    AccountClassTransfer(AccountClassTransfer),
    Send(Send),
    Unknown,
}

#[derive(Debug, Clone)]
pub struct Withdraw {
    pub usdc: String,
    pub nonce: u64,
    pub fee: String,
}

#[derive(Debug, Clone)]
pub struct Deposit {
    pub usdc: String,
}

#[derive(Debug, Clone)]
pub struct VaultCreate {
    pub vault: String,
    pub usdc: String,
    pub fee: String,
}

#[derive(Debug, Clone)]
pub struct VaultDeposit {
    pub vault: String,
    pub user: Option<String>,
    pub usdc: String,
}

#[derive(Debug, Clone)]
pub struct VaultWithdraw {
    pub vault: String,
    pub user: String,
    pub requested_usd: String,
    pub commission: String,
    pub closing_cost: String,
    pub basis: String,
}

#[derive(Debug, Clone)]
pub struct VaultDistribution {
    pub vault: String,
    pub usdc: String,
}

#[derive(Debug, Clone)]
pub struct VaultLeaderCommission {
    pub user: String,
    pub usdc: String,
}

#[derive(Debug, Clone)]
pub struct Liquidation {
    pub liquidated_ntl_pos: String,
    pub account_value: String,
    pub leverage_type: String,
    pub liquidated_positions: Vec<LiquidatedPosition>,
}

#[derive(Debug, Clone)]
pub struct LiquidatedPosition {
    pub coin: String,
    pub szi: String,
}

#[derive(Debug, Clone)]
pub struct InternalTransfer {
    pub usdc: String,
    pub user: String,
    pub destination: String,
    pub fee: String,
}

#[derive(Debug, Clone)]
pub struct SubAccountTransfer {
    pub usdc: String,
    pub user: String,
    pub destination: String,
}

#[derive(Debug, Clone)]
pub struct SpotTransfer {
    pub token: String,
    pub amount: String,
    pub usdc_value: String,
    pub user: String,
    pub destination: String,
    pub fee: String,
    pub native_token_fee: String,
    pub nonce: Option<u64>,
    pub fee_token: Option<String>,
}

#[derive(Debug, Clone)]
pub struct SpotGenesis {
    pub token: String,
    pub amount: String,
}

#[derive(Debug, Clone)]
pub struct RewardsClaim {
    pub amount: String,
}

#[derive(Debug, Clone)]
pub struct AccountActivationGas {
    pub amount: String,
    pub token: String,
}

#[derive(Debug, Clone)]
pub struct PerpDexClassTransfer {
    pub amount: String,
    pub token: String,
    pub dex: String,
    pub to_perp: bool,
}

#[derive(Debug, Clone)]
pub struct DeployGasAuction {
    pub token: String,
    pub amount: String,
}

#[derive(Debug, Clone)]
pub struct AccountClassTransfer {
    pub usdc: String,
    pub to_perp: bool,
}

#[derive(Debug, Clone)]
pub struct Send {
    pub user: String,
    pub destination: String,
    pub source_dex: String,
    pub destination_dex: String,
    pub token: String,
    pub amount: String,
    pub usdc_value: String,
    pub fee: String,
    pub native_token_fee: String,
    pub nonce: u64,
    pub fee_token: String,
}

} // verus!

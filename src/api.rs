use vstd::prelude::*;
pub use crate::models::SeedSummary;

verus! {

/// Registration of a wallet: its spending condition and participants.
#[derive(Debug, Clone)]
pub struct CreateMultisigRequest {
    pub lock_root_hash: String,
    pub threshold: i32,
    pub total_signers: i32,
    pub signer_pkhs: Vec<String>,
    pub created_by_pkh: String,
}

#[derive(Debug, Clone)]
pub struct CreateMultisigResponse {
    pub lock_root_hash: String,
}

/// Optional participant filter for listing wallets.
#[derive(Debug, Clone)]
pub struct ListMultisigsQuery {
    pub pkh: Option<String>,
}

/// A wallet together with its participants.
#[derive(Debug, Clone)]
pub struct MultisigResponse {
    pub lock_root_hash: String,
    pub threshold: i32,
    pub total_signers: i32,
    pub created_at: String,
    pub created_by_pkh: String,
    pub participants: Vec<String>,
}

/// A new proposal, with the proposer's own signature.
#[derive(Debug, Clone)]
pub struct CreateProposalRequest {
    pub tx_id: String,
    pub lock_root_hash: String,
    pub proposer_pkh: String,
    pub threshold: i32,
    pub raw_tx_json: String,
    pub notes_json: String,
    pub spend_conditions_json: String,
    pub total_input_nicks: i64,
    pub seeds: Vec<SeedSummary>,
    pub proposer_signed_tx_json: String,
}

#[derive(Debug, Clone)]
pub struct CreateProposalResponse {
    pub id: String,
    pub tx_id: String,
}

/// Filters for listing proposals or history: by participant, else by
/// wallet; `status` applies to proposals only.
#[derive(Debug, Clone)]
pub struct ListProposalsQuery {
    pub pkh: Option<String>,
    pub lock_root_hash: Option<String>,
    pub status: Option<String>,
}

/// Summary of a proposal and of who has signed it.
#[derive(Debug, Clone)]
pub struct ProposalResponse {
    pub id: String,
    pub tx_id: String,
    pub lock_root_hash: String,
    pub proposer_pkh: String,
    pub status: String,
    pub threshold: i32,
    pub signatures_collected: i32,
    pub total_input_nicks: i64,
    pub seeds: Vec<SeedSummary>,
    pub signers: Vec<String>,
    pub created_at: String,
    pub updated_at: String,
}

/// One collected signature as shown to clients.
#[derive(Debug, Clone)]
pub struct SignatureEntry {
    pub signer_pkh: String,
    pub signed_tx_json: String,
    pub signed_at: String,
}

/// Everything a client needs to sign or merge a proposal.
#[derive(Debug, Clone)]
pub struct ProposalDetailResponse {
    pub id: String,
    pub tx_id: String,
    pub lock_root_hash: String,
    pub proposer_pkh: String,
    pub status: String,
    pub threshold: i32,
    pub signatures_collected: i32,
    pub raw_tx_json: String,
    pub notes_json: String,
    pub spend_conditions_json: String,
    pub total_input_nicks: i64,
    pub seeds: Vec<SeedSummary>,
    pub signers: Vec<String>,
    pub signatures: Vec<SignatureEntry>,
    pub participants: Vec<String>,
    pub created_at: String,
    pub updated_at: String,
}

#[derive(Debug, Clone)]
pub struct SignProposalRequest {
    pub signer_pkh: String,
    pub signed_tx_json: String,
}

#[derive(Debug, Clone)]
pub struct SignProposalResponse {
    pub success: bool,
    pub signatures_collected: i32,
    pub ready_to_broadcast: bool,
}

#[derive(Debug, Clone)]
pub struct BroadcastProposalRequest {
    pub _broadcaster_pkh: String,
    /// The transaction id after merging signatures, where it differs.
    pub final_tx_id: Option<String>,
}

#[derive(Debug, Clone)]
pub struct BroadcastProposalResponse {
    pub success: bool,
    pub history_id: String,
}

#[derive(Debug, Clone)]
pub struct DirectSpendRequest {
    pub tx_id: String,
    pub lock_root_hash: String,
    pub sender_pkh: String,
    pub total_input_nicks: i64,
    pub seeds: Vec<SeedSummary>,
}

#[derive(Debug, Clone)]
pub struct DirectSpendResponse {
    pub success: bool,
    pub history_id: String,
}

#[derive(Debug, Clone)]
pub struct TransactionHistoryResponse {
    pub id: String,
    pub tx_id: String,
    pub lock_root_hash: String,
    pub proposer_pkh: String,
    pub status: String,
    pub total_input_nicks: i64,
    pub seeds: Vec<SeedSummary>,
    pub signers: Vec<String>,
    pub created_at: String,
    pub broadcast_at: Option<String>,
    pub confirmed_at: Option<String>,
}

} // verus!

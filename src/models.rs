use vstd::prelude::*;
use crate::error::AppError;

verus! {

/// Lifecycle of a proposal: `Pending -> Ready -> Broadcast -> {Confirmed, Expired}`.
#[derive(Debug, Clone, Copy, PartialEq, Eq, Structural)]
pub enum ProposalStatus {
    Pending,
    Ready,
    Broadcast,
    Confirmed,
    Expired,
}

/// Outcome of a finalized spend.
#[derive(Debug, Clone, Copy, PartialEq, Eq, Structural)]
pub enum TransactionStatus {
    Broadcast,
    Confirmed,
    Failed,
}

/// The lower-case name under which a proposal status is stored and shown.
pub open spec fn status_name(s: ProposalStatus) -> Seq<char> {
    match s {
        ProposalStatus::Pending => "pending"@,
        ProposalStatus::Ready => "ready"@,
        ProposalStatus::Broadcast => "broadcast"@,
        ProposalStatus::Confirmed => "confirmed"@,
        ProposalStatus::Expired => "expired"@,
    }
}

/// The lower-case name under which a transaction status is stored and shown.
pub open spec fn tx_status_name(s: TransactionStatus) -> Seq<char> {
    match s {
        TransactionStatus::Broadcast => "broadcast"@,
        TransactionStatus::Confirmed => "confirmed"@,
        TransactionStatus::Failed => "failed"@,
    }
}

/// The status whose name is `t`, if any.
pub open spec fn status_named(t: Seq<char>) -> Option<ProposalStatus> {
    if exists|st: ProposalStatus| status_name(st) == t {
        Some(choose|st: ProposalStatus| status_name(st) == t)
    } else {
        None
    }
}

/// No two statuses share a name.
pub proof fn lemma_status_name_injective(a: ProposalStatus, b: ProposalStatus)
    ensures
        status_name(a) == status_name(b) ==> a == b,
{
    reveal_strlit("pending");
    reveal_strlit("ready");
    reveal_strlit("broadcast");
    reveal_strlit("confirmed");
    reveal_strlit("expired");
    if a != b {
        assert(status_name(a).len() != status_name(b).len() || status_name(a)[0] != status_name(b)[0]);
    }
}

/// The name of a status picks that status out.
pub proof fn lemma_status_named(st: ProposalStatus)
    ensures
        status_named(status_name(st)) == Some(st),
{
    let c = choose|x: ProposalStatus| status_name(x) == status_name(st);
    lemma_status_name_injective(c, st);
}

/// The transaction status whose name is `t`, if any.
pub open spec fn tx_status_named(t: Seq<char>) -> Option<TransactionStatus> {
    if exists|st: TransactionStatus| tx_status_name(st) == t {
        Some(choose|st: TransactionStatus| tx_status_name(st) == t)
    } else {
        None
    }
}

/// The name of a transaction status picks that status out.
pub proof fn lemma_tx_status_named(st: TransactionStatus)
    ensures
        tx_status_named(tx_status_name(st)) == Some(st),
{
    reveal_strlit("broadcast");
    reveal_strlit("confirmed");
    reveal_strlit("failed");
    let c = choose|x: TransactionStatus| tx_status_name(x) == tx_status_name(st);
    if c != st {
        assert(tx_status_name(c).len() != tx_status_name(st).len() || tx_status_name(c)[0]
            != tx_status_name(st)[0]);
    }
}

/// Whether `a` and `b` hold the same characters.
pub fn same_text(a: &str, b: &str) -> (r: bool)
    ensures
        r == (a@ == b@),
{
    a.to_owned() == b.to_owned()
}

impl ProposalStatus {
    pub fn as_str(&self) -> (r: &'static str)
        ensures
            r@ == status_name(*self),
    {
        match self {
            ProposalStatus::Pending => "pending",
            ProposalStatus::Ready => "ready",
            ProposalStatus::Broadcast => "broadcast",
            ProposalStatus::Confirmed => "confirmed",
            ProposalStatus::Expired => "expired",
        }
    }

    /// Reads a status from its name; any other text is `InvalidInput`.
    pub fn parse(s: &str) -> (r: Result<ProposalStatus, AppError>)
        ensures
            match r {
                Ok(st) => status_name(st) == s@,
                Err(e) => (forall|st: ProposalStatus| status_name(st) != s@) && e
                    == AppError::InvalidInput(e.subject_spec()) && e.subject_spec()@ == s@,
            },
    {
        if same_text(s, "pending") {
            Ok(ProposalStatus::Pending)
        } else if same_text(s, "ready") {
            Ok(ProposalStatus::Ready)
        } else if same_text(s, "broadcast") {
            Ok(ProposalStatus::Broadcast)
        } else if same_text(s, "confirmed") {
            Ok(ProposalStatus::Confirmed)
        } else if same_text(s, "expired") {
            Ok(ProposalStatus::Expired)
        } else {
            Err(AppError::InvalidInput(s.to_owned()))
        }
    }
}

impl TransactionStatus {
    pub fn as_str(&self) -> (r: &'static str)
        ensures
            r@ == tx_status_name(*self),
    {
        match self {
            TransactionStatus::Broadcast => "broadcast",
            TransactionStatus::Confirmed => "confirmed",
            TransactionStatus::Failed => "failed",
        }
    }

    /// Reads a status from its name; any other text is `InvalidInput`.
    pub fn parse(s: &str) -> (r: Result<TransactionStatus, AppError>)
        ensures
            match r {
                Ok(st) => tx_status_name(st) == s@,
                Err(e) => (forall|st: TransactionStatus| tx_status_name(st) != s@) && e
                    == AppError::InvalidInput(e.subject_spec()) && e.subject_spec()@ == s@,
            },
    {
        if same_text(s, "broadcast") {
            Ok(TransactionStatus::Broadcast)
        } else if same_text(s, "confirmed") {
            Ok(TransactionStatus::Confirmed)
        } else if same_text(s, "failed") {
            Ok(TransactionStatus::Failed)
        } else {
            Err(AppError::InvalidInput(s.to_owned()))
        }
    }
}

impl std::str::FromStr for ProposalStatus {
    type Err = AppError;

    fn from_str(s: &str) -> Result<ProposalStatus, AppError> {
        ProposalStatus::parse(s)
    }
}


impl std::convert::TryFrom<String> for ProposalStatus {
    type Error = AppError;

    fn try_from(value: String) -> (r: Result<ProposalStatus, AppError>) {
        match ProposalStatus::parse(value.as_str()) {
            Ok(st) => {
                proof {
                    lemma_status_named(st);
                }
                Ok(st)
            },
            Err(_) => Err(AppError::InvalidInput(value)),
        }
    }
}

impl vstd::std_specs::convert::TryFromSpecImpl<String> for ProposalStatus {
    open spec fn obeys_try_from_spec() -> bool {
        true
    }

    open spec fn try_from_spec(v: String) -> Result<ProposalStatus, AppError> {
        match status_named(v@) {
            Some(st) => Ok(st),
            None => Err(AppError::InvalidInput(v)),
        }
    }
}


impl std::convert::TryFrom<String> for TransactionStatus {
    type Error = AppError;

    fn try_from(value: String) -> (r: Result<TransactionStatus, AppError>) {
        match TransactionStatus::parse(value.as_str()) {
            Ok(st) => {
                proof {
                    lemma_tx_status_named(st);
                }
                Ok(st)
            },
            Err(_) => Err(AppError::InvalidInput(value)),
        }
    }
}

impl vstd::std_specs::convert::TryFromSpecImpl<String> for TransactionStatus {
    open spec fn obeys_try_from_spec() -> bool {
        true
    }

    open spec fn try_from_spec(v: String) -> Result<TransactionStatus, AppError> {
        match tx_status_named(v@) {
            Some(st) => Ok(st),
            None => Err(AppError::InvalidInput(v)),
        }
    }
}

} // verus!

verus! {

/// A recipient-and-amount pair describing where value goes in a spend.
#[derive(Debug, Clone)]
pub struct SeedSummary {
    pub recipient: String,
    pub amount_nicks: i64,
}

impl SeedSummary {
    /// A field-by-field copy.
    pub fn duplicate(&self) -> (r: SeedSummary)
        ensures
            r == *self,
    {
        SeedSummary { recipient: self.recipient.clone(), amount_nicks: self.amount_nicks }
    }
}

/// An element-by-element copy of a list of outputs.
pub fn copy_seeds(v: &Vec<SeedSummary>) -> (r: Vec<SeedSummary>)
    ensures
        r@ == v@,
{
    let mut r: Vec<SeedSummary> = Vec::new();
    let mut i: usize = 0;
    while i < v.len()
        invariant
            i <= v@.len(),
            r@ == v@.take(i as int),
        decreases v@.len() - i,
    {
        r.push(v[i].duplicate());
        i = i + 1;
        assert(r@ =~= v@.take(i as int));
    }
    assert(v@.take(v@.len() as int) =~= v@);
    r
}

/// An element-by-element copy of a list of strings.
pub fn copy_strings(v: &Vec<String>) -> (r: Vec<String>)
    ensures
        r@ == v@,
{
    let mut r: Vec<String> = Vec::new();
    let mut i: usize = 0;
    while i < v.len()
        invariant
            i <= v@.len(),
            r@ == v@.take(i as int),
        decreases v@.len() - i,
    {
        r.push(v[i].clone());
        i = i + 1;
        assert(r@ =~= v@.take(i as int));
    }
    assert(v@.take(v@.len() as int) =~= v@);
    r
}

/// A copy of an optional string.
pub fn copy_text(o: &Option<String>) -> (r: Option<String>)
    ensures
        r == *o,
{
    match o {
        Some(s) => Some(s.clone()),
        None => None,
    }
}

/// A registered wallet (its spending condition). Never changed once stored.
#[derive(Debug, Clone)]
pub struct Lock {
    /// Client-computed identifier of the spending condition; unique.
    pub lock_root_hash: String,
    pub threshold: i32,
    pub total_signers: i32,
    pub created_at: String,
    pub created_by_pkh: String,
}

/// One participant of one wallet.
#[derive(Debug, Clone)]
pub struct LockParticipant {
    pub lock_root_hash: String,
    pub pkh: String,
}

/// A candidate spend awaiting signatures.
#[derive(Debug, Clone)]
pub struct Proposal {
    pub id: String,
    pub tx_id: String,
    pub lock_root_hash: String,
    pub proposer_pkh: String,
    pub status: ProposalStatus,
    /// The wallet's threshold at creation; authoritative for this proposal.
    pub threshold: i32,
    pub raw_tx_json: String,
    pub notes_json: String,
    pub spend_conditions_json: String,
    pub total_input_nicks: i64,
    pub seeds: Vec<SeedSummary>,
    pub created_at: String,
    pub updated_at: String,
}

/// One participant's signed payload for one proposal.
#[derive(Debug, Clone)]
pub struct ProposalSignature {
    pub proposal_id: String,
    pub signer_pkh: String,
    pub signed_tx_json: String,
    pub signed_at: String,
}

/// A finalized spend, reached through a proposal or directly.
#[derive(Debug, Clone)]
pub struct TransactionHistory {
    pub id: String,
    /// The final transaction identifier.
    pub tx_id: String,
    pub lock_root_hash: String,
    pub proposer_pkh: String,
    pub status: TransactionStatus,
    pub total_input_nicks: i64,
    pub seeds: Vec<SeedSummary>,
    /// The signers that authorized the spend.
    pub signers: Vec<String>,
    pub created_at: String,
    pub broadcast_at: Option<String>,
    pub confirmed_at: Option<String>,
}

} // verus!

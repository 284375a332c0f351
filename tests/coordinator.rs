use agora_gateway::api::{
    BroadcastProposalRequest, CreateMultisigRequest, CreateProposalRequest, DirectSpendRequest,
    ListMultisigsQuery, ListProposalsQuery, SeedSummary, SignProposalRequest,
};
use agora_gateway::error::AppError;
use agora_gateway::models::{ProposalStatus, TransactionStatus};
use agora_gateway::store::Store;

fn wallet(hash: &str, threshold: i32, total: i32, members: &[&str]) -> CreateMultisigRequest {
    CreateMultisigRequest {
        lock_root_hash: hash.to_string(),
        threshold,
        total_signers: total,
        signer_pkhs: members.iter().map(|m| m.to_string()).collect(),
        created_by_pkh: members.first().map(|m| m.to_string()).unwrap_or_default(),
    }
}

fn proposal(tx: &str, hash: &str, proposer: &str, threshold: i32) -> CreateProposalRequest {
    CreateProposalRequest {
        tx_id: tx.to_string(),
        lock_root_hash: hash.to_string(),
        proposer_pkh: proposer.to_string(),
        threshold,
        raw_tx_json: "{\"raw\":1}".to_string(),
        notes_json: "[]".to_string(),
        spend_conditions_json: "[]".to_string(),
        total_input_nicks: 1000,
        seeds: vec![SeedSummary { recipient: "R".to_string(), amount_nicks: 900 }],
        proposer_signed_tx_json: format!("signed-by-{}", proposer),
    }
}

fn sign(signer: &str) -> SignProposalRequest {
    SignProposalRequest { signer_pkh: signer.to_string(), signed_tx_json: format!("signed-by-{}", signer) }
}

fn no_filter() -> ListProposalsQuery {
    ListProposalsQuery { pkh: None, lock_root_hash: None, status: None }
}

fn status_of(store: &Store, id: &str) -> ProposalStatus {
    store.proposals.iter().find(|p| p.id == id).unwrap().status
}

/// A store with wallet "W" (threshold 2 of A, B, C) and proposal "P1" by A.
fn two_of_three() -> Store {
    let mut s = Store::new();
    s.create_multisig_at(wallet("W", 2, 3, &["A", "B", "C"]), "t0".to_string()).unwrap();
    s.create_proposal_at(proposal("tx1", "W", "A", 2), "P1".to_string(), "t1".to_string()).unwrap();
    s
}

#[test]
fn registration_accepts_threshold_above_total() {
    let mut s = Store::new();
    let r = s.create_multisig_at(wallet("W", 5, 2, &["A", "B"]), "t0".to_string()).unwrap();
    assert_eq!(r.lock_root_hash, "W");
    assert_eq!(s.locks.len(), 1);
    assert_eq!(s.locks[0].threshold, 5);
    assert_eq!(s.locks[0].total_signers, 2);
    let r2 = s.create_multisig_at(wallet("V", 1, 1, &[]), "t0".to_string());
    assert!(r2.is_ok());
    assert_eq!(s.locks.len(), 2);
}

#[test]
fn registering_same_id_n_times_stores_one_wallet() {
    let mut s = Store::new();
    let n = 5;
    let mut conflicts = 0;
    for _ in 0..n {
        match s.create_multisig_at(wallet("W", 2, 3, &["A", "B", "C"]), "t".to_string()) {
            Ok(_) => {}
            Err(AppError::Conflict(id)) => {
                assert_eq!(id, "W");
                conflicts += 1;
            }
            Err(e) => panic!("unexpected {:?}", e),
        }
    }
    assert_eq!(conflicts, n - 1);
    assert_eq!(s.locks.iter().filter(|l| l.lock_root_hash == "W").count(), 1);
    assert_eq!(s.participants.len(), 3);
}

#[test]
fn duplicate_participants_are_stored_once() {
    let mut s = Store::new();
    s.create_multisig_at(wallet("W", 1, 3, &["A", "B", "A"]), "t".to_string()).unwrap();
    let all = s.list_multisigs(&ListMultisigsQuery { pkh: None });
    assert_eq!(all.len(), 1);
    assert_eq!(all[0].participants, vec!["A".to_string(), "B".to_string()]);
}

#[test]
fn same_tx_id_twice_stores_one_proposal() {
    let mut s = two_of_three();
    let r = s.create_proposal_at(proposal("tx1", "W", "B", 2), "P2".to_string(), "t2".to_string());
    match r {
        Err(AppError::Conflict(tx)) => assert_eq!(tx, "tx1"),
        other => panic!("unexpected {:?}", other),
    }
    assert_eq!(s.proposals.len(), 1);
    assert_eq!(s.signatures.len(), 1);
}

#[test]
fn create_on_unknown_wallet_is_not_found() {
    let mut s = Store::new();
    let r = s.create_proposal_at(proposal("tx1", "nope", "A", 1), "P".to_string(), "t".to_string());
    match r {
        Err(AppError::NotFound(h)) => assert_eq!(h, "nope"),
        other => panic!("unexpected {:?}", other),
    }
    assert!(s.proposals.is_empty());
}

#[test]
fn one_of_n_proposal_is_ready_at_creation() {
    let mut s = Store::new();
    s.create_multisig_at(wallet("W", 1, 2, &["A", "B"]), "t0".to_string()).unwrap();
    let r = s.create_proposal_at(proposal("tx1", "W", "A", 1), "P1".to_string(), "t1".to_string()).unwrap();
    assert_eq!(r.id, "P1");
    assert_eq!(r.tx_id, "tx1");
    assert_eq!(status_of(&s, "P1"), ProposalStatus::Ready);
}

#[test]
fn two_of_three_scenario() {
    let mut s = two_of_three();
    assert_eq!(status_of(&s, "P1"), ProposalStatus::Pending);
    assert_eq!(s.signature_count("P1"), 1);
    let b = s.sign_proposal_at("P1", sign("B"), "t2".to_string()).unwrap();
    assert!(b.success);
    assert_eq!(b.signatures_collected, 2);
    assert!(b.ready_to_broadcast);
    assert_eq!(status_of(&s, "P1"), ProposalStatus::Ready);
    match s.sign_proposal_at("P1", sign("C"), "t3".to_string()) {
        Err(AppError::NotPending(id)) => assert_eq!(id, "P1"),
        other => panic!("unexpected {:?}", other),
    }
    assert_eq!(s.signature_count("P1"), 2);
}

#[test]
fn n_of_n_signing_turns_ready_once() {
    let n = 6;
    let names: Vec<String> = (0..n).map(|i| format!("S{}", i)).collect();
    let refs: Vec<&str> = names.iter().map(|x| x.as_str()).collect();
    let mut s = Store::new();
    s.create_multisig_at(wallet("W", n as i32, n as i32, &refs), "t".to_string()).unwrap();
    s.create_proposal_at(proposal("tx", "W", "S0", n as i32), "P".to_string(), "t".to_string()).unwrap();
    let mut ready_count = 0;
    for name in refs.iter().skip(1).rev() {
        let r = s.sign_proposal_at("P", sign(name), "t".to_string()).unwrap();
        if r.ready_to_broadcast {
            ready_count += 1;
        }
    }
    assert_eq!(ready_count, 1);
    assert_eq!(s.signature_count("P"), n);
    assert_eq!(status_of(&s, "P"), ProposalStatus::Ready);
}

#[test]
fn not_pending_refuses_even_new_participants() {
    let mut s = two_of_three();
    s.mark_broadcast_at("P1", BroadcastProposalRequest { _broadcaster_pkh: "A".to_string(), final_tx_id: None },
        "H1".to_string(), "t5".to_string()).unwrap();
    assert_eq!(status_of(&s, "P1"), ProposalStatus::Broadcast);
    for who in ["B", "C"] {
        match s.sign_proposal_at("P1", sign(who), "t6".to_string()) {
            Err(AppError::NotPending(_)) => {}
            other => panic!("unexpected {:?}", other),
        }
    }
}

#[test]
fn sign_errors_in_order() {
    let mut s = two_of_three();
    match s.sign_proposal_at("missing", sign("B"), "t".to_string()) {
        Err(AppError::NotFound(id)) => assert_eq!(id, "missing"),
        other => panic!("unexpected {:?}", other),
    }
    match s.sign_proposal_at("P1", sign("Z"), "t".to_string()) {
        Err(AppError::NotParticipant(who)) => assert_eq!(who, "Z"),
        other => panic!("unexpected {:?}", other),
    }
    match s.sign_proposal_at("P1", sign("A"), "t".to_string()) {
        Err(AppError::AlreadySigned(who)) => assert_eq!(who, "A"),
        other => panic!("unexpected {:?}", other),
    }
    assert_eq!(s.signatures.len(), 1);
    assert_eq!(status_of(&s, "P1"), ProposalStatus::Pending);
}

#[test]
fn sign_below_threshold_stays_pending_and_touches() {
    let mut s = Store::new();
    s.create_multisig_at(wallet("W", 3, 3, &["A", "B", "C"]), "t0".to_string()).unwrap();
    s.create_proposal_at(proposal("tx1", "W", "A", 3), "P1".to_string(), "t1".to_string()).unwrap();
    let r = s.sign_proposal_at("P1", sign("B"), "t2".to_string()).unwrap();
    assert_eq!(r.signatures_collected, 2);
    assert!(!r.ready_to_broadcast);
    assert_eq!(status_of(&s, "P1"), ProposalStatus::Pending);
    assert_eq!(s.proposals[0].updated_at, "t2");
}

#[test]
fn direct_spend_by_non_participant_fails() {
    let mut s = Store::new();
    s.create_multisig_at(wallet("W", 1, 2, &["A", "B"]), "t0".to_string()).unwrap();
    let req = DirectSpendRequest {
        tx_id: "tx9".to_string(),
        lock_root_hash: "W".to_string(),
        sender_pkh: "Z".to_string(),
        total_input_nicks: 10,
        seeds: vec![],
    };
    match s.direct_spend_at(req, "H".to_string(), "t".to_string()) {
        Err(AppError::NotParticipant(who)) => assert_eq!(who, "Z"),
        other => panic!("unexpected {:?}", other),
    }
    assert!(s.history.is_empty());
}

#[test]
fn direct_spend_records_single_signer() {
    let mut s = Store::new();
    s.create_multisig_at(wallet("W", 1, 2, &["A", "B"]), "t0".to_string()).unwrap();
    let req = DirectSpendRequest {
        tx_id: "tx9".to_string(),
        lock_root_hash: "W".to_string(),
        sender_pkh: "B".to_string(),
        total_input_nicks: 10,
        seeds: vec![SeedSummary { recipient: "R".to_string(), amount_nicks: 7 }],
    };
    let r = s.direct_spend_at(req, "H".to_string(), "t7".to_string()).unwrap();
    assert!(r.success);
    assert_eq!(r.history_id, "H");
    let e = &s.history[0];
    assert_eq!(e.tx_id, "tx9");
    assert_eq!(e.signers, vec!["B".to_string()]);
    assert_eq!(e.status, TransactionStatus::Broadcast);
    assert_eq!(e.created_at, "t7");
    assert_eq!(e.broadcast_at, Some("t7".to_string()));
    let unknown = DirectSpendRequest {
        tx_id: "tx9".to_string(),
        lock_root_hash: "X".to_string(),
        sender_pkh: "B".to_string(),
        total_input_nicks: 10,
        seeds: vec![],
    };
    match s.direct_spend_at(unknown, "H2".to_string(), "t".to_string()) {
        Err(AppError::NotFound(h)) => assert_eq!(h, "X"),
        other => panic!("unexpected {:?}", other),
    }
}

#[test]
fn broadcast_uses_final_tx_id() {
    let mut s = two_of_three();
    s.sign_proposal_at("P1", sign("B"), "t2".to_string()).unwrap();
    let r = s
        .mark_broadcast_at(
            "P1",
            BroadcastProposalRequest { _broadcaster_pkh: "A".to_string(), final_tx_id: Some("merged".to_string()) },
            "H1".to_string(),
            "t3".to_string(),
        )
        .unwrap();
    assert_eq!(r.history_id, "H1");
    assert_eq!(s.history[0].tx_id, "merged");
    assert_ne!(s.history[0].tx_id, s.proposals[0].tx_id);
    assert_eq!(s.history[0].created_at, "t1");
    assert_eq!(s.history[0].broadcast_at, Some("t3".to_string()));
}

#[test]
fn broadcast_without_final_id_keeps_proposal_tx_and_repeats() {
    let mut s = two_of_three();
    let req = || BroadcastProposalRequest { _broadcaster_pkh: "A".to_string(), final_tx_id: None };
    s.mark_broadcast_at("P1", req(), "H1".to_string(), "t3".to_string()).unwrap();
    s.mark_broadcast_at("P1", req(), "H2".to_string(), "t4".to_string()).unwrap();
    assert_eq!(s.history.len(), 2);
    assert_eq!(s.history[0].tx_id, "tx1");
    match s.mark_broadcast_at("nope", req(), "H3".to_string(), "t".to_string()) {
        Err(AppError::NotFound(id)) => assert_eq!(id, "nope"),
        other => panic!("unexpected {:?}", other),
    }
}

#[test]
fn signers_round_trip_through_get_and_history() {
    let mut s = two_of_three();
    s.sign_proposal_at("P1", sign("C"), "t2".to_string()).unwrap();
    let d = s.get_proposal("P1").unwrap();
    assert_eq!(d.signers, vec!["A".to_string(), "C".to_string()]);
    assert_eq!(d.signatures_collected, 2);
    assert_eq!(d.signatures[1].signed_tx_json, "signed-by-C");
    assert_eq!(d.participants, vec!["A".to_string(), "B".to_string(), "C".to_string()]);
    assert_eq!(d.status, "ready");
    s.mark_broadcast_at("P1", BroadcastProposalRequest { _broadcaster_pkh: "A".to_string(), final_tx_id: None },
        "H1".to_string(), "t3".to_string()).unwrap();
    let h = s.get_history(&no_filter());
    assert_eq!(h.len(), 1);
    assert!(h[0].signers.contains(&"C".to_string()));
    assert!(h[0].signers.contains(&"A".to_string()));
    assert_eq!(h[0].status, "broadcast");
}

#[test]
fn get_unknown_proposal_is_not_found() {
    let s = two_of_three();
    match s.get_proposal("zzz") {
        Err(e) => {
            assert_eq!(e.code(), "NOT_FOUND");
            assert_eq!(e.subject(), "zzz");
        }
        Ok(_) => panic!("expected an error"),
    }
}

#[test]
fn list_proposals_filters_and_orders_newest_first() {
    let mut s = Store::new();
    s.create_multisig_at(wallet("W", 2, 2, &["A", "B"]), "t0".to_string()).unwrap();
    s.create_multisig_at(wallet("V", 1, 1, &["C"]), "t0".to_string()).unwrap();
    s.create_proposal_at(proposal("tx1", "W", "A", 2), "P1".to_string(), "t1".to_string()).unwrap();
    s.create_proposal_at(proposal("tx2", "V", "C", 1), "P2".to_string(), "t2".to_string()).unwrap();
    s.create_proposal_at(proposal("tx3", "W", "B", 2), "P3".to_string(), "t3".to_string()).unwrap();
    let all = s.list_proposals(&no_filter()).unwrap();
    let ids: Vec<&str> = all.iter().map(|p| p.id.as_str()).collect();
    assert_eq!(ids, vec!["P3", "P2", "P1"]);
    let by_a = s.list_proposals(&ListProposalsQuery { pkh: Some("A".to_string()), lock_root_hash: None, status: None }).unwrap();
    let ids: Vec<&str> = by_a.iter().map(|p| p.id.as_str()).collect();
    assert_eq!(ids, vec!["P3", "P1"]);
    let by_v = s.list_proposals(&ListProposalsQuery { pkh: None, lock_root_hash: Some("V".to_string()), status: None }).unwrap();
    assert_eq!(by_v.len(), 1);
    assert_eq!(by_v[0].status, "ready");
    assert_eq!(by_v[0].signers, vec!["C".to_string()]);
    let ready = s.list_proposals(&ListProposalsQuery { pkh: None, lock_root_hash: None, status: Some("ready".to_string()) }).unwrap();
    assert_eq!(ready.len(), 1);
    assert_eq!(ready[0].id, "P2");
    match s.list_proposals(&ListProposalsQuery { pkh: None, lock_root_hash: None, status: Some("done".to_string()) }) {
        Err(AppError::InvalidInput(t)) => assert_eq!(t, "done"),
        other => panic!("unexpected {:?}", other),
    }
}

#[test]
fn list_multisigs_by_participant() {
    let mut s = Store::new();
    s.create_multisig_at(wallet("W", 2, 2, &["A", "B"]), "t0".to_string()).unwrap();
    s.create_multisig_at(wallet("V", 1, 1, &["C"]), "t1".to_string()).unwrap();
    let mine = s.list_multisigs(&ListMultisigsQuery { pkh: Some("C".to_string()) });
    assert_eq!(mine.len(), 1);
    assert_eq!(mine[0].lock_root_hash, "V");
    assert_eq!(mine[0].created_at, "t1");
    assert_eq!(s.list_multisigs(&ListMultisigsQuery { pkh: None }).len(), 2);
    assert!(s.list_multisigs(&ListMultisigsQuery { pkh: Some("Q".to_string()) }).is_empty());
    assert!(s.is_participant("W", "B"));
    assert!(!s.is_participant("V", "B"));
}

#[test]
fn history_filters_by_wallet_and_participant() {
    let mut s = Store::new();
    s.create_multisig_at(wallet("W", 1, 2, &["A", "B"]), "t0".to_string()).unwrap();
    s.create_multisig_at(wallet("V", 1, 1, &["C"]), "t0".to_string()).unwrap();
    let spend = |h: &str, who: &str, tx: &str| DirectSpendRequest {
        tx_id: tx.to_string(),
        lock_root_hash: h.to_string(),
        sender_pkh: who.to_string(),
        total_input_nicks: 1,
        seeds: vec![],
    };
    s.direct_spend_at(spend("W", "A", "x1"), "H1".to_string(), "t1".to_string()).unwrap();
    s.direct_spend_at(spend("V", "C", "x2"), "H2".to_string(), "t2".to_string()).unwrap();
    s.direct_spend_at(spend("W", "B", "x3"), "H3".to_string(), "t3".to_string()).unwrap();
    let all: Vec<String> = s.get_history(&no_filter()).into_iter().map(|h| h.id).collect();
    assert_eq!(all, vec!["H3", "H2", "H1"]);
    let w: Vec<String> = s
        .get_history(&ListProposalsQuery { pkh: None, lock_root_hash: Some("W".to_string()), status: None })
        .into_iter()
        .map(|h| h.id)
        .collect();
    assert_eq!(w, vec!["H3", "H1"]);
    let c: Vec<String> = s
        .get_history(&ListProposalsQuery { pkh: Some("C".to_string()), lock_root_hash: None, status: None })
        .into_iter()
        .map(|h| h.id)
        .collect();
    assert_eq!(c, vec!["H2"]);
}

#[test]
fn status_names_round_trip() {
    for st in [
        ProposalStatus::Pending,
        ProposalStatus::Ready,
        ProposalStatus::Broadcast,
        ProposalStatus::Confirmed,
        ProposalStatus::Expired,
    ] {
        assert_eq!(ProposalStatus::parse(st.as_str()).unwrap(), st);
        assert_eq!(st.as_str().parse::<ProposalStatus>().unwrap(), st);
    }
    assert_eq!(ProposalStatus::Pending.as_str(), "pending");
    assert!(ProposalStatus::parse("Pending").is_err());
    assert_eq!(TransactionStatus::parse("failed").unwrap(), TransactionStatus::Failed);
    assert_eq!(TransactionStatus::Confirmed.as_str(), "confirmed");
    assert!(TransactionStatus::parse("ready").is_err());
}

#[test]
fn generated_ids_are_uuids_and_differ() {
    let mut s = Store::new();
    s.create_multisig(wallet("W", 2, 2, &["A", "B"])).unwrap();
    let p1 = s.create_proposal(proposal("tx1", "W", "A", 2)).unwrap();
    let p2 = s.create_proposal(proposal("tx2", "W", "B", 2)).unwrap();
    assert_eq!(p1.id.len(), 36);
    assert_ne!(p1.id, p2.id);
    assert_eq!(p1.id.matches('-').count(), 4);
    let r = s.sign_proposal(&p1.id, sign("B")).unwrap();
    assert!(r.ready_to_broadcast);
    let b = s.mark_broadcast(&p1.id, BroadcastProposalRequest { _broadcaster_pkh: "A".to_string(), final_tx_id: None }).unwrap();
    assert_eq!(b.history_id.len(), 36);
    assert!(!s.proposals[0].updated_at.is_empty());
    assert!(s.history[0].broadcast_at.as_ref().map(|t| t.contains('T')).unwrap_or(false));
    let d = s.direct_spend(DirectSpendRequest {
        tx_id: "x".to_string(),
        lock_root_hash: "W".to_string(),
        sender_pkh: "A".to_string(),
        total_input_nicks: 1,
        seeds: vec![],
    }).unwrap();
    assert_ne!(d.history_id, b.history_id);
}

#[test]
fn confirmation_needs_broadcast() {
    let mut s = two_of_three();
    match s.confirm_proposal_at("P1", "t9".to_string()) {
        Err(AppError::InvalidState(id)) => assert_eq!(id, "P1"),
        other => panic!("unexpected {:?}", other),
    }
    assert_eq!(status_of(&s, "P1"), ProposalStatus::Pending);
    s.mark_broadcast_at("P1", BroadcastProposalRequest { _broadcaster_pkh: "A".to_string(), final_tx_id: None },
        "H1".to_string(), "t3".to_string()).unwrap();
    s.confirm_proposal_at("P1", "t4".to_string()).unwrap();
    assert_eq!(status_of(&s, "P1"), ProposalStatus::Confirmed);
    assert_eq!(s.proposals[0].updated_at, "t4");
    match s.expire_proposal_at("P1", "t5".to_string()) {
        Err(AppError::InvalidState(_)) => {}
        other => panic!("unexpected {:?}", other),
    }
    match s.confirm_proposal_at("none", "t5".to_string()) {
        Err(AppError::NotFound(id)) => assert_eq!(id, "none"),
        other => panic!("unexpected {:?}", other),
    }
}

#[test]
fn expiry_is_terminal() {
    let mut s = two_of_three();
    s.expire_proposal_at("P1", "t9".to_string()).unwrap();
    assert_eq!(status_of(&s, "P1"), ProposalStatus::Expired);
    match s.sign_proposal_at("P1", sign("B"), "t10".to_string()) {
        Err(AppError::NotPending(_)) => {}
        other => panic!("unexpected {:?}", other),
    }
    assert!(s.expire_proposal_at("P1", "t11".to_string()).is_err());
}

#[test]
fn error_codes_and_subjects() {
    let e = AppError::NotParticipant("Z".to_string());
    assert_eq!(e.code(), "NOT_PARTICIPANT");
    assert_eq!(e.subject(), "Z");
    assert_eq!(AppError::Conflict("x".to_string()).code(), "CONFLICT");
    assert_eq!(AppError::NotPending("x".to_string()).code(), "INVALID_STATE");
    assert_eq!(AppError::AlreadySigned("x".to_string()).code(), "ALREADY_SIGNED");
    assert_eq!(AppError::InvalidInput("x".to_string()).code(), "INVALID_INPUT");
}

#[test]
fn ledger_never_exceeds_participants_or_repeats() {
    let mut s = Store::new();
    s.create_multisig_at(wallet("W", 3, 3, &["A", "B", "C"]), "t0".to_string()).unwrap();
    s.create_proposal_at(proposal("tx1", "W", "A", 3), "P1".to_string(), "t1".to_string()).unwrap();
    for who in ["B", "B", "A", "Z", "C", "C"] {
        let _ = s.sign_proposal_at("P1", sign(who), "t".to_string());
    }
    let d = s.get_proposal("P1").unwrap();
    assert_eq!(d.signers, vec!["A".to_string(), "B".to_string(), "C".to_string()]);
    assert!(d.signers.len() <= d.participants.len());
    assert_eq!(s.signer_list("P1").len(), 3);
    assert!(s.signed_by("P1", "C"));
    assert!(!s.signed_by("P1", "Z"));
}

#[test]
fn status_try_from_text() {
    assert_eq!(ProposalStatus::try_from("expired".to_string()).unwrap(), ProposalStatus::Expired);
    match ProposalStatus::try_from("bogus".to_string()) {
        Err(AppError::InvalidInput(t)) => assert_eq!(t, "bogus"),
        other => panic!("unexpected {:?}", other),
    }
    assert_eq!(TransactionStatus::try_from("broadcast".to_string()).unwrap(), TransactionStatus::Broadcast);
    assert!(TransactionStatus::try_from("pending".to_string()).is_err());
}

#[test]
fn proposal_threshold_is_the_wallets() {
    let mut s = Store::new();
    s.create_multisig_at(wallet("W", 2, 3, &["A", "B", "C"]), "t0".to_string()).unwrap();
    s.create_proposal_at(proposal("tx1", "W", "A", 1), "P1".to_string(), "t1".to_string()).unwrap();
    assert_eq!(s.proposals[0].threshold, 2);
    assert_eq!(status_of(&s, "P1"), ProposalStatus::Pending);
    let r = s.sign_proposal_at("P1", sign("B"), "t2".to_string()).unwrap();
    assert!(r.ready_to_broadcast);
}

#[test]
fn broadcast_never_moves_a_finished_proposal_back() {
    let mut s = two_of_three();
    let req = || BroadcastProposalRequest { _broadcaster_pkh: "A".to_string(), final_tx_id: None };
    s.mark_broadcast_at("P1", req(), "H1".to_string(), "t3".to_string()).unwrap();
    s.confirm_proposal_at("P1", "t4".to_string()).unwrap();
    s.mark_broadcast_at("P1", req(), "H2".to_string(), "t5".to_string()).unwrap();
    assert_eq!(status_of(&s, "P1"), ProposalStatus::Confirmed);
    assert_eq!(s.proposals[0].updated_at, "t4");
    assert_eq!(s.history.len(), 2);
    match s.mark_broadcast_at("P1", req(), "H2".to_string(), "t6".to_string()) {
        Err(AppError::Conflict(h)) => assert_eq!(h, "H2"),
        other => panic!("unexpected {:?}", other),
    }
    assert_eq!(s.history.len(), 2);
}

#[test]
fn lists_follow_timestamps_not_storage_order() {
    let mut s = Store::new();
    s.create_multisig_at(wallet("W", 1, 2, &["A", "B"]), "t0".to_string()).unwrap();
    s.create_proposal_at(proposal("tx1", "W", "A", 1), "P1".to_string(), "2024-01-02T00:00:00+00:00".to_string()).unwrap();
    s.create_proposal_at(proposal("tx2", "W", "A", 1), "P2".to_string(), "2024-01-01T00:00:00+00:00".to_string()).unwrap();
    s.create_proposal_at(proposal("tx3", "W", "B", 1), "P3".to_string(), "2024-01-03T00:00:00+00:00".to_string()).unwrap();
    s.create_proposal_at(proposal("tx4", "W", "B", 1), "P4".to_string(), "2024-01-02T00:00:00+00:00".to_string()).unwrap();
    let ids: Vec<String> = s.list_proposals(&no_filter()).unwrap().into_iter().map(|p| p.id).collect();
    assert_eq!(ids, vec!["P3", "P4", "P1", "P2"]);
    let spend = |who: &str| DirectSpendRequest {
        tx_id: "x".to_string(),
        lock_root_hash: "W".to_string(),
        sender_pkh: who.to_string(),
        total_input_nicks: 1,
        seeds: vec![],
    };
    s.direct_spend_at(spend("A"), "H1".to_string(), "2024-02-02T00:00:00+00:00".to_string()).unwrap();
    s.direct_spend_at(spend("B"), "H2".to_string(), "2024-02-01T00:00:00+00:00".to_string()).unwrap();
    s.direct_spend_at(spend("A"), "H3".to_string(), "2024-02-05T00:00:00+00:00".to_string()).unwrap();
    let hs: Vec<String> = s.get_history(&no_filter()).into_iter().map(|h| h.id).collect();
    assert_eq!(hs, vec!["H3", "H1", "H2"]);
    match s.direct_spend_at(spend("A"), "H1".to_string(), "t".to_string()) {
        Err(AppError::Conflict(h)) => assert_eq!(h, "H1"),
        other => panic!("unexpected {:?}", other),
    }
}

//! Properties of the coordinator that span several calls or every state.

use vstd::prelude::*;
use crate::api::{
    BroadcastProposalRequest, BroadcastProposalResponse, ProposalDetailResponse, CreateMultisigRequest, CreateMultisigResponse,
    CreateProposalRequest, CreateProposalResponse, SignProposalRequest, SignProposalResponse,
};
use crate::error::AppError;
use crate::models::ProposalStatus;
use crate::store::Store;

verus! {

/// Registration checks nothing of the counts: a fresh wallet id is accepted
/// whatever its threshold and declared number of signers, a threshold above
/// `total_signers` or an empty participant list included, and both are
/// stored as given.
pub proof fn lemma_registration_accepts_any_counts(
    pre: Store,
    req: CreateMultisigRequest,
    now: String,
    r: Result<CreateMultisigResponse, AppError>,
    post: Store,
)
    requires
        pre.wf(),
        Store::register_step(pre, req, now, r, post),
        !pre.has_lock(req.lock_root_hash@),
    ensures
        r is Ok,
        post.locks@.last().threshold == req.threshold,
        post.locks@.last().total_signers == req.total_signers,
        post.has_lock(req.lock_root_hash@),
{
    assert(post.locks@[post.locks@.len() - 1].lock_root_hash@ == req.lock_root_hash@);
}

/// Registering one wallet id twice stores one wallet: the second call fails
/// with `Conflict` and changes nothing, and no two stored wallets share an id.
pub proof fn lemma_register_same_id_once(
    s0: Store,
    req1: CreateMultisigRequest,
    now1: String,
    r1: Result<CreateMultisigResponse, AppError>,
    s1: Store,
    req2: CreateMultisigRequest,
    now2: String,
    r2: Result<CreateMultisigResponse, AppError>,
    s2: Store,
)
    requires
        s0.wf(),
        s1.wf(),
        Store::register_step(s0, req1, now1, r1, s1),
        Store::register_step(s1, req2, now2, r2, s2),
        req1.lock_root_hash@ == req2.lock_root_hash@,
    ensures
        r2 == Err::<CreateMultisigResponse, AppError>(AppError::Conflict(req2.lock_root_hash)),
        s2 == s1,
        s2.has_lock(req1.lock_root_hash@),
        forall|i: int, j: int|
            0 <= i < s2.locks@.len() && 0 <= j < s2.locks@.len() && s2.locks@[i].lock_root_hash@
                == req1.lock_root_hash@ && s2.locks@[j].lock_root_hash@ == req1.lock_root_hash@ ==> i == j,
{
    if !s0.has_lock(req1.lock_root_hash@) {
        assert(s1.locks@[s1.locks@.len() - 1].lock_root_hash@ == req1.lock_root_hash@);
    }
    assert forall|i: int, j: int|
        0 <= i < s2.locks@.len() && 0 <= j < s2.locks@.len() && s2.locks@[i].lock_root_hash@
            == req1.lock_root_hash@ && s2.locks@[j].lock_root_hash@ == req1.lock_root_hash@ implies i == j by {
        if i < j {
            assert(s1.locks@[i].lock_root_hash@ != s1.locks@[j].lock_root_hash@);
        } else if j < i {
            assert(s1.locks@[j].lock_root_hash@ != s1.locks@[i].lock_root_hash@);
        }
    }
}

/// Creating two proposals with one `tx_id` stores at most one: once a
/// proposal holds that `tx_id`, the second call fails with `Conflict` and
/// changes nothing, and no two stored proposals share a `tx_id`.
pub proof fn lemma_create_same_tx_once(
    s0: Store,
    req1: CreateProposalRequest,
    id1: String,
    now1: String,
    r1: Result<CreateProposalResponse, AppError>,
    s1: Store,
    req2: CreateProposalRequest,
    id2: String,
    now2: String,
    r2: Result<CreateProposalResponse, AppError>,
    s2: Store,
)
    requires
        s0.wf(),
        s1.wf(),
        Store::create_step(s0, req1, id1, now1, r1, s1),
        Store::create_step(s1, req2, id2, now2, r2, s2),
        req1.tx_id@ == req2.tx_id@,
    ensures
        r1 is Ok ==> s1.has_tx(req1.tx_id@),
        r1 is Ok || s0.has_tx(req1.tx_id@) ==> r2 == Err::<CreateProposalResponse, AppError>(
            AppError::Conflict(req2.tx_id),
        ) && s2 == s1,
        forall|i: int, j: int|
            0 <= i < s2.proposals@.len() && 0 <= j < s2.proposals@.len() && s2.proposals@[i].tx_id@
                == req1.tx_id@ && s2.proposals@[j].tx_id@ == req1.tx_id@ ==> i == j,
{
    if r1 is Ok {
        assert(s1.proposals@[s1.proposals@.len() - 1].tx_id@ == req1.tx_id@);
    }
    if s0.has_tx(req1.tx_id@) {
        assert(s1 == s0);
    }
    assert forall|i: int, j: int|
        0 <= i < s2.proposals@.len() && 0 <= j < s2.proposals@.len() && s2.proposals@[i].tx_id@
            == req1.tx_id@ && s2.proposals@[j].tx_id@ == req1.tx_id@ implies i == j by {
        if s2 == s1 {
            if i < j {
                assert(s1.proposals@[i].tx_id@ != s1.proposals@[j].tx_id@);
            } else if j < i {
                assert(s1.proposals@[j].tx_id@ != s1.proposals@[i].tx_id@);
            }
        } else {
            let n = s1.proposals@.len() as int;
            assert(!s1.has_tx(req2.tx_id@));
            if i < n && j < n {
                assert(s2.proposals@[i] == s1.proposals@[i] && s2.proposals@[j] == s1.proposals@[j]);
                if i < j {
                    assert(s1.proposals@[i].tx_id@ != s1.proposals@[j].tx_id@);
                } else if j < i {
                    assert(s1.proposals@[j].tx_id@ != s1.proposals@[i].tx_id@);
                }
            } else if i < n {
                assert(s2.proposals@[i] == s1.proposals@[i]);
            } else if j < n {
                assert(s2.proposals@[j] == s1.proposals@[j]);
            }
        }
    }
}

/// The ledger of a proposal never holds a signer twice, and where the
/// proposer is a participant of the wallet it never holds more signers than
/// the wallet has participants.
pub proof fn lemma_signers_bounded(s: Store, i: int)
    requires
        s.wf(),
        0 <= i < s.proposals@.len(),
        s.is_member(s.proposals@[i].lock_root_hash@, s.proposals@[i].proposer_pkh@),
    ensures
        s.signers(s.proposals@[i].id@).no_duplicates(),
        s.signers(s.proposals@[i].id@).len() <= s.members(s.proposals@[i].lock_root_hash@).len(),
{
    let sg = s.signers(s.proposals@[i].id@);
    let m = s.members(s.proposals@[i].lock_root_hash@);
    assert(sg.no_duplicates());
    sg.unique_seq_to_set();
    assert forall|x: Seq<char>| sg.to_set().contains(x) implies m.to_set().contains(x) by {
        assert(sg.contains(x));
        assert(s.is_member(s.proposals@[i].lock_root_hash@, x));
    }
    m.lemma_cardinality_of_set();
    vstd::set_lib::lemma_len_subset(sg.to_set(), m.to_set());
}

/// A signature turns a proposal `Ready` exactly when it brings the count up
/// to the threshold for the first time: the proposal was `Pending` below its
/// threshold, the count grows by one, and the proposal is `Ready` afterwards
/// if and only if `ready_to_broadcast` is reported.
pub proof fn lemma_ready_exactly_once(
    pre: Store,
    id: Seq<char>,
    req: SignProposalRequest,
    now: String,
    r: Result<SignProposalResponse, AppError>,
    post: Store,
)
    requires
        pre.wf(),
        pre.signers(id).len() < i32::MAX,
        Store::sign_step(pre, id, req, now, r, post),
        r is Ok,
    ensures
        pre.has_proposal(id),
        pre.proposals@[pre.index_of(id)].status == ProposalStatus::Pending,
        pre.signers(id).len() < pre.proposals@[pre.index_of(id)].threshold,
        post.signers(id).len() == pre.signers(id).len() + 1,
        r->Ok_0.signatures_collected == post.signers(id).len(),
        r->Ok_0.ready_to_broadcast <==> post.signers(id).len() == pre.proposals@[pre.index_of(id)].threshold,
        post.proposals@[pre.index_of(id)].status == ProposalStatus::Ready <==> r->Ok_0.ready_to_broadcast,
        post.proposals@[pre.index_of(id)].status != ProposalStatus::Ready ==> post.proposals@[pre.index_of(
            id,
        )].status == ProposalStatus::Pending,
{
    let i = pre.index_of(id);
    assert(0 <= i < pre.proposals@.len() && pre.proposals@[i].id@ == id);
    crate::store::lemma_signers_push(
        pre.signatures@,
        post.signatures@.last(),
        id,
    );
    assert(post.signatures@ == pre.signatures@.push(post.signatures@.last()));
    assert(pre.signers(id).len() <= pre.signatures@.len()) by {
        pre.lemma_signers_le_len(id);
    }
}

/// Once a proposal has left `Pending`, every further signature is refused
/// with `NotPending` and changes nothing, whoever submits it.
pub proof fn lemma_not_pending_refuses(
    pre: Store,
    id: Seq<char>,
    req: SignProposalRequest,
    now: String,
    r: Result<SignProposalResponse, AppError>,
    post: Store,
)
    requires
        Store::sign_step(pre, id, req, now, r, post),
        pre.has_proposal(id),
        pre.proposals@[pre.index_of(id)].status != ProposalStatus::Pending,
    ensures
        r matches Err(AppError::NotPending(x)) && x@ == id,
        post == pre,
{
}

/// The `Ready` transition happens once: after a signature that reported
/// `ready_to_broadcast`, the next signature on that proposal is refused with
/// `NotPending` and changes nothing.
pub proof fn lemma_ready_then_refused(
    s0: Store,
    id: Seq<char>,
    req1: SignProposalRequest,
    now1: String,
    r1: Result<SignProposalResponse, AppError>,
    s1: Store,
    req2: SignProposalRequest,
    now2: String,
    r2: Result<SignProposalResponse, AppError>,
    s2: Store,
)
    requires
        s0.wf(),
        s0.signers(id).len() < i32::MAX,
        Store::sign_step(s0, id, req1, now1, r1, s1),
        r1 matches Ok(resp) && resp.ready_to_broadcast,
        Store::sign_step(s1, id, req2, now2, r2, s2),
    ensures
        r2 matches Err(AppError::NotPending(x)) && x@ == id,
        s2 == s1,
{
    lemma_ready_exactly_once(s0, id, req1, now1, r1, s1);
    let i = s0.index_of(id);
    assert(0 <= i < s0.proposals@.len() && s0.proposals@[i].id@ == id);
    assert(s1.proposals@[i].id@ == id);
    assert(s1.has_proposal(id));
    let j = s1.index_of(id);
    assert(0 <= j < s1.proposals@.len() && s1.proposals@[j].id@ == id);
    if j != i {
        assert(s0.proposals@[j].id@ == id);
        if i < j {
            assert(s0.proposals@[i].id@ != s0.proposals@[j].id@);
        } else {
            assert(s0.proposals@[j].id@ != s0.proposals@[i].id@);
        }
    }
}

/// A signer is recorded once: after one of their signatures on a proposal
/// was accepted, another from them is refused (`AlreadySigned`, or
/// `NotPending` once the proposal has moved on) and changes nothing.
pub proof fn lemma_second_signature_refused(
    s0: Store,
    id: Seq<char>,
    req1: SignProposalRequest,
    now1: String,
    r1: Result<SignProposalResponse, AppError>,
    s1: Store,
    req2: SignProposalRequest,
    now2: String,
    r2: Result<SignProposalResponse, AppError>,
    s2: Store,
)
    requires
        s0.wf(),
        s1.wf(),
        Store::sign_step(s0, id, req1, now1, r1, s1),
        r1 is Ok,
        Store::sign_step(s1, id, req2, now2, r2, s2),
        req2.signer_pkh@ == req1.signer_pkh@,
    ensures
        r2 matches Err(AppError::AlreadySigned(_)) || r2 matches Err(AppError::NotPending(_)),
        s2 == s1,
{
    let i = s0.index_of(id);
    assert(0 <= i < s0.proposals@.len() && s0.proposals@[i].id@ == id);
    crate::store::lemma_signers_push(s0.signatures@, s1.signatures@.last(), id);
    assert(s1.signatures@ == s0.signatures@.push(s1.signatures@.last()));
    let n = s1.signers(id).len() - 1;
    assert(s1.signers(id)[n] == req1.signer_pkh@);
    assert(s1.proposals@[i].id@ == id);
    s1.lemma_index_of(id, i);
    assert(s1.proposals@[i].lock_root_hash == s0.proposals@[i].lock_root_hash);
}

/// A signer accepted by `sign` is among the proposal's signers, shows in
/// the signer list of the proposal's detail, and after a broadcast is among
/// the signers of the history entry it produced.
pub proof fn lemma_signer_round_trip(
    s0: Store,
    id: Seq<char>,
    req: SignProposalRequest,
    now: String,
    r: Result<SignProposalResponse, AppError>,
    s1: Store,
    breq: BroadcastProposalRequest,
    history_id: String,
    now2: String,
    r2: Result<BroadcastProposalResponse, AppError>,
    s2: Store,
)
    requires
        s0.wf(),
        Store::sign_step(s0, id, req, now, r, s1),
        r is Ok,
        s1.wf(),
        Store::broadcast_step(s1, id, breq, history_id, now2, r2, s2),
        !s1.has_history(history_id@),
    ensures
        s1.signers(id).contains(req.signer_pkh@),
        forall|d: ProposalDetailResponse|
            #[trigger] s1.shows_detail(s1.proposals@[s1.index_of(id)], d) ==> d.signers@.map_values(
                |x: String| x@,
            ).contains(req.signer_pkh@) && exists|k: int|
                0 <= k < d.signatures@.len() && #[trigger] d.signatures@[k].signer_pkh == req.signer_pkh
                    && d.signatures@[k].signed_tx_json == req.signed_tx_json,
        r2 is Ok,
        s2.history@.last().signers@.map_values(|x: String| x@).contains(req.signer_pkh@),
{
    let i = s0.index_of(id);
    assert(0 <= i < s0.proposals@.len() && s0.proposals@[i].id@ == id);
    crate::store::lemma_signers_push(s0.signatures@, s1.signatures@.last(), id);
    assert(s1.signatures@ == s0.signatures@.push(s1.signatures@.last()));
    let n = s1.signers(id).len() - 1;
    assert(s1.signers(id)[n] == req.signer_pkh@);
    assert(s1.proposals@[i].id@ == id);
    assert(s1.has_proposal(id));
    s1.lemma_index_of(id, i);
    let pid = s1.proposals@[i].id@;
    let rows = s1.ledger_rows(pid);
    assert(s1.signatures@.drop_last() =~= s0.signatures@);
    reveal(Seq::filter);
    assert(rows == s0.ledger_rows(pid).push(s1.signatures@.last()));
    assert forall|d: ProposalDetailResponse| #[trigger] s1.shows_detail(s1.proposals@[s1.index_of(id)], d)
        implies exists|k: int|
        0 <= k < d.signatures@.len() && #[trigger] d.signatures@[k].signer_pkh == req.signer_pkh
            && d.signatures@[k].signed_tx_json == req.signed_tx_json by {
        let k = rows.len() - 1;
        assert(rows[k] == s1.signatures@.last());
        assert(d.signatures@[k].signer_pkh == rows[k].signer_pkh);
    }
}


/// Registering one wallet id from `n` callers, in whatever order the
/// calls are serialized, stores one wallet: the first call succeeds, every
/// other one fails with `Conflict` and changes nothing, and the final state
/// holds exactly one wallet with that id, the first caller's.
pub proof fn lemma_register_many(
    states: Seq<Store>,
    reqs: Seq<CreateMultisigRequest>,
    nows: Seq<String>,
    rs: Seq<Result<CreateMultisigResponse, AppError>>,
    h: Seq<char>,
)
    requires
        reqs.len() >= 1,
        states.len() == reqs.len() + 1,
        nows.len() == reqs.len(),
        rs.len() == reqs.len(),
        forall|i: int| 0 <= i < states.len() ==> (#[trigger] states[i]).wf(),
        forall|i: int|
            0 <= i < reqs.len() ==> Store::register_step(
                states[i],
                #[trigger] reqs[i],
                nows[i],
                rs[i],
                states[i + 1],
            ),
        forall|i: int| 0 <= i < reqs.len() ==> (#[trigger] reqs[i]).lock_root_hash@ == h,
        !states[0].has_lock(h),
    ensures
        rs[0] is Ok,
        forall|i: int|
            1 <= i < reqs.len() ==> #[trigger] rs[i] == Err::<CreateMultisigResponse, AppError>(
                AppError::Conflict(reqs[i].lock_root_hash),
            ),
        states.last() == states[1],
        states.last().locks@.last().lock_root_hash == reqs[0].lock_root_hash,
        states.last().locks@.last().threshold == reqs[0].threshold,
        forall|i: int, j: int|
            0 <= i < states.last().locks@.len() && 0 <= j < states.last().locks@.len()
                && states.last().locks@[i].lock_root_hash@ == h && states.last().locks@[j].lock_root_hash@
                == h ==> i == j,
{
    let n = reqs.len() as int;
    assert(Store::register_step(states[0], reqs[0], nows[0], rs[0], states[1]));
    assert(reqs[0].lock_root_hash@ == h);
    assert(states[1].locks@[states[1].locks@.len() - 1].lock_root_hash@ == h);
    lemma_register_rest(states, reqs, nows, rs, h, n);
    let s = states[n];
    assert forall|i: int, j: int|
        0 <= i < s.locks@.len() && 0 <= j < s.locks@.len() && s.locks@[i].lock_root_hash@ == h
            && s.locks@[j].lock_root_hash@ == h implies i == j by {
        if i < j {
            assert(s.locks@[i].lock_root_hash@ != s.locks@[j].lock_root_hash@);
        } else if j < i {
            assert(s.locks@[j].lock_root_hash@ != s.locks@[i].lock_root_hash@);
        }
    }
}

/// After the first registration, calls `1..k` all conflict and leave the
/// state as the first call left it.
proof fn lemma_register_rest(
    states: Seq<Store>,
    reqs: Seq<CreateMultisigRequest>,
    nows: Seq<String>,
    rs: Seq<Result<CreateMultisigResponse, AppError>>,
    h: Seq<char>,
    k: int,
)
    requires
        1 <= k <= reqs.len(),
        states.len() == reqs.len() + 1,
        nows.len() == reqs.len(),
        rs.len() == reqs.len(),
        forall|i: int|
            0 <= i < reqs.len() ==> Store::register_step(
                states[i],
                #[trigger] reqs[i],
                nows[i],
                rs[i],
                states[i + 1],
            ),
        forall|i: int| 0 <= i < reqs.len() ==> (#[trigger] reqs[i]).lock_root_hash@ == h,
        states[1].has_lock(h),
    ensures
        states[k] == states[1],
        forall|i: int|
            1 <= i < k ==> #[trigger] rs[i] == Err::<CreateMultisigResponse, AppError>(
                AppError::Conflict(reqs[i].lock_root_hash),
            ),
    decreases k,
{
    if k > 1 {
        lemma_register_rest(states, reqs, nows, rs, h, k - 1);
        assert(Store::register_step(states[k - 1], reqs[k - 1], nows[k - 1], rs[k - 1], states[k]));
    }
}

/// Once a signature has reported `ready_to_broadcast`, every later
/// signature on that proposal, in any serialization of the calls, is
/// refused with `NotPending` and changes nothing: the `Ready` transition
/// happens at most once.
pub proof fn lemma_ready_at_most_once(
    states: Seq<Store>,
    id: Seq<char>,
    reqs: Seq<SignProposalRequest>,
    nows: Seq<String>,
    rs: Seq<Result<SignProposalResponse, AppError>>,
    first: int,
)
    requires
        states.len() == reqs.len() + 1,
        nows.len() == reqs.len(),
        rs.len() == reqs.len(),
        0 <= first < reqs.len(),
        forall|i: int| 0 <= i < states.len() ==> (#[trigger] states[i]).wf(),
        forall|i: int|
            0 <= i < reqs.len() ==> Store::sign_step(states[i], id, #[trigger] reqs[i], nows[i], rs[i], states[i + 1]),
        states[first].signers(id).len() < i32::MAX,
        rs[first] matches Ok(resp) && resp.ready_to_broadcast,
    ensures
        forall|j: int|
            first < j < reqs.len() ==> (#[trigger] rs[j] matches Err(AppError::NotPending(x)) && x@ == id),
        states.last() == states[first + 1],
{
    lemma_refused_after(states, id, reqs, nows, rs, first, reqs.len() as int);
}

proof fn lemma_refused_after(
    states: Seq<Store>,
    id: Seq<char>,
    reqs: Seq<SignProposalRequest>,
    nows: Seq<String>,
    rs: Seq<Result<SignProposalResponse, AppError>>,
    first: int,
    k: int,
)
    requires
        states.len() == reqs.len() + 1,
        nows.len() == reqs.len(),
        rs.len() == reqs.len(),
        0 <= first < k <= reqs.len(),
        forall|i: int| 0 <= i < states.len() ==> (#[trigger] states[i]).wf(),
        forall|i: int|
            0 <= i < reqs.len() ==> Store::sign_step(states[i], id, #[trigger] reqs[i], nows[i], rs[i], states[i + 1]),
        states[first].signers(id).len() < i32::MAX,
        rs[first] matches Ok(resp) && resp.ready_to_broadcast,
    ensures
        forall|j: int| first < j < k ==> (#[trigger] rs[j] matches Err(AppError::NotPending(x)) && x@ == id),
        states[k] == states[first + 1],
    decreases k,
{
    if k > first + 1 {
        lemma_refused_after(states, id, reqs, nows, rs, first, k - 1);
        assert(Store::sign_step(states[first], id, reqs[first], nows[first], rs[first], states[first + 1]));
        assert(Store::sign_step(states[k - 1], id, reqs[k - 1], nows[k - 1], rs[k - 1], states[k]));
        lemma_ready_then_refused(
            states[first],
            id,
            reqs[first],
            nows[first],
            rs[first],
            states[first + 1],
            reqs[k - 1],
            nows[k - 1],
            rs[k - 1],
            states[k],
        );
    }
}

/// Creating proposals with one `tx_id` from `n` callers, in whatever order
/// the calls are serialized, stores one proposal: where the wallet exists
/// and the first call's id is fresh, the first call succeeds, every other
/// one fails with `Conflict` and changes nothing, and the final state holds
/// exactly one proposal with that `tx_id`, whose ledger is the proposer's
/// one signature.
pub proof fn lemma_create_many(
    states: Seq<Store>,
    reqs: Seq<CreateProposalRequest>,
    ids: Seq<String>,
    nows: Seq<String>,
    rs: Seq<Result<CreateProposalResponse, AppError>>,
    t: Seq<char>,
)
    requires
        reqs.len() >= 1,
        states.len() == reqs.len() + 1,
        ids.len() == reqs.len(),
        nows.len() == reqs.len(),
        rs.len() == reqs.len(),
        forall|i: int| 0 <= i < states.len() ==> (#[trigger] states[i]).wf(),
        forall|i: int|
            0 <= i < reqs.len() ==> Store::create_step(
                states[i],
                #[trigger] reqs[i],
                ids[i],
                nows[i],
                rs[i],
                states[i + 1],
            ),
        forall|i: int| 0 <= i < reqs.len() ==> (#[trigger] reqs[i]).tx_id@ == t,
        !states[0].has_tx(t),
        states[0].has_lock(reqs[0].lock_root_hash@),
        !states[0].has_proposal(ids[0]@),
    ensures
        rs[0] is Ok,
        forall|i: int|
            1 <= i < reqs.len() ==> #[trigger] rs[i] == Err::<CreateProposalResponse, AppError>(
                AppError::Conflict(reqs[i].tx_id),
            ),
        states.last() == states[1],
        states.last().signers(ids[0]@) == seq![reqs[0].proposer_pkh@],
        forall|i: int, j: int|
            0 <= i < states.last().proposals@.len() && 0 <= j < states.last().proposals@.len()
                && states.last().proposals@[i].tx_id@ == t && states.last().proposals@[j].tx_id@ == t ==> i
                == j,
{
    let n = reqs.len() as int;
    let s0 = states[0];
    let s1 = states[1];
    assert(Store::create_step(s0, reqs[0], ids[0], nows[0], rs[0], s1));
    assert(reqs[0].tx_id@ == t);
    assert(s1.proposals@[s1.proposals@.len() - 1].tx_id@ == t);
    s0.lemma_unknown_unsigned(ids[0]@);
    crate::store::lemma_signers_push(s0.signatures@, s1.signatures@.last(), ids[0]@);
    assert(s1.signatures@ == s0.signatures@.push(s1.signatures@.last()));
    assert(s1.signers(ids[0]@) =~= seq![reqs[0].proposer_pkh@]);
    lemma_create_rest(states, reqs, ids, nows, rs, t, n);
    let s = states[n];
    assert forall|i: int, j: int|
        0 <= i < s.proposals@.len() && 0 <= j < s.proposals@.len() && s.proposals@[i].tx_id@ == t
            && s.proposals@[j].tx_id@ == t implies i == j by {
        if i < j {
            assert(s.proposals@[i].tx_id@ != s.proposals@[j].tx_id@);
        } else if j < i {
            assert(s.proposals@[j].tx_id@ != s.proposals@[i].tx_id@);
        }
    }
}

/// After the first creation, calls `1..k` all conflict and leave the state
/// as the first call left it.
proof fn lemma_create_rest(
    states: Seq<Store>,
    reqs: Seq<CreateProposalRequest>,
    ids: Seq<String>,
    nows: Seq<String>,
    rs: Seq<Result<CreateProposalResponse, AppError>>,
    t: Seq<char>,
    k: int,
)
    requires
        1 <= k <= reqs.len(),
        states.len() == reqs.len() + 1,
        ids.len() == reqs.len(),
        nows.len() == reqs.len(),
        rs.len() == reqs.len(),
        forall|i: int|
            0 <= i < reqs.len() ==> Store::create_step(
                states[i],
                #[trigger] reqs[i],
                ids[i],
                nows[i],
                rs[i],
                states[i + 1],
            ),
        forall|i: int| 0 <= i < reqs.len() ==> (#[trigger] reqs[i]).tx_id@ == t,
        states[1].has_tx(t),
    ensures
        states[k] == states[1],
        forall|i: int|
            1 <= i < k ==> #[trigger] rs[i] == Err::<CreateProposalResponse, AppError>(
                AppError::Conflict(reqs[i].tx_id),
            ),
    decreases k,
{
    if k > 1 {
        lemma_create_rest(states, reqs, ids, nows, rs, t, k - 1);
        assert(Store::create_step(states[k - 1], reqs[k - 1], ids[k - 1], nows[k - 1], rs[k - 1], states[k]));
    }
}

} // verus!

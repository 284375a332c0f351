use vstd::prelude::*;
use crate::api::{
    BroadcastProposalRequest, BroadcastProposalResponse, CreateProposalRequest, CreateProposalResponse,
    DirectSpendRequest, DirectSpendResponse, SignProposalRequest, SignProposalResponse,
};
use crate::api::{CreateMultisigRequest, CreateMultisigResponse};
use crate::error::AppError;
use crate::ids::{new_id, now_rfc3339};
use crate::models::{
    copy_seeds, Proposal, ProposalSignature, ProposalStatus, TransactionHistory, TransactionStatus,
};
use crate::store::{lemma_signers_push, Store};

verus! {

/// The status a proposal takes once it holds `count` signatures of the
/// `threshold` it needs, while collecting.
pub open spec fn status_for(count: int, threshold: i32) -> ProposalStatus {
    if count >= threshold {
        ProposalStatus::Ready
    } else {
        ProposalStatus::Pending
    }
}

/// Whether a status is past `Broadcast`.
pub open spec fn is_finished(s: ProposalStatus) -> bool {
    s == ProposalStatus::Confirmed || s == ProposalStatus::Expired
}

/// `p` with a new status and a new update time.
pub open spec fn touched(p: Proposal, status: ProposalStatus, at: String) -> Proposal {
    Proposal { status, updated_at: at, ..p }
}

impl Store {
    /// The position of proposal `id` (meaningful where it exists).
    pub open spec fn index_of(self, id: Seq<char>) -> int {
        choose|i: int| 0 <= i < self.proposals@.len() && #[trigger] self.proposals@[i].id@ == id
    }

    /// Proposal ids pick out one position.
    pub proof fn lemma_index_of(self, id: Seq<char>, i: int)
        requires
            self.wf(),
            0 <= i < self.proposals@.len(),
            self.proposals@[i].id@ == id,
        ensures
            self.index_of(id) == i,
    {
        let j = self.index_of(id);
        assert(0 <= j < self.proposals@.len() && self.proposals@[j].id@ == id);
        if i < j {
            assert(self.proposals@[i].id@ != self.proposals@[j].id@);
        } else if j < i {
            assert(self.proposals@[j].id@ != self.proposals@[i].id@);
        }
    }

    /// A proposal that does not exist has no signatures.
    pub proof fn lemma_unknown_unsigned(self, id: Seq<char>)
        requires
            self.wf(),
            !self.has_proposal(id),
        ensures
            self.signers(id).len() == 0,
    {
    }

    /// Creation of proposal `req` under the new id `id` at time `now` took
    /// `pre` to `post` with result `r`.
    pub open spec fn create_step(
        pre: Store,
        req: CreateProposalRequest,
        id: String,
        now: String,
        r: Result<CreateProposalResponse, AppError>,
        post: Store,
    ) -> bool {
        &&& pre.has_tx(req.tx_id@) ==> r == Err::<CreateProposalResponse, AppError>(
            AppError::Conflict(req.tx_id),
        ) && post == pre
        &&& !pre.has_tx(req.tx_id@) && !pre.has_lock(req.lock_root_hash@) ==> r == Err::<
            CreateProposalResponse,
            AppError,
        >(AppError::NotFound(req.lock_root_hash)) && post == pre
        &&& !pre.has_tx(req.tx_id@) && pre.has_lock(req.lock_root_hash@) && pre.has_proposal(id@)
            ==> r == Err::<CreateProposalResponse, AppError>(AppError::Conflict(id)) && post == pre
        &&& !pre.has_tx(req.tx_id@) && pre.has_lock(req.lock_root_hash@) && !pre.has_proposal(id@)
            ==> {
            &&& r == Ok::<CreateProposalResponse, AppError>(
                CreateProposalResponse { id: id, tx_id: req.tx_id },
            )
            &&& post.proposals@ == pre.proposals@.push(
                Proposal {
                    id: id,
                    tx_id: req.tx_id,
                    lock_root_hash: req.lock_root_hash,
                    proposer_pkh: req.proposer_pkh,
                    status: status_for(1, pre.lock_of(req.lock_root_hash@).threshold),
                    threshold: pre.lock_of(req.lock_root_hash@).threshold,
                    raw_tx_json: req.raw_tx_json,
                    notes_json: req.notes_json,
                    spend_conditions_json: req.spend_conditions_json,
                    total_input_nicks: req.total_input_nicks,
                    seeds: req.seeds,
                    created_at: now,
                    updated_at: now,
                },
            )
            &&& post.signatures@ == pre.signatures@.push(
                ProposalSignature {
                    proposal_id: id,
                    signer_pkh: req.proposer_pkh,
                    signed_tx_json: req.proposer_signed_tx_json,
                    signed_at: now,
                },
            )
            &&& post.locks@ == pre.locks@
            &&& post.participants@ == pre.participants@
            &&& post.history@ == pre.history@
        }
    }

    /// Creates a proposal under id `id` at time `now`, with the proposer's
    /// own signature. Its threshold is the wallet's, copied at creation;
    /// `req.threshold` is not consulted. It is `Ready` at once where one
    /// signature meets that threshold. Fails with `Conflict` on a taken `tx_id` or `id`, with
    /// `NotFound` where the wallet does not exist.
    pub fn create_proposal_at(&mut self, req: CreateProposalRequest, id: String, now: String) -> (r:
        Result<CreateProposalResponse, AppError>)
        requires
            old(self).wf(),
        ensures
            final(self).wf(),
            Store::create_step(*old(self), req, id, now, r, *final(self)),
    {
        if self.tx_taken(req.tx_id.as_str()) {
            return Err(AppError::Conflict(req.tx_id));
        }
        let li = match self.find_lock(req.lock_root_hash.as_str()) {
            Some(li) => li,
            None => {
                return Err(AppError::NotFound(req.lock_root_hash));
            },
        };
        if self.find_proposal(id.as_str()).is_some() {
            return Err(AppError::Conflict(id));
        }
        let ghost old_s = *self;
        proof {
            self.lemma_lock_of(req.lock_root_hash@, li as int);
        }
        let threshold = self.locks[li].threshold;
        let status = if 1 >= threshold {
            ProposalStatus::Ready
        } else {
            ProposalStatus::Pending
        };
        let sig = ProposalSignature {
            proposal_id: id.clone(),
            signer_pkh: req.proposer_pkh.clone(),
            signed_tx_json: req.proposer_signed_tx_json,
            signed_at: now.clone(),
        };
        let p = Proposal {
            id: id.clone(),
            tx_id: req.tx_id.clone(),
            lock_root_hash: req.lock_root_hash,
            proposer_pkh: req.proposer_pkh,
            status,
            threshold,
            raw_tx_json: req.raw_tx_json,
            notes_json: req.notes_json,
            spend_conditions_json: req.spend_conditions_json,
            total_input_nicks: req.total_input_nicks,
            seeds: req.seeds,
            created_at: now.clone(),
            updated_at: now,
        };
        self.proposals.push(p);
        self.signatures.push(sig);
        proof {
            let n = old_s.proposals@.len() as int;
            old_s.lemma_unknown_unsigned(id@);
            Store::lemma_registry_kept(old_s, *self);
            assert forall|pid: Seq<char>| #[trigger] self.signers(pid) == if pid == id@ {
                old_s.signers(pid).push(sig.signer_pkh@)
            } else {
                old_s.signers(pid)
            } by {
                lemma_signers_push(old_s.signatures@, sig, pid);
            }
            assert(self.proposals@[n] == p);
            assert(self.proposals@[n].id@ == id@);
            assert(self.has_proposal(id@));
            assert(self.locks@[li as int].lock_root_hash@ == self.proposals@[n].lock_root_hash@);
            assert forall|i: int, j: int| 0 <= i < j < self.proposals@.len() implies self.proposals@[i].id@
                != self.proposals@[j].id@ && self.proposals@[i].tx_id@ != self.proposals@[j].tx_id@ by {
                assert(self.proposals@[i] == old_s.proposals@[i]);
                if j < n {
                    assert(self.proposals@[j] == old_s.proposals@[j]);
                }
            }
            assert forall|i: int| 0 <= i < self.proposals@.len() implies self.has_lock(
                #[trigger] self.proposals@[i].lock_root_hash@,
            ) by {
                if i < n {
                    assert(self.proposals@[i] == old_s.proposals@[i]);
                }
            }
            assert forall|pid: Seq<char>| #[trigger] self.signers(pid).len() > 0 implies self.has_proposal(pid) by {
                if pid != id@ {
                    assert(old_s.signers(pid).len() > 0);
                    let i = choose|i: int| 0 <= i < n && #[trigger] old_s.proposals@[i].id@ == pid;
                    assert(self.proposals@[i] == old_s.proposals@[i]);
                }
            }
            assert forall|pid: Seq<char>| #[trigger] self.signers(pid).no_duplicates() by {
                assert(old_s.signers(pid).no_duplicates());
                if pid == id@ {
                    assert(self.signers(pid) =~= seq![sig.signer_pkh@]);
                }
            }
            assert forall|i: int, q: Seq<char>|
                0 <= i < self.proposals@.len() && #[trigger] self.signers(self.proposals@[i].id@).contains(q)
                implies self.is_member(self.proposals@[i].lock_root_hash@, q)
                    || q == self.proposals@[i].proposer_pkh@ by {
                if i < n {
                    assert(self.proposals@[i] == old_s.proposals@[i]);
                    assert(old_s.proposals@[i].id@ != id@);
                    assert(old_s.signers(old_s.proposals@[i].id@).contains(q));
                } else {
                    assert(self.signers(id@) =~= seq![sig.signer_pkh@]);
                    assert(q == self.signers(id@)[0]);
                }
            }
            assert forall|i: int| 0 <= i < self.proposals@.len() && (#[trigger] self.proposals@[i]).status
                == ProposalStatus::Pending implies self.signers(self.proposals@[i].id@).len()
                < self.proposals@[i].threshold by {
                if i < n {
                    assert(self.proposals@[i] == old_s.proposals@[i]);
                    assert(old_s.proposals@[i].id@ != id@);
                }
            }
        }
        Ok(CreateProposalResponse { id: id, tx_id: req.tx_id })
    }

    /// Signing proposal `id` with `req` at time `now` took `pre` to `post`
    /// with result `r`.
    pub open spec fn sign_step(
        pre: Store,
        id: Seq<char>,
        req: SignProposalRequest,
        now: String,
        r: Result<SignProposalResponse, AppError>,
        post: Store,
    ) -> bool {
        let i = pre.index_of(id);
        let p = pre.proposals@[i];
        let count = pre.signers(id).len() as int + 1;
        &&& !pre.has_proposal(id) ==> post == pre && (r matches Err(AppError::NotFound(x)) && x@ == id)
        &&& pre.has_proposal(id) && p.status != ProposalStatus::Pending ==> post == pre
            && (r matches Err(AppError::NotPending(x)) && x@ == id)
        &&& pre.has_proposal(id) && p.status == ProposalStatus::Pending && !pre.is_member(
            p.lock_root_hash@,
            req.signer_pkh@,
        ) ==> post == pre && r == Err::<SignProposalResponse, AppError>(
            AppError::NotParticipant(req.signer_pkh),
        )
        &&& pre.has_proposal(id) && p.status == ProposalStatus::Pending && pre.is_member(
            p.lock_root_hash@,
            req.signer_pkh@,
        ) && pre.has_signed(id, req.signer_pkh@) ==> post == pre && r == Err::<
            SignProposalResponse,
            AppError,
        >(AppError::AlreadySigned(req.signer_pkh))
        &&& pre.has_proposal(id) && p.status == ProposalStatus::Pending && pre.is_member(
            p.lock_root_hash@,
            req.signer_pkh@,
        ) && !pre.has_signed(id, req.signer_pkh@) ==> {
            &&& r == Ok::<SignProposalResponse, AppError>(
                SignProposalResponse {
                    success: true,
                    signatures_collected: count as i32,
                    ready_to_broadcast: count >= p.threshold,
                },
            )
            &&& post.signatures@ == pre.signatures@.push(
                ProposalSignature {
                    proposal_id: p.id,
                    signer_pkh: req.signer_pkh,
                    signed_tx_json: req.signed_tx_json,
                    signed_at: now,
                },
            )
            &&& post.proposals@ == pre.proposals@.update(i, touched(p, status_for(count, p.threshold), now))
            &&& post.locks@ == pre.locks@
            &&& post.participants@ == pre.participants@
            &&& post.history@ == pre.history@
        }
    }

    /// Adds `req.signer_pkh`'s signature to proposal `id` at time `now`, and
    /// in the same step moves the proposal to `Ready` where the count meets
    /// its threshold. Checked in order: the proposal exists (`NotFound`), is
    /// `Pending` (`NotPending`), the signer is a participant of its wallet
    /// (`NotParticipant`) and has not signed yet (`AlreadySigned`).
    pub fn sign_proposal_at(&mut self, id: &str, req: SignProposalRequest, now: String) -> (r: Result<
        SignProposalResponse,
        AppError,
    >)
        requires
            old(self).wf(),
            old(self).signers(id@).len() < i32::MAX,
        ensures
            final(self).wf(),
            Store::sign_step(*old(self), id@, req, now, r, *final(self)),
    {
        let i = match self.find_proposal(id) {
            Some(i) => i,
            None => {
                return Err(AppError::NotFound(id.to_owned()));
            },
        };
        proof {
            self.lemma_index_of(id@, i as int);
        }
        match self.proposals[i].status {
            ProposalStatus::Pending => {},
            _ => {
                return Err(AppError::NotPending(id.to_owned()));
            },
        }
        let pid = self.proposals[i].id.clone();
        if !self.is_participant(self.proposals[i].lock_root_hash.as_str(), req.signer_pkh.as_str()) {
            return Err(AppError::NotParticipant(req.signer_pkh));
        }
        if self.signed_by(pid.as_str(), req.signer_pkh.as_str()) {
            return Err(AppError::AlreadySigned(req.signer_pkh));
        }
        let ghost old_s = *self;
        let count0 = self.signature_count(pid.as_str());
        let sig = ProposalSignature {
            proposal_id: pid,
            signer_pkh: req.signer_pkh,
            signed_tx_json: req.signed_tx_json,
            signed_at: now.clone(),
        };
        self.signatures.push(sig);
        let count: i32 = (count0 + 1) as i32;
        let ready = count >= self.proposals[i].threshold;
        let status = if ready {
            ProposalStatus::Ready
        } else {
            ProposalStatus::Pending
        };
        self.proposals[i].status = status;
        self.proposals[i].updated_at = now;
        proof {
            let n = self.proposals@.len();
            let p = old_s.proposals@[i as int];
            assert(self.proposals@ =~= old_s.proposals@.update(
                i as int,
                touched(p, status_for(count0 + 1, p.threshold), now),
            ));
            Store::lemma_registry_kept(old_s, *self);
            assert forall|q: Seq<char>| #[trigger] self.signers(q) == if q == id@ {
                old_s.signers(q).push(sig.signer_pkh@)
            } else {
                old_s.signers(q)
            } by {
                lemma_signers_push(old_s.signatures@, sig, q);
            }
            assert forall|a: int, b: int| 0 <= a < b < n implies self.proposals@[a].id@
                != self.proposals@[b].id@ && self.proposals@[a].tx_id@ != self.proposals@[b].tx_id@ by {
                assert(old_s.proposals@[a].id@ != old_s.proposals@[b].id@);
            }
            assert forall|a: int| 0 <= a < n implies self.has_lock(
                #[trigger] self.proposals@[a].lock_root_hash@,
            ) by {
                assert(old_s.has_lock(old_s.proposals@[a].lock_root_hash@));
            }
            assert forall|q: Seq<char>| #[trigger] self.signers(q).len() > 0 implies self.has_proposal(q) by {
                if q != id@ {
                    assert(old_s.signers(q).len() > 0);
                    let a = choose|a: int| 0 <= a < n && #[trigger] old_s.proposals@[a].id@ == q;
                    assert(self.proposals@[a].id@ == q);
                } else {
                    assert(self.proposals@[i as int].id@ == q);
                }
            }
            assert forall|q: Seq<char>| #[trigger] self.signers(q).no_duplicates() by {
                assert(old_s.signers(q).no_duplicates());
            }
            assert forall|a: int, x: Seq<char>|
                0 <= a < n && #[trigger] self.signers(self.proposals@[a].id@).contains(x)
                implies self.is_member(self.proposals@[a].lock_root_hash@, x)
                    || x == self.proposals@[a].proposer_pkh@ by {
                let qa = self.proposals@[a].id@;
                if qa == id@ {
                    assert(a == i) by {
                        if a != i {
                            assert(old_s.proposals@[a].id@ != old_s.proposals@[i as int].id@);
                        }
                    }
                    let hh = self.proposals@[a].lock_root_hash@;
                    assert(hh == old_s.proposals@[a].lock_root_hash@);
                    assert(self.members(hh) == old_s.members(hh));
                    if x != sig.signer_pkh@ {
                        let w = choose|w: int| 0 <= w < self.signers(qa).len() && self.signers(qa)[w] == x;
                        assert(old_s.signers(qa)[w] == x);
                        assert(old_s.signers(old_s.proposals@[a].id@).contains(x));
                    } else {
                        assert(old_s.is_member(hh, x));
                    }
                } else {
                    assert(old_s.signers(old_s.proposals@[a].id@).contains(x));
                }
            }
            assert forall|a: int| 0 <= a < n && (#[trigger] self.proposals@[a]).status
                == ProposalStatus::Pending implies self.signers(self.proposals@[a].id@).len()
                < self.proposals@[a].threshold by {
                if a != i {
                    assert(old_s.proposals@[a] == self.proposals@[a]);
                    assert(old_s.proposals@[a].id@ != old_s.proposals@[i as int].id@);
                }
            }
        }
        Ok(SignProposalResponse { success: true, signatures_collected: count, ready_to_broadcast: ready })
    }
    /// Broadcasting proposal `id` with `req`, recorded under `history_id`
    /// at time `now`, took `pre` to `post` with result `r`.
    pub open spec fn broadcast_step(
        pre: Store,
        id: Seq<char>,
        req: BroadcastProposalRequest,
        history_id: String,
        now: String,
        r: Result<BroadcastProposalResponse, AppError>,
        post: Store,
    ) -> bool {
        let i = pre.index_of(id);
        let p = pre.proposals@[i];
        let e = post.history@.last();
        &&& !pre.has_proposal(id) ==> post == pre && (r matches Err(AppError::NotFound(x)) && x@ == id)
        &&& pre.has_proposal(id) && pre.has_history(history_id@) ==> post == pre && r == Err::<
            BroadcastProposalResponse,
            AppError,
        >(AppError::Conflict(history_id))
        &&& pre.has_proposal(id) && !pre.has_history(history_id@) ==> {
            &&& r == Ok::<BroadcastProposalResponse, AppError>(
                BroadcastProposalResponse { success: true, history_id: history_id },
            )
            &&& post.history@.len() == pre.history@.len() + 1
            &&& post.history@.drop_last() == pre.history@
            &&& e.id == history_id
            &&& e.tx_id == match req.final_tx_id {
                Some(t) => t,
                None => p.tx_id,
            }
            &&& e.lock_root_hash == p.lock_root_hash
            &&& e.proposer_pkh == p.proposer_pkh
            &&& e.status == TransactionStatus::Broadcast
            &&& e.total_input_nicks == p.total_input_nicks
            &&& e.seeds@ == p.seeds@
            &&& e.signers@.map_values(|s: String| s@) == pre.signers(id)
            &&& e.created_at == p.created_at
            &&& e.broadcast_at == Some(now)
            &&& e.confirmed_at == None::<String>
            &&& post.proposals@ == if is_finished(p.status) {
                pre.proposals@
            } else {
                pre.proposals@.update(i, touched(p, ProposalStatus::Broadcast, now))
            }
            &&& post.locks@ == pre.locks@
            &&& post.participants@ == pre.participants@
            &&& post.signatures@ == pre.signatures@
        }
    }

    /// Records proposal `id` as broadcast: appends a history entry under
    /// `history_id` with the current signers and `final_tx_id` where given
    /// (else the proposal's own `tx_id`), and moves the proposal to
    /// `Broadcast` unless it is already `Confirmed` or `Expired`, which it
    /// keeps (a status never moves back). `NotFound` where the proposal
    /// does not exist, `Conflict` where `history_id` is taken. `NotFound` where the proposal does not exist. Repeated
    /// calls append repeated entries.
    pub fn mark_broadcast_at(
        &mut self,
        id: &str,
        req: BroadcastProposalRequest,
        history_id: String,
        now: String,
    ) -> (r: Result<BroadcastProposalResponse, AppError>)
        requires
            old(self).wf(),
        ensures
            final(self).wf(),
            Store::broadcast_step(*old(self), id@, req, history_id, now, r, *final(self)),
    {
        let i = match self.find_proposal(id) {
            Some(i) => i,
            None => {
                return Err(AppError::NotFound(id.to_owned()));
            },
        };
        proof {
            self.lemma_index_of(id@, i as int);
        }
        if self.history_taken(history_id.as_str()) {
            return Err(AppError::Conflict(history_id));
        }
        let ghost old_s = *self;
        let signers = self.signer_list(self.proposals[i].id.as_str());
        let tx_id = match req.final_tx_id {
            Some(t) => t,
            None => self.proposals[i].tx_id.clone(),
        };
        let entry = TransactionHistory {
            id: history_id.clone(),
            tx_id,
            lock_root_hash: self.proposals[i].lock_root_hash.clone(),
            proposer_pkh: self.proposals[i].proposer_pkh.clone(),
            status: TransactionStatus::Broadcast,
            total_input_nicks: self.proposals[i].total_input_nicks,
            seeds: copy_seeds(&self.proposals[i].seeds),
            signers,
            created_at: self.proposals[i].created_at.clone(),
            broadcast_at: Some(now.clone()),
            confirmed_at: None,
        };
        self.history.push(entry);
        let finished = match self.proposals[i].status {
            ProposalStatus::Confirmed | ProposalStatus::Expired => true,
            _ => false,
        };
        if !finished {
            self.proposals[i].status = ProposalStatus::Broadcast;
            self.proposals[i].updated_at = now;
        }
        proof {
            let n = self.proposals@.len();
            let p = old_s.proposals@[i as int];
            if !finished {
                assert(self.proposals@ =~= old_s.proposals@.update(
                    i as int,
                    touched(p, ProposalStatus::Broadcast, now),
                ));
            }
            assert(self.history@.drop_last() =~= old_s.history@);
            assert forall|a: int, b: int| 0 <= a < b < self.history@.len() implies self.history@[a].id@
                != self.history@[b].id@ by {
                assert(self.history@[a] == old_s.history@[a]);
                if b < old_s.history@.len() {
                    assert(self.history@[b] == old_s.history@[b]);
                }
            }
            Store::lemma_registry_kept(old_s, *self);
            assert forall|a: int, b: int| 0 <= a < b < n implies self.proposals@[a].id@
                != self.proposals@[b].id@ && self.proposals@[a].tx_id@ != self.proposals@[b].tx_id@ by {
                assert(old_s.proposals@[a].id@ != old_s.proposals@[b].id@);
            }
            assert forall|a: int| 0 <= a < n implies self.has_lock(
                #[trigger] self.proposals@[a].lock_root_hash@,
            ) by {
                assert(old_s.has_lock(old_s.proposals@[a].lock_root_hash@));
            }
            assert forall|q: Seq<char>| #[trigger] self.signers(q).len() > 0 implies self.has_proposal(q) by {
                assert(old_s.signers(q).len() > 0);
                let a = choose|a: int| 0 <= a < n && #[trigger] old_s.proposals@[a].id@ == q;
                assert(self.proposals@[a].id@ == q);
            }
            assert forall|q: Seq<char>| #[trigger] self.signers(q).no_duplicates() by {
                assert(old_s.signers(q).no_duplicates());
            }
            assert forall|a: int, x: Seq<char>|
                0 <= a < n && #[trigger] self.signers(self.proposals@[a].id@).contains(x)
                implies self.is_member(self.proposals@[a].lock_root_hash@, x)
                    || x == self.proposals@[a].proposer_pkh@ by {
                assert(old_s.signers(old_s.proposals@[a].id@).contains(x));
                assert(self.members(self.proposals@[a].lock_root_hash@) == old_s.members(
                    old_s.proposals@[a].lock_root_hash@,
                ));
            }
            assert forall|a: int| 0 <= a < n && (#[trigger] self.proposals@[a]).status
                == ProposalStatus::Pending implies self.signers(self.proposals@[a].id@).len()
                < self.proposals@[a].threshold by {
                assert(old_s.proposals@[a] == self.proposals@[a]);
            }
        }
        Ok(BroadcastProposalResponse { success: true, history_id })
    }

    /// A direct spend of `req`, recorded under `history_id` at time `now`,
    /// took `pre` to `post` with result `r`.
    pub open spec fn direct_step(
        pre: Store,
        req: DirectSpendRequest,
        history_id: String,
        now: String,
        r: Result<DirectSpendResponse, AppError>,
        post: Store,
    ) -> bool {
        let e = post.history@.last();
        &&& !pre.has_lock(req.lock_root_hash@) ==> post == pre && r == Err::<DirectSpendResponse, AppError>(
            AppError::NotFound(req.lock_root_hash),
        )
        &&& pre.has_lock(req.lock_root_hash@) && !pre.is_member(req.lock_root_hash@, req.sender_pkh@)
            ==> post == pre && r == Err::<DirectSpendResponse, AppError>(
            AppError::NotParticipant(req.sender_pkh),
        )
        &&& pre.has_lock(req.lock_root_hash@) && pre.is_member(req.lock_root_hash@, req.sender_pkh@)
            && pre.has_history(history_id@) ==> post == pre && r == Err::<DirectSpendResponse, AppError>(
            AppError::Conflict(history_id),
        )
        &&& pre.has_lock(req.lock_root_hash@) && pre.is_member(req.lock_root_hash@, req.sender_pkh@)
            && !pre.has_history(history_id@) ==> {
            &&& r == Ok::<DirectSpendResponse, AppError>(
                DirectSpendResponse { success: true, history_id: history_id },
            )
            &&& post.history@.len() == pre.history@.len() + 1
            &&& post.history@.drop_last() == pre.history@
            &&& e.id == history_id
            &&& e.tx_id == req.tx_id
            &&& e.lock_root_hash == req.lock_root_hash
            &&& e.proposer_pkh == req.sender_pkh
            &&& e.status == TransactionStatus::Broadcast
            &&& e.total_input_nicks == req.total_input_nicks
            &&& e.seeds == req.seeds
            &&& e.signers@.map_values(|s: String| s@) == seq![req.sender_pkh@]
            &&& e.created_at == now
            &&& e.broadcast_at == Some(now)
            &&& e.confirmed_at == None::<String>
            &&& post.proposals@ == pre.proposals@
            &&& post.locks@ == pre.locks@
            &&& post.participants@ == pre.participants@
            &&& post.signatures@ == pre.signatures@
        }
    }

    /// Records a spend by a single signer straight into the history, with
    /// `signers = [sender]`. `NotFound` where the wallet does not exist,
    /// `NotParticipant` where the sender is not one of its participants,
    /// `Conflict` where `history_id` is taken.
    pub fn direct_spend_at(&mut self, req: DirectSpendRequest, history_id: String, now: String) -> (r:
        Result<DirectSpendResponse, AppError>)
        requires
            old(self).wf(),
        ensures
            final(self).wf(),
            Store::direct_step(*old(self), req, history_id, now, r, *final(self)),
    {
        if self.find_lock(req.lock_root_hash.as_str()).is_none() {
            return Err(AppError::NotFound(req.lock_root_hash));
        }
        if !self.is_participant(req.lock_root_hash.as_str(), req.sender_pkh.as_str()) {
            return Err(AppError::NotParticipant(req.sender_pkh));
        }
        if self.history_taken(history_id.as_str()) {
            return Err(AppError::Conflict(history_id));
        }
        let ghost old_s = *self;
        let mut signers: Vec<String> = Vec::new();
        signers.push(req.sender_pkh.clone());
        let entry = TransactionHistory {
            id: history_id.clone(),
            tx_id: req.tx_id,
            lock_root_hash: req.lock_root_hash,
            proposer_pkh: req.sender_pkh,
            status: TransactionStatus::Broadcast,
            total_input_nicks: req.total_input_nicks,
            seeds: req.seeds,
            signers,
            created_at: now.clone(),
            broadcast_at: Some(now),
            confirmed_at: None,
        };
        self.history.push(entry);
        proof {
            assert(self.history@.drop_last() =~= old_s.history@);
            assert forall|a: int, b: int| 0 <= a < b < self.history@.len() implies self.history@[a].id@
                != self.history@[b].id@ by {
                assert(self.history@[a] == old_s.history@[a]);
                if b < old_s.history@.len() {
                    assert(self.history@[b] == old_s.history@[b]);
                }
            }
            assert(entry.signers@.map_values(|s: String| s@) =~= seq![entry.proposer_pkh@]);
            Store::lemma_registry_kept(old_s, *self);
            assert forall|q: Seq<char>| #[trigger] self.signers(q).len() > 0 implies self.has_proposal(q) by {
                assert(old_s.signers(q).len() > 0);
            }
            assert forall|q: Seq<char>| #[trigger] self.signers(q).no_duplicates() by {
                assert(old_s.signers(q).no_duplicates());
            }
            assert forall|a: int, x: Seq<char>|
                0 <= a < self.proposals@.len() && #[trigger] self.signers(self.proposals@[a].id@).contains(x)
                implies self.is_member(self.proposals@[a].lock_root_hash@, x)
                    || x == self.proposals@[a].proposer_pkh@ by {
                assert(old_s.signers(old_s.proposals@[a].id@).contains(x));
                assert(self.members(self.proposals@[a].lock_root_hash@) == old_s.members(
                    old_s.proposals@[a].lock_root_hash@,
                ));
            }
        }
        Ok(DirectSpendResponse { success: true, history_id })
    }
    /// Moving proposal `id` to the terminal status `target` at time `now`
    /// took `pre` to `post` with result `r`. Confirmation is legal only from
    /// `Broadcast`; expiry from any status but the terminal ones.
    pub open spec fn finish_step(
        pre: Store,
        id: Seq<char>,
        target: ProposalStatus,
        now: String,
        r: Result<(), AppError>,
        post: Store,
    ) -> bool {
        let i = pre.index_of(id);
        let p = pre.proposals@[i];
        let legal = if target == ProposalStatus::Confirmed {
            p.status == ProposalStatus::Broadcast
        } else {
            p.status != ProposalStatus::Confirmed && p.status != ProposalStatus::Expired
        };
        &&& !pre.has_proposal(id) ==> post == pre && (r matches Err(AppError::NotFound(x)) && x@ == id)
        &&& pre.has_proposal(id) && !legal ==> post == pre && (r matches Err(AppError::InvalidState(x))
            && x@ == id)
        &&& pre.has_proposal(id) && legal ==> {
            &&& r is Ok
            &&& post.proposals@ == pre.proposals@.update(i, touched(p, target, now))
            &&& post.locks@ == pre.locks@
            &&& post.participants@ == pre.participants@
            &&& post.signatures@ == pre.signatures@
            &&& post.history@ == pre.history@
        }
    }

    fn finish_at(&mut self, id: &str, target: ProposalStatus, now: String) -> (r: Result<(), AppError>)
        requires
            old(self).wf(),
            target == ProposalStatus::Confirmed || target == ProposalStatus::Expired,
        ensures
            final(self).wf(),
            Store::finish_step(*old(self), id@, target, now, r, *final(self)),
    {
        let i = match self.find_proposal(id) {
            Some(i) => i,
            None => {
                return Err(AppError::NotFound(id.to_owned()));
            },
        };
        proof {
            self.lemma_index_of(id@, i as int);
        }
        let current = self.proposals[i].status;
        let legal = match target {
            ProposalStatus::Confirmed => current == ProposalStatus::Broadcast,
            _ => current != ProposalStatus::Confirmed && current != ProposalStatus::Expired,
        };
        if !legal {
            return Err(AppError::InvalidState(id.to_owned()));
        }
        let ghost old_s = *self;
        self.proposals[i].status = target;
        self.proposals[i].updated_at = now;
        proof {
            let n = self.proposals@.len();
            let p = old_s.proposals@[i as int];
            assert(self.proposals@ =~= old_s.proposals@.update(i as int, touched(p, target, now)));
            Store::lemma_registry_kept(old_s, *self);
            assert forall|a: int, b: int| 0 <= a < b < n implies self.proposals@[a].id@
                != self.proposals@[b].id@ && self.proposals@[a].tx_id@ != self.proposals@[b].tx_id@ by {
                assert(old_s.proposals@[a].id@ != old_s.proposals@[b].id@);
            }
            assert forall|a: int| 0 <= a < n implies self.has_lock(
                #[trigger] self.proposals@[a].lock_root_hash@,
            ) by {
                assert(old_s.has_lock(old_s.proposals@[a].lock_root_hash@));
            }
            assert forall|q: Seq<char>| #[trigger] self.signers(q).len() > 0 implies self.has_proposal(q) by {
                assert(old_s.signers(q).len() > 0);
                let a = choose|a: int| 0 <= a < n && #[trigger] old_s.proposals@[a].id@ == q;
                assert(self.proposals@[a].id@ == q);
            }
            assert forall|q: Seq<char>| #[trigger] self.signers(q).no_duplicates() by {
                assert(old_s.signers(q).no_duplicates());
            }
            assert forall|a: int, x: Seq<char>|
                0 <= a < n && #[trigger] self.signers(self.proposals@[a].id@).contains(x)
                implies self.is_member(self.proposals@[a].lock_root_hash@, x)
                    || x == self.proposals@[a].proposer_pkh@ by {
                assert(old_s.signers(old_s.proposals@[a].id@).contains(x));
                assert(self.members(self.proposals@[a].lock_root_hash@) == old_s.members(
                    old_s.proposals@[a].lock_root_hash@,
                ));
            }
            assert forall|a: int| 0 <= a < n && (#[trigger] self.proposals@[a]).status
                == ProposalStatus::Pending implies self.signers(self.proposals@[a].id@).len()
                < self.proposals@[a].threshold by {
                assert(old_s.proposals@[a] == self.proposals@[a]);
            }
        }
        Ok(())
    }

    /// Records that broadcast proposal `id` was confirmed, at time `now`.
    /// `NotFound` where it does not exist, `InvalidState` unless it is
    /// `Broadcast`.
    pub fn confirm_proposal_at(&mut self, id: &str, now: String) -> (r: Result<(), AppError>)
        requires
            old(self).wf(),
        ensures
            final(self).wf(),
            Store::finish_step(*old(self), id@, ProposalStatus::Confirmed, now, r, *final(self)),
    {
        self.finish_at(id, ProposalStatus::Confirmed, now)
    }

    /// Records that proposal `id` expired, at time `now`. `NotFound` where
    /// it does not exist, `InvalidState` where it is already `Confirmed` or
    /// `Expired`.
    pub fn expire_proposal_at(&mut self, id: &str, now: String) -> (r: Result<(), AppError>)
        requires
            old(self).wf(),
        ensures
            final(self).wf(),
            Store::finish_step(*old(self), id@, ProposalStatus::Expired, now, r, *final(self)),
    {
        self.finish_at(id, ProposalStatus::Expired, now)
    }

    /// Registers a wallet, stamped with the current time (see
    /// `create_multisig_at`).
    pub fn create_multisig(&mut self, req: CreateMultisigRequest) -> (r: Result<CreateMultisigResponse, AppError>)
        requires
            old(self).wf(),
        ensures
            final(self).wf(),
            exists|now: String| Store::register_step(*old(self), req, now, r, *final(self)),
    {
        let now = now_rfc3339();
        self.create_multisig_at(req, now)
    }

    /// Creates a proposal under a fresh random id at the current time (see
    /// `create_proposal_at`).
    pub fn create_proposal(&mut self, req: CreateProposalRequest) -> (r: Result<CreateProposalResponse, AppError>)
        requires
            old(self).wf(),
        ensures
            final(self).wf(),
            exists|id: String, now: String| Store::create_step(*old(self), req, id, now, r, *final(self)),
    {
        let id = new_id();
        let now = now_rfc3339();
        self.create_proposal_at(req, id, now)
    }

    /// Signs proposal `id` at the current time (see `sign_proposal_at`).
    pub fn sign_proposal(&mut self, id: &str, req: SignProposalRequest) -> (r: Result<SignProposalResponse, AppError>)
        requires
            old(self).wf(),
            old(self).signers(id@).len() < i32::MAX,
        ensures
            final(self).wf(),
            exists|now: String| Store::sign_step(*old(self), id@, req, now, r, *final(self)),
    {
        let now = now_rfc3339();
        self.sign_proposal_at(id, req, now)
    }

    /// Marks proposal `id` as broadcast under a fresh random history id at
    /// the current time (see `mark_broadcast_at`).
    pub fn mark_broadcast(&mut self, id: &str, req: BroadcastProposalRequest) -> (r: Result<
        BroadcastProposalResponse,
        AppError,
    >)
        requires
            old(self).wf(),
        ensures
            final(self).wf(),
            exists|history_id: String, now: String|
                Store::broadcast_step(*old(self), id@, req, history_id, now, r, *final(self)),
    {
        let history_id = new_id();
        let now = now_rfc3339();
        self.mark_broadcast_at(id, req, history_id, now)
    }

    /// Records a direct spend under a fresh random history id at the current
    /// time (see `direct_spend_at`).
    pub fn direct_spend(&mut self, req: DirectSpendRequest) -> (r: Result<DirectSpendResponse, AppError>)
        requires
            old(self).wf(),
        ensures
            final(self).wf(),
            exists|history_id: String, now: String|
                Store::direct_step(*old(self), req, history_id, now, r, *final(self)),
    {
        let history_id = new_id();
        let now = now_rfc3339();
        self.direct_spend_at(req, history_id, now)
    }
}

} // verus!

//! Read-only views of the coordinator's state.

use vstd::prelude::*;
use crate::api::{
    ListMultisigsQuery, ListProposalsQuery, MultisigResponse, ProposalDetailResponse, ProposalResponse,
    SignatureEntry, TransactionHistoryResponse,
};
use crate::error::AppError;
use crate::models::{
    copy_seeds, copy_strings, copy_text, lemma_status_named, status_name, status_named, tx_status_name,
    Lock, Proposal, ProposalSignature, ProposalStatus, TransactionHistory,
};
use crate::order::{
    lemma_stamp_before_irreflexive, lemma_stamp_before_transitive, lemma_text_before_irreflexive,
    lemma_text_before_transitive, stamp_before, stamp_before_exec, text_before, text_before_exec,
};
use crate::store::{lemma_members_push, members_of, Store};

verus! {

/// The elements of `s` that `keep` accepts, the last first.
pub open spec fn newest_first<T>(s: Seq<T>, keep: spec_fn(T) -> bool) -> Seq<T>
    decreases s.len(),
{
    if s.len() == 0 {
        Seq::empty()
    } else {
        let rest = newest_first(s.drop_first(), keep);
        if keep(s[0]) {
            rest.push(s[0])
        } else {
            rest
        }
    }
}

/// Taking in one more element from the front of a suffix.
pub proof fn lemma_newest_first_step<T>(s: Seq<T>, i: int, keep: spec_fn(T) -> bool)
    requires
        0 < i <= s.len(),
    ensures
        newest_first(s.subrange(i - 1, s.len() as int), keep) == if keep(s[i - 1]) {
            newest_first(s.subrange(i, s.len() as int), keep).push(s[i - 1])
        } else {
            newest_first(s.subrange(i, s.len() as int), keep)
        },
{
    assert(s.subrange(i - 1, s.len() as int).drop_first() =~= s.subrange(i, s.len() as int));
}

/// The text view of an optional string.
pub open spec fn opt_text(o: Option<String>) -> Option<Seq<char>> {
    match o {
        Some(s) => Some(s@),
        None => None,
    }
}

impl Store {
    /// The participants of wallet `h`, in the order they were stored.
    pub fn members_list(&self, h: &str) -> (r: Vec<String>)
        ensures
            r@.map_values(|s: String| s@) == self.members(h@),
    {
        let mut r: Vec<String> = Vec::new();
        let mut i: usize = 0;
        while i < self.participants.len()
            invariant
                i <= self.participants@.len(),
                r@.map_values(|s: String| s@) == members_of(self.participants@.take(i as int), h@),
            decreases self.participants@.len() - i,
        {
            proof {
                assert(self.participants@.take(i as int + 1) =~= self.participants@.take(i as int).push(
                    self.participants@[i as int],
                ));
                lemma_members_push(self.participants@.take(i as int), self.participants@[i as int], h@);
            }
            if crate::models::same_text(self.participants[i].lock_root_hash.as_str(), h) {
                r.push(self.participants[i].pkh.clone());
            }
            i = i + 1;
            assert(r@.map_values(|s: String| s@) =~= members_of(self.participants@.take(i as int), h@));
        }
        assert(self.participants@.take(self.participants@.len() as int) =~= self.participants@);
        r
    }

    /// Whether wallet `l` is listed for the optional participant `pkh`.
    pub open spec fn wallet_listed(self, l: Lock, pkh: Option<Seq<char>>) -> bool {
        match pkh {
            Some(p) => self.is_member(l.lock_root_hash@, p),
            None => true,
        }
    }

    /// `r` shows wallet `l` with its participants.
    pub open spec fn shows_wallet(self, l: Lock, r: MultisigResponse) -> bool {
        &&& r.lock_root_hash == l.lock_root_hash
        &&& r.threshold == l.threshold
        &&& r.total_signers == l.total_signers
        &&& r.created_at == l.created_at
        &&& r.created_by_pkh == l.created_by_pkh
        &&& r.participants@.map_values(|s: String| s@) == self.members(l.lock_root_hash@)
    }

    /// The wallets in registration order, only those where `q.pkh` is a
    /// participant when it is given, each with its participants.
    pub fn list_multisigs(&self, q: &ListMultisigsQuery) -> (r: Vec<MultisigResponse>)
        ensures
            ({
                let sel = self.locks@.filter(|l: Lock| self.wallet_listed(l, opt_text(q.pkh)));
                &&& r@.len() == sel.len()
                &&& forall|k: int| 0 <= k < sel.len() ==> self.shows_wallet(sel[k], #[trigger] r@[k])
            }),
    {
        let ghost keep = |l: Lock| self.wallet_listed(l, opt_text(q.pkh));
        let mut r: Vec<MultisigResponse> = Vec::new();
        let mut i: usize = 0;
        while i < self.locks.len()
            invariant
                i <= self.locks@.len(),
                keep == (|l: Lock| self.wallet_listed(l, opt_text(q.pkh))),
                r@.len() == self.locks@.take(i as int).filter(keep).len(),
                forall|k: int|
                    0 <= k < r@.len() ==> self.shows_wallet(
                        self.locks@.take(i as int).filter(keep)[k],
                        #[trigger] r@[k],
                    ),
            decreases self.locks@.len() - i,
        {
            let l = &self.locks[i];
            let listed = match &q.pkh {
                Some(p) => self.is_participant(l.lock_root_hash.as_str(), p.as_str()),
                None => true,
            };
            proof {
                let t = self.locks@.take(i as int + 1);
                assert(t.drop_last() =~= self.locks@.take(i as int));
                reveal(Seq::filter);
                assert(t.filter(keep) == if keep(t.last()) {
                    t.drop_last().filter(keep).push(t.last())
                } else {
                    t.drop_last().filter(keep)
                });
            }
            if listed {
                let resp = MultisigResponse {
                    lock_root_hash: l.lock_root_hash.clone(),
                    threshold: l.threshold,
                    total_signers: l.total_signers,
                    created_at: l.created_at.clone(),
                    created_by_pkh: l.created_by_pkh.clone(),
                    participants: self.members_list(l.lock_root_hash.as_str()),
                };
                r.push(resp);
            }
            i = i + 1;
        }
        assert(self.locks@.take(self.locks@.len() as int) =~= self.locks@);
        r
    }
    /// `r` summarizes proposal `p` and the signers it has.
    pub open spec fn shows_proposal(self, p: Proposal, r: ProposalResponse) -> bool {
        &&& r.id == p.id
        &&& r.tx_id == p.tx_id
        &&& r.lock_root_hash == p.lock_root_hash
        &&& r.proposer_pkh == p.proposer_pkh
        &&& r.status@ == status_name(p.status)
        &&& r.threshold == p.threshold
        &&& r.signatures_collected == self.signers(p.id@).len()
        &&& r.total_input_nicks == p.total_input_nicks
        &&& r.seeds@ == p.seeds@
        &&& r.signers@.map_values(|s: String| s@) == self.signers(p.id@)
        &&& r.created_at == p.created_at
        &&& r.updated_at == p.updated_at
    }

    /// The summary of the proposal at position `i`.
    pub fn proposal_response(&self, i: usize) -> (r: ProposalResponse)
        requires
            i < self.proposals@.len(),
            self.signers(self.proposals@[i as int].id@).len() <= i32::MAX,
        ensures
            self.shows_proposal(self.proposals@[i as int], r),
    {
        let p = &self.proposals[i];
        let signers = self.signer_list(p.id.as_str());
        proof {
            self.lemma_signers_le_len(p.id@);
            assert(signers@.len() == signers@.map_values(|s: String| s@).len());
        }
        ProposalResponse {
            id: p.id.clone(),
            tx_id: p.tx_id.clone(),
            lock_root_hash: p.lock_root_hash.clone(),
            proposer_pkh: p.proposer_pkh.clone(),
            status: p.status.as_str().to_owned(),
            threshold: p.threshold,
            signatures_collected: signers.len() as i32,
            total_input_nicks: p.total_input_nicks,
            seeds: copy_seeds(&p.seeds),
            signers,
            created_at: p.created_at.clone(),
            updated_at: p.updated_at.clone(),
        }
    }

    /// Whether proposal `p` is listed for query `q` and status filter `st`:
    /// by participant when `q.pkh` is given, else by wallet when
    /// `q.lock_root_hash` is given, and then by status.
    pub open spec fn proposal_listed(
        self,
        p: Proposal,
        q: ListProposalsQuery,
        st: Option<ProposalStatus>,
    ) -> bool {
        &&& match opt_text(q.pkh) {
            Some(pk) => self.is_member(p.lock_root_hash@, pk),
            None => match opt_text(q.lock_root_hash) {
                Some(h) => p.lock_root_hash@ == h,
                None => true,
            },
        }
        &&& match st {
            Some(s) => p.status == s,
            None => true,
        }
    }

    /// The stored proposal that summary `x` stands for.
    pub open spec fn listed_proposal(self, x: ProposalResponse) -> Proposal {
        self.proposals@[self.index_of(x.id@)]
    }

    /// Positions of the proposals that `keep` accepts, newest first.
    fn selected_positions(&self, q: &ListProposalsQuery, st: Option<ProposalStatus>) -> (ix: Vec<usize>)
        ensures
            forall|k: int| 0 <= k < ix@.len() ==> (#[trigger] ix@[k]) < self.proposals@.len(),
            ix@.map_values(|j: usize| self.proposals@[j as int]) == newest_first(
                self.proposals@,
                |p: Proposal| self.proposal_listed(p, *q, st),
            ),
    {
        let ghost keep = |p: Proposal| self.proposal_listed(p, *q, st);
        let ghost pf = |j: usize| self.proposals@[j as int];
        let n = self.proposals.len();
        let mut ix: Vec<usize> = Vec::new();
        let mut i: usize = n;
        proof {
            assert(self.proposals@.subrange(n as int, n as int) =~= Seq::<Proposal>::empty());
            assert(ix@.map_values(pf) =~= Seq::<Proposal>::empty());
        }
        while i > 0
            invariant
                i <= n,
                n == self.proposals@.len(),
                keep == (|p: Proposal| self.proposal_listed(p, *q, st)),
                pf == (|j: usize| self.proposals@[j as int]),
                forall|k: int| 0 <= k < ix@.len() ==> (#[trigger] ix@[k]) < n,
                ix@.map_values(pf) == newest_first(self.proposals@.subrange(i as int, n as int), keep),
            decreases i,
        {
            proof {
                lemma_newest_first_step(self.proposals@, i as int, keep);
            }
            let p = &self.proposals[i - 1];
            let by_owner = match &q.pkh {
                Some(pk) => self.is_participant(p.lock_root_hash.as_str(), pk.as_str()),
                None => match &q.lock_root_hash {
                    Some(h) => crate::models::same_text(p.lock_root_hash.as_str(), h.as_str()),
                    None => true,
                },
            };
            let by_status = match st {
                Some(s) => p.status == s,
                None => true,
            };
            let ghost before = ix@;
            if by_owner && by_status {
                ix.push(i - 1);
                assert(ix@.map_values(pf) =~= before.map_values(pf).push(pf((i - 1) as usize)));
            }
            i = i - 1;
        }
        assert(self.proposals@.subrange(0, n as int) =~= self.proposals@);
        ix
    }

    /// `ix` reordered by the creation time of the proposals it points to,
    /// latest first; equal times keep their order.
    fn by_creation_desc(&self, ix: Vec<usize>) -> (r: Vec<usize>)
        requires
            forall|k: int| 0 <= k < ix@.len() ==> (#[trigger] ix@[k]) < self.proposals@.len(),
        ensures
            forall|k: int| 0 <= k < r@.len() ==> (#[trigger] r@[k]) < self.proposals@.len(),
            r@.map_values(|j: usize| self.proposals@[j as int]).to_multiset() == ix@.map_values(
                |j: usize| self.proposals@[j as int],
            ).to_multiset(),
            forall|a: int, b: int|
                0 <= a < b < r@.len() ==> !text_before(
                    self.proposals@[r@[a] as int].created_at@,
                    self.proposals@[r@[b] as int].created_at@,
                ),
    {
        let ghost pf = |j: usize| self.proposals@[j as int];
        let n = self.proposals.len();
        let mut r: Vec<usize> = Vec::new();
        let mut k: usize = 0;
        proof {
            assert(ix@.take(0).map_values(pf) =~= Seq::<Proposal>::empty());
            assert(r@.map_values(pf) =~= Seq::<Proposal>::empty());
        }
        while k < ix.len()
            invariant
                k <= ix@.len(),
                n == self.proposals@.len(),
                pf == (|j: usize| self.proposals@[j as int]),
                forall|t: int| 0 <= t < ix@.len() ==> (#[trigger] ix@[t]) < n,
                forall|t: int| 0 <= t < r@.len() ==> (#[trigger] r@[t]) < n,
                r@.map_values(pf).to_multiset() == ix@.take(k as int).map_values(pf).to_multiset(),
                forall|a: int, b: int|
                    0 <= a < b < r@.len() ==> !text_before(
                        self.proposals@[r@[a] as int].created_at@,
                        self.proposals@[r@[b] as int].created_at@,
                    ),
            decreases ix@.len() - k,
        {
            let x = ix[k];
            let key = self.proposals[x].created_at.as_str();
            let mut j: usize = 0;
            while j < r.len() && !text_before_exec(self.proposals[r[j]].created_at.as_str(), key)
                invariant
                    j <= r@.len(),
                    x < n,
                    n == self.proposals@.len(),
                    key@ == self.proposals@[x as int].created_at@,
                    forall|t: int| 0 <= t < r@.len() ==> (#[trigger] r@[t]) < n,
                    forall|a: int|
                        0 <= a < j ==> !text_before(
                            self.proposals@[#[trigger] r@[a] as int].created_at@,
                            key@,
                        ),
                decreases r@.len() - j,
            {
                j = j + 1;
            }
            let ghost old_r = r@;
            r.insert(j, x);
            proof {
                let c = |t: usize| self.proposals@[t as int].created_at@;
                assert(r@ == old_r.insert(j as int, x));
                assert(r@.map_values(pf) =~= old_r.map_values(pf).insert(j as int, pf(x)));
                vstd::seq_lib::to_multiset_insert(old_r.map_values(pf), j as int, pf(x));
                assert(ix@.take(k as int + 1).map_values(pf) =~= ix@.take(k as int).map_values(pf).push(pf(x)));
                vstd::seq_lib::to_multiset_build(ix@.take(k as int).map_values(pf), pf(x));
                assert forall|t: int| 0 <= t < r@.len() implies (#[trigger] r@[t]) < n by {
                    if t < j {
                        assert(r@[t] == old_r[t]);
                    } else if t > j {
                        assert(r@[t] == old_r[t - 1]);
                    }
                }
                assert forall|a: int, b: int| 0 <= a < b < r@.len() implies !text_before(
                    self.proposals@[r@[a] as int].created_at@,
                    self.proposals@[r@[b] as int].created_at@,
                ) by {
                    let ka = self.proposals@[r@[a] as int].created_at@;
                    let kb = self.proposals@[r@[b] as int].created_at@;
                    if b < j {
                        assert(r@[a] == old_r[a] && r@[b] == old_r[b]);
                    } else if b == j {
                        assert(r@[a] == old_r[a]);
                    } else if a > j {
                        assert(r@[a] == old_r[a - 1] && r@[b] == old_r[b - 1]);
                    } else if a == j {
                        assert(r@[b] == old_r[b - 1]);
                        let kj = self.proposals@[old_r[j as int] as int].created_at@;
                        assert(text_before(kj, key@));
                        if text_before(key@, kb) {
                            if b - 1 > j {
                                lemma_text_before_transitive(kj, key@, kb);
                            } else {
                                lemma_text_before_transitive(kj, key@, kj);
                                lemma_text_before_irreflexive(kj);
                            }
                        }
                    } else {
                        assert(r@[a] == old_r[a] && r@[b] == old_r[b - 1]);
                    }
                }
            }
            k = k + 1;
        }
        assert(ix@.take(ix@.len() as int) =~= ix@);
        r
    }

    /// The proposals that query `q` selects, latest created first (equal
    /// times: the later stored first), each with its signers. An unknown
    /// status name in `q.status` is `InvalidInput`.
    pub fn list_proposals(&self, q: &ListProposalsQuery) -> (r: Result<Vec<ProposalResponse>, AppError>)
        requires
            self.wf(),
            forall|i: int|
                0 <= i < self.proposals@.len() ==> self.signers(#[trigger] self.proposals@[i].id@).len()
                    <= i32::MAX,
        ensures
            ({
                let st = match q.status {
                    Some(t) => status_named(t@),
                    None => None,
                };
                let sel = newest_first(self.proposals@, |p: Proposal| self.proposal_listed(p, *q, st));
                match r {
                    Err(e) => q.status is Some && st is None && e == AppError::InvalidInput(
                        e.subject_spec(),
                    ) && e.subject_spec()@ == q.status->Some_0@,
                    Ok(v) => {
                        &&& q.status is None || st is Some
                        &&& v@.map_values(|x: ProposalResponse| self.listed_proposal(x)).to_multiset()
                            == sel.to_multiset()
                        &&& forall|k: int|
                            0 <= k < v@.len() ==> self.shows_proposal(
                                self.listed_proposal(#[trigger] v@[k]),
                                v@[k],
                            )
                        &&& forall|a: int, b: int|
                            0 <= a < b < v@.len() ==> !text_before(v@[a].created_at@, v@[b].created_at@)
                    },
                }
            }),
    {
        let st: Option<ProposalStatus> = match &q.status {
            Some(t) => match ProposalStatus::parse(t.as_str()) {
                Ok(s) => {
                    proof {
                        lemma_status_named(s);
                    }
                    Some(s)
                },
                Err(e) => {
                    return Err(e);
                },
            },
            None => None,
        };
        let ix = self.selected_positions(q, st);
        let order = self.by_creation_desc(ix);
        let ghost pf = |j: usize| self.proposals@[j as int];
        let ghost lf = |x: ProposalResponse| self.listed_proposal(x);
        let mut v: Vec<ProposalResponse> = Vec::new();
        let mut j: usize = 0;
        while j < order.len()
            invariant
                j <= order@.len(),
                self.wf(),
                pf == (|t: usize| self.proposals@[t as int]),
                lf == (|x: ProposalResponse| self.listed_proposal(x)),
                forall|t: int| 0 <= t < order@.len() ==> (#[trigger] order@[t]) < self.proposals@.len(),
                forall|i: int|
                    0 <= i < self.proposals@.len() ==> self.signers(#[trigger] self.proposals@[i].id@).len()
                        <= i32::MAX,
                v@.len() == j,
                forall|t: int|
                    0 <= t < j ==> self.shows_proposal(self.proposals@[order@[t] as int], #[trigger] v@[t])
                        && self.listed_proposal(v@[t]) == self.proposals@[order@[t] as int],
            decreases order@.len() - j,
        {
            let x = order[j];
            let resp = self.proposal_response(x);
            proof {
                self.lemma_index_of(resp.id@, x as int);
            }
            v.push(resp);
            j = j + 1;
        }
        proof {
            assert(v@.map_values(lf) =~= order@.map_values(pf));
        }
        Ok(v)
    }

    /// The ledger rows of proposal `pid`, in ledger order.
    pub open spec fn ledger_rows(self, pid: Seq<char>) -> Seq<ProposalSignature> {
        self.signatures@.filter(|x: ProposalSignature| x.proposal_id@ == pid)
    }

    /// `d` shows proposal `p` in full: its signers, each of its signature
    /// rows in ledger order, and its wallet's participants.
    pub open spec fn shows_detail(self, p: Proposal, d: ProposalDetailResponse) -> bool {
        let rows = self.ledger_rows(p.id@);
        &&& d.id == p.id
        &&& d.tx_id == p.tx_id
        &&& d.lock_root_hash == p.lock_root_hash
        &&& d.proposer_pkh == p.proposer_pkh
        &&& d.status@ == status_name(p.status)
        &&& d.threshold == p.threshold
        &&& d.signatures_collected == self.signers(p.id@).len()
        &&& d.raw_tx_json == p.raw_tx_json
        &&& d.notes_json == p.notes_json
        &&& d.spend_conditions_json == p.spend_conditions_json
        &&& d.total_input_nicks == p.total_input_nicks
        &&& d.seeds@ == p.seeds@
        &&& d.signers@.map_values(|s: String| s@) == self.signers(p.id@)
        &&& d.signatures@.len() == rows.len()
        &&& forall|k: int|
            0 <= k < rows.len() ==> (#[trigger] d.signatures@[k]).signer_pkh == rows[k].signer_pkh
                && d.signatures@[k].signed_tx_json == rows[k].signed_tx_json && d.signatures@[k].signed_at
                == rows[k].signed_at
        &&& d.participants@.map_values(|s: String| s@) == self.members(p.lock_root_hash@)
        &&& d.created_at == p.created_at
        &&& d.updated_at == p.updated_at
    }

    /// The signature rows of proposal `pid`, in ledger order.
    pub fn signature_entries(&self, pid: &str) -> (r: Vec<SignatureEntry>)
        ensures
            ({
                let rows = self.ledger_rows(pid@);
                &&& r@.len() == rows.len()
                &&& forall|k: int|
                    0 <= k < rows.len() ==> (#[trigger] r@[k]).signer_pkh == rows[k].signer_pkh
                        && r@[k].signed_tx_json == rows[k].signed_tx_json && r@[k].signed_at
                        == rows[k].signed_at
            }),
    {
        let ghost keep = |x: ProposalSignature| x.proposal_id@ == pid@;
        let mut r: Vec<SignatureEntry> = Vec::new();
        let mut i: usize = 0;
        while i < self.signatures.len()
            invariant
                i <= self.signatures@.len(),
                keep == (|x: ProposalSignature| x.proposal_id@ == pid@),
                r@.len() == self.signatures@.take(i as int).filter(keep).len(),
                forall|k: int|
                    0 <= k < r@.len() ==> (#[trigger] r@[k]).signer_pkh
                        == self.signatures@.take(i as int).filter(keep)[k].signer_pkh && r@[k].signed_tx_json
                        == self.signatures@.take(i as int).filter(keep)[k].signed_tx_json
                        && r@[k].signed_at == self.signatures@.take(i as int).filter(keep)[k].signed_at,
            decreases self.signatures@.len() - i,
        {
            let x = &self.signatures[i];
            proof {
                let t = self.signatures@.take(i as int + 1);
                assert(t.drop_last() =~= self.signatures@.take(i as int));
                reveal(Seq::filter);
                assert(t.filter(keep) == if keep(t.last()) {
                    t.drop_last().filter(keep).push(t.last())
                } else {
                    t.drop_last().filter(keep)
                });
            }
            if crate::models::same_text(x.proposal_id.as_str(), pid) {
                r.push(
                    SignatureEntry {
                        signer_pkh: x.signer_pkh.clone(),
                        signed_tx_json: x.signed_tx_json.clone(),
                        signed_at: x.signed_at.clone(),
                    },
                );
            }
            i = i + 1;
        }
        assert(self.signatures@.take(self.signatures@.len() as int) =~= self.signatures@);
        r
    }

    /// Proposal `id` in full; `NotFound` where it does not exist.
    pub fn get_proposal(&self, id: &str) -> (r: Result<ProposalDetailResponse, AppError>)
        requires
            self.wf(),
            self.signers(id@).len() <= i32::MAX,
        ensures
            !self.has_proposal(id@) ==> (r matches Err(AppError::NotFound(x)) && x@ == id@),
            self.has_proposal(id@) ==> (r matches Ok(d) && self.shows_detail(
                self.proposals@[self.index_of(id@)],
                d,
            )),
    {
        let i = match self.find_proposal(id) {
            Some(i) => i,
            None => {
                return Err(AppError::NotFound(id.to_owned()));
            },
        };
        proof {
            self.lemma_index_of(id@, i as int);
        }
        let p = &self.proposals[i];
        let signers = self.signer_list(p.id.as_str());
        proof {
            self.lemma_signers_le_len(p.id@);
            assert(signers@.len() == signers@.map_values(|s: String| s@).len());
        }
        Ok(
            ProposalDetailResponse {
                id: p.id.clone(),
                tx_id: p.tx_id.clone(),
                lock_root_hash: p.lock_root_hash.clone(),
                proposer_pkh: p.proposer_pkh.clone(),
                status: p.status.as_str().to_owned(),
                threshold: p.threshold,
                signatures_collected: signers.len() as i32,
                raw_tx_json: p.raw_tx_json.clone(),
                notes_json: p.notes_json.clone(),
                spend_conditions_json: p.spend_conditions_json.clone(),
                total_input_nicks: p.total_input_nicks,
                seeds: copy_seeds(&p.seeds),
                signers,
                signatures: self.signature_entries(p.id.as_str()),
                participants: self.members_list(p.lock_root_hash.as_str()),
                created_at: p.created_at.clone(),
                updated_at: p.updated_at.clone(),
            },
        )
    }
    /// Whether history entry `e` is listed for query `q`: by participant when
    /// `q.pkh` is given, else by wallet when `q.lock_root_hash` is given.
    pub open spec fn entry_listed(self, e: TransactionHistory, q: ListProposalsQuery) -> bool {
        match opt_text(q.pkh) {
            Some(pk) => self.is_member(e.lock_root_hash@, pk),
            None => match opt_text(q.lock_root_hash) {
                Some(h) => e.lock_root_hash@ == h,
                None => true,
            },
        }
    }

    /// `r` shows history entry `e`.
    pub open spec fn shows_entry(e: TransactionHistory, r: TransactionHistoryResponse) -> bool {
        &&& r.id == e.id
        &&& r.tx_id == e.tx_id
        &&& r.lock_root_hash == e.lock_root_hash
        &&& r.proposer_pkh == e.proposer_pkh
        &&& r.status@ == tx_status_name(e.status)
        &&& r.total_input_nicks == e.total_input_nicks
        &&& r.seeds@ == e.seeds@
        &&& r.signers@ == e.signers@
        &&& r.created_at == e.created_at
        &&& r.broadcast_at == e.broadcast_at
        &&& r.confirmed_at == e.confirmed_at
    }

    /// The position of history entry `id` (meaningful where it exists).
    pub open spec fn history_index_of(self, id: Seq<char>) -> int {
        choose|i: int| 0 <= i < self.history@.len() && #[trigger] self.history@[i].id@ == id
    }

    /// History ids pick out one position.
    pub proof fn lemma_history_index_of(self, id: Seq<char>, i: int)
        requires
            self.wf(),
            0 <= i < self.history@.len(),
            self.history@[i].id@ == id,
        ensures
            self.history_index_of(id) == i,
    {
        let j = self.history_index_of(id);
        assert(0 <= j < self.history@.len() && self.history@[j].id@ == id);
        if i < j {
            assert(self.history@[i].id@ != self.history@[j].id@);
        } else if j < i {
            assert(self.history@[j].id@ != self.history@[i].id@);
        }
    }

    /// The stored history entry that `x` stands for.
    pub open spec fn listed_entry(self, x: TransactionHistoryResponse) -> TransactionHistory {
        self.history@[self.history_index_of(x.id@)]
    }

    /// Positions of the history entries that query `q` selects, newest first.
    fn selected_entries(&self, q: &ListProposalsQuery) -> (ix: Vec<usize>)
        ensures
            forall|k: int| 0 <= k < ix@.len() ==> (#[trigger] ix@[k]) < self.history@.len(),
            ix@.map_values(|j: usize| self.history@[j as int]) == newest_first(
                self.history@,
                |e: TransactionHistory| self.entry_listed(e, *q),
            ),
    {
        let ghost keep = |e: TransactionHistory| self.entry_listed(e, *q);
        let ghost pf = |j: usize| self.history@[j as int];
        let n = self.history.len();
        let mut ix: Vec<usize> = Vec::new();
        let mut i: usize = n;
        proof {
            assert(self.history@.subrange(n as int, n as int) =~= Seq::<TransactionHistory>::empty());
            assert(ix@.map_values(pf) =~= Seq::<TransactionHistory>::empty());
        }
        while i > 0
            invariant
                i <= n,
                n == self.history@.len(),
                keep == (|e: TransactionHistory| self.entry_listed(e, *q)),
                pf == (|j: usize| self.history@[j as int]),
                forall|k: int| 0 <= k < ix@.len() ==> (#[trigger] ix@[k]) < n,
                ix@.map_values(pf) == newest_first(self.history@.subrange(i as int, n as int), keep),
            decreases i,
        {
            proof {
                lemma_newest_first_step(self.history@, i as int, keep);
            }
            let e = &self.history[i - 1];
            let listed = match &q.pkh {
                Some(pk) => self.is_participant(e.lock_root_hash.as_str(), pk.as_str()),
                None => match &q.lock_root_hash {
                    Some(h) => crate::models::same_text(e.lock_root_hash.as_str(), h.as_str()),
                    None => true,
                },
            };
            let ghost before = ix@;
            if listed {
                ix.push(i - 1);
                assert(ix@.map_values(pf) =~= before.map_values(pf).push(pf((i - 1) as usize)));
            }
            i = i - 1;
        }
        assert(self.history@.subrange(0, n as int) =~= self.history@);
        ix
    }

    /// `ix` reordered by the broadcast time of the entries it points to,
    /// latest first; equal times keep their order.
    fn by_broadcast_desc(&self, ix: Vec<usize>) -> (r: Vec<usize>)
        requires
            forall|k: int| 0 <= k < ix@.len() ==> (#[trigger] ix@[k]) < self.history@.len(),
        ensures
            forall|k: int| 0 <= k < r@.len() ==> (#[trigger] r@[k]) < self.history@.len(),
            r@.map_values(|j: usize| self.history@[j as int]).to_multiset() == ix@.map_values(
                |j: usize| self.history@[j as int],
            ).to_multiset(),
            forall|a: int, b: int|
                0 <= a < b < r@.len() ==> !stamp_before(
                    self.history@[r@[a] as int].broadcast_at,
                    self.history@[r@[b] as int].broadcast_at,
                ),
    {
        let ghost pf = |j: usize| self.history@[j as int];
        let n = self.history.len();
        let mut r: Vec<usize> = Vec::new();
        let mut k: usize = 0;
        proof {
            assert(ix@.take(0).map_values(pf) =~= Seq::<TransactionHistory>::empty());
            assert(r@.map_values(pf) =~= Seq::<TransactionHistory>::empty());
        }
        while k < ix.len()
            invariant
                k <= ix@.len(),
                n == self.history@.len(),
                pf == (|j: usize| self.history@[j as int]),
                forall|t: int| 0 <= t < ix@.len() ==> (#[trigger] ix@[t]) < n,
                forall|t: int| 0 <= t < r@.len() ==> (#[trigger] r@[t]) < n,
                r@.map_values(pf).to_multiset() == ix@.take(k as int).map_values(pf).to_multiset(),
                forall|a: int, b: int|
                    0 <= a < b < r@.len() ==> !stamp_before(
                        self.history@[r@[a] as int].broadcast_at,
                        self.history@[r@[b] as int].broadcast_at,
                    ),
            decreases ix@.len() - k,
        {
            let x = ix[k];
            let key = &self.history[x].broadcast_at;
            let mut j: usize = 0;
            while j < r.len() && !stamp_before_exec(&self.history[r[j]].broadcast_at, key)
                invariant
                    j <= r@.len(),
                    x < n,
                    n == self.history@.len(),
                    *key == self.history@[x as int].broadcast_at,
                    forall|t: int| 0 <= t < r@.len() ==> (#[trigger] r@[t]) < n,
                    forall|a: int|
                        0 <= a < j ==> !stamp_before(self.history@[#[trigger] r@[a] as int].broadcast_at, *key),
                decreases r@.len() - j,
            {
                j = j + 1;
            }
            let ghost old_r = r@;
            r.insert(j, x);
            proof {
                assert(r@ == old_r.insert(j as int, x));
                assert(r@.map_values(pf) =~= old_r.map_values(pf).insert(j as int, pf(x)));
                vstd::seq_lib::to_multiset_insert(old_r.map_values(pf), j as int, pf(x));
                assert(ix@.take(k as int + 1).map_values(pf) =~= ix@.take(k as int).map_values(pf).push(pf(x)));
                vstd::seq_lib::to_multiset_build(ix@.take(k as int).map_values(pf), pf(x));
                assert forall|t: int| 0 <= t < r@.len() implies (#[trigger] r@[t]) < n by {
                    if t < j {
                        assert(r@[t] == old_r[t]);
                    } else if t > j {
                        assert(r@[t] == old_r[t - 1]);
                    }
                }
                assert forall|a: int, b: int| 0 <= a < b < r@.len() implies !stamp_before(
                    self.history@[r@[a] as int].broadcast_at,
                    self.history@[r@[b] as int].broadcast_at,
                ) by {
                    let kb = self.history@[r@[b] as int].broadcast_at;
                    if b < j {
                        assert(r@[a] == old_r[a] && r@[b] == old_r[b]);
                    } else if b == j {
                        assert(r@[a] == old_r[a]);
                    } else if a > j {
                        assert(r@[a] == old_r[a - 1] && r@[b] == old_r[b - 1]);
                    } else if a == j {
                        assert(r@[b] == old_r[b - 1]);
                        let kj = self.history@[old_r[j as int] as int].broadcast_at;
                        assert(stamp_before(kj, *key));
                        if stamp_before(*key, kb) {
                            lemma_stamp_before_transitive(kj, *key, kb);
                            if b - 1 == j {
                                lemma_stamp_before_irreflexive(kj);
                            }
                        }
                    } else {
                        assert(r@[a] == old_r[a] && r@[b] == old_r[b - 1]);
                    }
                }
            }
            k = k + 1;
        }
        assert(ix@.take(ix@.len() as int) =~= ix@);
        r
    }

    /// The finalized spends that query `q` selects, latest broadcast first
    /// (equal times: the later stored first; no broadcast time: last).
    pub fn get_history(&self, q: &ListProposalsQuery) -> (r: Vec<TransactionHistoryResponse>)
        requires
            self.wf(),
        ensures
            ({
                let sel = newest_first(self.history@, |e: TransactionHistory| self.entry_listed(e, *q));
                &&& r@.map_values(|x: TransactionHistoryResponse| self.listed_entry(x)).to_multiset()
                    == sel.to_multiset()
                &&& forall|k: int|
                    0 <= k < r@.len() ==> Store::shows_entry(self.listed_entry(#[trigger] r@[k]), r@[k])
                &&& forall|a: int, b: int|
                    0 <= a < b < r@.len() ==> !stamp_before(r@[a].broadcast_at, r@[b].broadcast_at)
            }),
    {
        let ix = self.selected_entries(q);
        let order = self.by_broadcast_desc(ix);
        let ghost pf = |j: usize| self.history@[j as int];
        let ghost lf = |x: TransactionHistoryResponse| self.listed_entry(x);
        let mut v: Vec<TransactionHistoryResponse> = Vec::new();
        let mut j: usize = 0;
        while j < order.len()
            invariant
                j <= order@.len(),
                self.wf(),
                pf == (|t: usize| self.history@[t as int]),
                lf == (|x: TransactionHistoryResponse| self.listed_entry(x)),
                forall|t: int| 0 <= t < order@.len() ==> (#[trigger] order@[t]) < self.history@.len(),
                v@.len() == j,
                forall|t: int|
                    0 <= t < j ==> Store::shows_entry(self.history@[order@[t] as int], #[trigger] v@[t])
                        && self.listed_entry(v@[t]) == self.history@[order@[t] as int],
            decreases order@.len() - j,
        {
            let e = &self.history[order[j]];
            let resp = TransactionHistoryResponse {
                id: e.id.clone(),
                tx_id: e.tx_id.clone(),
                lock_root_hash: e.lock_root_hash.clone(),
                proposer_pkh: e.proposer_pkh.clone(),
                status: e.status.as_str().to_owned(),
                total_input_nicks: e.total_input_nicks,
                seeds: copy_seeds(&e.seeds),
                signers: copy_strings(&e.signers),
                created_at: e.created_at.clone(),
                broadcast_at: copy_text(&e.broadcast_at),
                confirmed_at: copy_text(&e.confirmed_at),
            };
            proof {
                self.lemma_history_index_of(resp.id@, order@[j as int] as int);
            }
            v.push(resp);
            j = j + 1;
        }
        proof {
            assert(v@.map_values(lf) =~= order@.map_values(pf));
        }
        v
    }
}

} // verus!

use vstd::prelude::*;
use crate::api::{CreateMultisigRequest, CreateMultisigResponse};
use crate::error::AppError;
use crate::models::{
    Lock, LockParticipant, Proposal, ProposalSignature, ProposalStatus, TransactionHistory,
};

verus! {

/// The signers recorded for proposal `pid` in ledger `s`, in insertion order.
pub open spec fn signers_in(s: Seq<ProposalSignature>, pid: Seq<char>) -> Seq<Seq<char>>
    decreases s.len(),
{
    if s.len() == 0 {
        Seq::empty()
    } else {
        let rest = signers_in(s.drop_last(), pid);
        if s.last().proposal_id@ == pid {
            rest.push(s.last().signer_pkh@)
        } else {
            rest
        }
    }
}

/// The participants recorded for wallet `h` in `s`, in insertion order.
pub open spec fn members_of(s: Seq<LockParticipant>, h: Seq<char>) -> Seq<Seq<char>>
    decreases s.len(),
{
    if s.len() == 0 {
        Seq::empty()
    } else {
        let rest = members_of(s.drop_last(), h);
        if s.last().lock_root_hash@ == h {
            rest.push(s.last().pkh@)
        } else {
            rest
        }
    }
}

/// Appending a row adds its signer to that proposal's signers only.
pub proof fn lemma_signers_push(s: Seq<ProposalSignature>, x: ProposalSignature, pid: Seq<char>)
    ensures
        signers_in(s.push(x), pid) == if x.proposal_id@ == pid {
            signers_in(s, pid).push(x.signer_pkh@)
        } else {
            signers_in(s, pid)
        },
{
    assert(s.push(x).drop_last() =~= s);
}

/// Appending a row adds its participant to that wallet's members only.
pub proof fn lemma_members_push(s: Seq<LockParticipant>, x: LockParticipant, h: Seq<char>)
    ensures
        members_of(s.push(x), h) == if x.lock_root_hash@ == h {
            members_of(s, h).push(x.pkh@)
        } else {
            members_of(s, h)
        },
{
    assert(s.push(x).drop_last() =~= s);
}

/// The state of the coordinator: wallets and their participants, proposals,
/// the signature ledger and the history of finalized spends.
pub struct Store {
    pub locks: Vec<Lock>,
    pub participants: Vec<LockParticipant>,
    pub proposals: Vec<Proposal>,
    pub signatures: Vec<ProposalSignature>,
    pub history: Vec<TransactionHistory>,
}

impl Store {
    pub open spec fn has_lock(self, h: Seq<char>) -> bool {
        exists|i: int| 0 <= i < self.locks@.len() && #[trigger] self.locks@[i].lock_root_hash@ == h
    }

    pub open spec fn has_proposal(self, id: Seq<char>) -> bool {
        exists|i: int| 0 <= i < self.proposals@.len() && #[trigger] self.proposals@[i].id@ == id
    }

    pub open spec fn has_history(self, id: Seq<char>) -> bool {
        exists|i: int| 0 <= i < self.history@.len() && #[trigger] self.history@[i].id@ == id
    }

    pub open spec fn has_tx(self, tx: Seq<char>) -> bool {
        exists|i: int| 0 <= i < self.proposals@.len() && #[trigger] self.proposals@[i].tx_id@ == tx
    }

    /// The participants of wallet `h`.
    pub open spec fn members(self, h: Seq<char>) -> Seq<Seq<char>> {
        members_of(self.participants@, h)
    }

    pub open spec fn is_member(self, h: Seq<char>, pkh: Seq<char>) -> bool {
        self.members(h).contains(pkh)
    }

    /// The signers of proposal `pid`, in the order they signed.
    pub open spec fn signers(self, pid: Seq<char>) -> Seq<Seq<char>> {
        signers_in(self.signatures@, pid)
    }

    pub open spec fn has_signed(self, pid: Seq<char>, pkh: Seq<char>) -> bool {
        self.signers(pid).contains(pkh)
    }

    /// The invariant that every operation keeps.
    pub open spec fn wf(self) -> bool {
        &&& forall|i: int, j: int|
            0 <= i < j < self.locks@.len() ==> self.locks@[i].lock_root_hash@
                != self.locks@[j].lock_root_hash@
        &&& forall|h: Seq<char>| #[trigger] self.members(h).no_duplicates()
        &&& forall|h: Seq<char>| #[trigger] self.members(h).len() > 0 ==> self.has_lock(h)
        &&& forall|i: int, j: int|
            0 <= i < j < self.proposals@.len() ==> self.proposals@[i].id@ != self.proposals@[j].id@
                && self.proposals@[i].tx_id@ != self.proposals@[j].tx_id@
        &&& forall|i: int|
            0 <= i < self.proposals@.len() ==> self.has_lock(#[trigger] self.proposals@[i].lock_root_hash@)
        &&& forall|pid: Seq<char>| #[trigger] self.signers(pid).len() > 0 ==> self.has_proposal(pid)
        &&& forall|pid: Seq<char>| #[trigger] self.signers(pid).no_duplicates()
        &&& forall|i: int, p: Seq<char>|
            0 <= i < self.proposals@.len() && #[trigger] self.signers(self.proposals@[i].id@).contains(p)
                ==> self.is_member(self.proposals@[i].lock_root_hash@, p) || p == self.proposals@[i].proposer_pkh@
        &&& forall|i: int|
            0 <= i < self.proposals@.len() && (#[trigger] self.proposals@[i]).status == ProposalStatus::Pending
                ==> self.signers(self.proposals@[i].id@).len() < self.proposals@[i].threshold
        &&& forall|i: int, j: int|
            0 <= i < j < self.history@.len() ==> self.history@[i].id@ != self.history@[j].id@
    }

    /// An empty coordinator.
    pub fn new() -> (r: Store)
        ensures
            r.wf(),
            r.locks@.len() == 0,
            r.participants@.len() == 0,
            r.proposals@.len() == 0,
            r.signatures@.len() == 0,
            r.history@.len() == 0,
    {
        let r = Store {
            locks: Vec::new(),
            participants: Vec::new(),
            proposals: Vec::new(),
            signatures: Vec::new(),
            history: Vec::new(),
        };
        assert forall|h: Seq<char>| #[trigger] r.members(h) =~= Seq::<Seq<char>>::empty() by {}
        assert forall|pid: Seq<char>| #[trigger] r.signers(pid) =~= Seq::<Seq<char>>::empty() by {}
        r
    }

    /// The position of the wallet `h`, if it is registered.
    pub fn find_lock(&self, h: &str) -> (r: Option<usize>)
        ensures
            match r {
                Some(i) => i < self.locks@.len() && self.locks@[i as int].lock_root_hash@ == h@,
                None => !self.has_lock(h@),
            },
    {
        let mut i: usize = 0;
        while i < self.locks.len()
            invariant
                i <= self.locks@.len(),
                forall|k: int| 0 <= k < i ==> self.locks@[k].lock_root_hash@ != h@,
            decreases self.locks@.len() - i,
        {
            if crate::models::same_text(self.locks[i].lock_root_hash.as_str(), h) {
                return Some(i);
            }
            i = i + 1;
        }
        None
    }

    /// The position of proposal `id`, if it exists.
    pub fn find_proposal(&self, id: &str) -> (r: Option<usize>)
        ensures
            match r {
                Some(i) => i < self.proposals@.len() && self.proposals@[i as int].id@ == id@,
                None => !self.has_proposal(id@),
            },
    {
        let mut i: usize = 0;
        while i < self.proposals.len()
            invariant
                i <= self.proposals@.len(),
                forall|k: int| 0 <= k < i ==> self.proposals@[k].id@ != id@,
            decreases self.proposals@.len() - i,
        {
            if crate::models::same_text(self.proposals[i].id.as_str(), id) {
                return Some(i);
            }
            i = i + 1;
        }
        None
    }

    /// Whether some proposal already carries transaction id `tx`.
    pub fn tx_taken(&self, tx: &str) -> (r: bool)
        ensures
            r == self.has_tx(tx@),
    {
        let mut i: usize = 0;
        while i < self.proposals.len()
            invariant
                i <= self.proposals@.len(),
                forall|k: int| 0 <= k < i ==> self.proposals@[k].tx_id@ != tx@,
            decreases self.proposals@.len() - i,
        {
            if crate::models::same_text(self.proposals[i].tx_id.as_str(), tx) {
                return true;
            }
            i = i + 1;
        }
        false
    }

    /// Whether a history entry already carries id `id`.
    pub fn history_taken(&self, id: &str) -> (r: bool)
        ensures
            r == self.has_history(id@),
    {
        let mut i: usize = 0;
        while i < self.history.len()
            invariant
                i <= self.history@.len(),
                forall|k: int| 0 <= k < i ==> self.history@[k].id@ != id@,
            decreases self.history@.len() - i,
        {
            if crate::models::same_text(self.history[i].id.as_str(), id) {
                return true;
            }
            i = i + 1;
        }
        false
    }

    /// Whether `pkh` is a participant of wallet `h`.
    pub fn is_participant(&self, h: &str, pkh: &str) -> (r: bool)
        ensures
            r == self.is_member(h@, pkh@),
    {
        let mut i: usize = 0;
        while i < self.participants.len()
            invariant
                i <= self.participants@.len(),
                !members_of(self.participants@.take(i as int), h@).contains(pkh@),
            decreases self.participants@.len() - i,
        {
            proof {
                assert(self.participants@.take(i as int + 1) =~= self.participants@.take(i as int).push(self.participants@[i as int]));
                lemma_members_push(self.participants@.take(i as int), self.participants@[i as int], h@);
            }
            if crate::models::same_text(self.participants[i].lock_root_hash.as_str(), h)
                && crate::models::same_text(self.participants[i].pkh.as_str(), pkh) {
                assert(self.participants@.take(self.participants@.len() as int) =~= self.participants@);
                proof { self.lemma_member_row(i as int); }
                return true;
            }
            i = i + 1;
        }
        assert(self.participants@.take(self.participants@.len() as int) =~= self.participants@);
        false
    }

    /// A row of the participant table is a member of its wallet.
    pub proof fn lemma_member_row(self, k: int)
        requires
            0 <= k < self.participants@.len(),
        ensures
            self.is_member(self.participants@[k].lock_root_hash@, self.participants@[k].pkh@),
    {
        lemma_members_row(self.participants@, k);
    }

    /// The signers of proposal `pid`, in the order they signed.
    pub fn signer_list(&self, pid: &str) -> (r: Vec<String>)
        ensures
            r@.map_values(|s: String| s@) == self.signers(pid@),
    {
        let mut r: Vec<String> = Vec::new();
        let mut i: usize = 0;
        while i < self.signatures.len()
            invariant
                i <= self.signatures@.len(),
                r@.map_values(|s: String| s@) == signers_in(self.signatures@.take(i as int), pid@),
            decreases self.signatures@.len() - i,
        {
            proof {
                assert(self.signatures@.take(i as int + 1) =~= self.signatures@.take(i as int).push(self.signatures@[i as int]));
                lemma_signers_push(self.signatures@.take(i as int), self.signatures@[i as int], pid@);
            }
            if crate::models::same_text(self.signatures[i].proposal_id.as_str(), pid) {
                r.push(self.signatures[i].signer_pkh.clone());
            }
            i = i + 1;
            assert(r@.map_values(|s: String| s@) =~= signers_in(self.signatures@.take(i as int), pid@));
        }
        assert(self.signatures@.take(self.signatures@.len() as int) =~= self.signatures@);
        r
    }

    /// How many signatures proposal `pid` has.
    pub fn signature_count(&self, pid: &str) -> (r: usize)
        ensures
            r == self.signers(pid@).len(),
            r <= self.signatures@.len(),
    {
        let mut r: usize = 0;
        let mut i: usize = 0;
        while i < self.signatures.len()
            invariant
                i <= self.signatures@.len(),
                r == signers_in(self.signatures@.take(i as int), pid@).len(),
                r <= i,
            decreases self.signatures@.len() - i,
        {
            proof {
                assert(self.signatures@.take(i as int + 1) =~= self.signatures@.take(i as int).push(self.signatures@[i as int]));
                lemma_signers_push(self.signatures@.take(i as int), self.signatures@[i as int], pid@);
            }
            if crate::models::same_text(self.signatures[i].proposal_id.as_str(), pid) {
                r = r + 1;
            }
            i = i + 1;
        }
        assert(self.signatures@.take(self.signatures@.len() as int) =~= self.signatures@);
        r
    }

    /// Whether `pkh` has already signed proposal `pid`.
    pub fn signed_by(&self, pid: &str, pkh: &str) -> (r: bool)
        ensures
            r == self.has_signed(pid@, pkh@),
    {
        let mut i: usize = 0;
        while i < self.signatures.len()
            invariant
                i <= self.signatures@.len(),
                !signers_in(self.signatures@.take(i as int), pid@).contains(pkh@),
            decreases self.signatures@.len() - i,
        {
            proof {
                assert(self.signatures@.take(i as int + 1) =~= self.signatures@.take(i as int).push(self.signatures@[i as int]));
                lemma_signers_push(self.signatures@.take(i as int), self.signatures@[i as int], pid@);
            }
            if crate::models::same_text(self.signatures[i].proposal_id.as_str(), pid)
                && crate::models::same_text(self.signatures[i].signer_pkh.as_str(), pkh) {
                proof { lemma_signers_row(self.signatures@, i as int); }
                return true;
            }
            i = i + 1;
        }
        assert(self.signatures@.take(self.signatures@.len() as int) =~= self.signatures@);
        false
    }
    /// The registered wallet with id `h` (meaningful where it exists).
    pub open spec fn lock_of(self, h: Seq<char>) -> Lock {
        self.locks@[choose|k: int| 0 <= k < self.locks@.len() && #[trigger] self.locks@[k].lock_root_hash@ == h]
    }

    /// Wallet ids pick out one position.
    pub proof fn lemma_lock_of(self, h: Seq<char>, k: int)
        requires
            self.wf(),
            0 <= k < self.locks@.len(),
            self.locks@[k].lock_root_hash@ == h,
        ensures
            self.lock_of(h) == self.locks@[k],
    {
        let j = choose|j: int| 0 <= j < self.locks@.len() && #[trigger] self.locks@[j].lock_root_hash@ == h;
        if j < k {
            assert(self.locks@[j].lock_root_hash@ != self.locks@[k].lock_root_hash@);
        } else if k < j {
            assert(self.locks@[k].lock_root_hash@ != self.locks@[j].lock_root_hash@);
        }
    }

    /// The registry clauses of the invariant depend on wallets and participants alone.
    pub proof fn lemma_registry_kept(old_s: Store, new_s: Store)
        requires
            old_s.wf(),
            new_s.locks@ == old_s.locks@,
            new_s.participants@ == old_s.participants@,
        ensures
            forall|h: Seq<char>| #[trigger] new_s.members(h).no_duplicates(),
            forall|h: Seq<char>| #[trigger] new_s.members(h).len() > 0 ==> new_s.has_lock(h),
            forall|h: Seq<char>| #[trigger] new_s.members(h) == old_s.members(h),
            forall|h: Seq<char>| new_s.has_lock(h) == old_s.has_lock(h),
    {
        assert forall|h: Seq<char>| #[trigger] new_s.members(h).len() > 0 implies new_s.has_lock(h) by {
            assert(old_s.members(h).len() > 0);
            let i = choose|i: int| 0 <= i < old_s.locks@.len() && #[trigger] old_s.locks@[i].lock_root_hash@ == h;
            assert(new_s.locks@[i].lock_root_hash@ == h);
        }
        assert forall|h: Seq<char>| #[trigger] new_s.members(h).no_duplicates() by {
            assert(old_s.members(h).no_duplicates());
        }
    }

    /// A proposal has no more signers than the ledger has rows.
    pub proof fn lemma_signers_le_len(self, pid: Seq<char>)
        ensures
            self.signers(pid).len() <= self.signatures@.len(),
    {
        lemma_signers_in_len(self.signatures@, pid);
    }

    /// Locks only grow: what was registered stays registered.
    pub proof fn lemma_locks_grow(old_s: Store, new_s: Store)
        requires
            old_s.locks@.is_prefix_of(new_s.locks@),
        ensures
            forall|h: Seq<char>| old_s.has_lock(h) ==> new_s.has_lock(h),
    {
        assert forall|h: Seq<char>| old_s.has_lock(h) implies new_s.has_lock(h) by {
            let i = choose|i: int| 0 <= i < old_s.locks@.len() && #[trigger] old_s.locks@[i].lock_root_hash@ == h;
            assert(new_s.locks@[i] == old_s.locks@[i]);
        }
    }

    /// Registration of `req` at time `now` took `pre` to `post` with result `r`.
    pub open spec fn register_step(
        pre: Store,
        req: CreateMultisigRequest,
        now: String,
        r: Result<CreateMultisigResponse, AppError>,
        post: Store,
    ) -> bool {
        &&& pre.has_lock(req.lock_root_hash@) ==> r == Err::<CreateMultisigResponse, AppError>(
            AppError::Conflict(req.lock_root_hash),
        ) && post == pre
        &&& !pre.has_lock(req.lock_root_hash@) ==> {
            &&& r matches Ok(resp) && resp.lock_root_hash == req.lock_root_hash
            &&& post.locks@ == pre.locks@.push(
                Lock {
                    lock_root_hash: req.lock_root_hash,
                    threshold: req.threshold,
                    total_signers: req.total_signers,
                    created_at: now,
                    created_by_pkh: req.created_by_pkh,
                },
            )
            &&& post.members(req.lock_root_hash@) == first_occurrences(
                req.signer_pkhs@.map_values(|s: String| s@),
            )
            &&& forall|h: Seq<char>|
                h != req.lock_root_hash@ ==> #[trigger] post.members(h) == pre.members(h)
            &&& post.proposals@ == pre.proposals@
            &&& post.signatures@ == pre.signatures@
            &&& post.history@ == pre.history@
        }
    }

    /// Registers a wallet, stamped with time `now`. Fails with `Conflict`
    /// where `lock_root_hash` is taken; the participants are stored once each.
    pub fn create_multisig_at(&mut self, req: CreateMultisigRequest, now: String) -> (r: Result<
        CreateMultisigResponse,
        AppError,
    >)
        requires
            old(self).wf(),
        ensures
            final(self).wf(),
            Store::register_step(*old(self), req, now, r, *final(self)),
    {
        if self.find_lock(req.lock_root_hash.as_str()).is_some() {
            return Err(AppError::Conflict(req.lock_root_hash));
        }
        let ghost old_s = *self;
        let h = req.lock_root_hash.clone();
        let pkhs = req.signer_pkhs;
        let ghost views = pkhs@.map_values(|s: String| s@);
        let lock = Lock {
            lock_root_hash: req.lock_root_hash,
            threshold: req.threshold,
            total_signers: req.total_signers,
            created_at: now,
            created_by_pkh: req.created_by_pkh,
        };
        let ghost new_lock = lock;
        self.locks.push(lock);
        proof {
            Store::lemma_locks_grow(old_s, *self);
            assert(self.locks@[old_s.locks@.len() as int].lock_root_hash@ == h@);
            assert(old_s.members(h@).len() == 0);
            assert(self.members(h@) =~= first_occurrences(views.take(0)));
        }
        let mut i: usize = 0;
        while i < pkhs.len()
            invariant
                i <= pkhs@.len(),
                views == pkhs@.map_values(|s: String| s@),
                !old_s.has_lock(h@),
                old_s.wf(),
                self.locks@ == old_s.locks@.push(new_lock),
                new_lock.lock_root_hash == h,
                self.members(h@) == first_occurrences(views.take(i as int)),
                forall|h2: Seq<char>| h2 != h@ ==> #[trigger] self.members(h2) == old_s.members(h2),
                self.proposals@ == old_s.proposals@,
                self.signatures@ == old_s.signatures@,
                self.history@ == old_s.history@,
            decreases pkhs@.len() - i,
        {
            let member = self.is_participant(h.as_str(), pkhs[i].as_str());
            let ghost pre = *self;
            if !member {
                let row = LockParticipant { lock_root_hash: h.clone(), pkh: pkhs[i].clone() };
                self.participants.push(row);
                proof {
                    assert forall|h2: Seq<char>| #[trigger] self.members(h2) == if h2 == h@ {
                        pre.members(h2).push(pkhs@[i as int]@)
                    } else {
                        pre.members(h2)
                    } by {
                        lemma_members_push(pre.participants@, row, h2);
                    }
                }
            }
            proof {
                assert(views.take(i as int + 1).drop_last() =~= views.take(i as int));
                assert(views.take(i as int + 1).last() == pkhs@[i as int]@);
            }
            i = i + 1;
        }
        proof {
            assert(views.take(views.len() as int) =~= views);
            lemma_first_occurrences(views);
            Store::lemma_locks_grow(old_s, *self);
            let n = old_s.locks@.len() as int;
            assert(self.has_lock(h@)) by {
                assert(self.locks@[n].lock_root_hash@ == h@);
            }
            assert forall|i: int, j: int| 0 <= i < j < self.locks@.len() implies self.locks@[i].lock_root_hash@
                != self.locks@[j].lock_root_hash@ by {
                if j < n {
                    assert(self.locks@[i] == old_s.locks@[i] && self.locks@[j] == old_s.locks@[j]);
                } else {
                    assert(self.locks@[i] == old_s.locks@[i]);
                }
            }
            assert forall|hh: Seq<char>| #[trigger] self.members(hh).no_duplicates() by {
                if hh != h@ {
                    assert(old_s.members(hh).no_duplicates());
                }
            }
            assert forall|hh: Seq<char>| #[trigger] self.members(hh).len() > 0 implies self.has_lock(hh) by {
                if hh != h@ {
                    assert(old_s.members(hh).len() > 0);
                }
            }
            assert forall|pid: Seq<char>| #[trigger] self.signers(pid).len() > 0 implies self.has_proposal(pid) by {
                assert(old_s.signers(pid).len() > 0);
            }
            assert forall|pid: Seq<char>| #[trigger] self.signers(pid).no_duplicates() by {
                assert(old_s.signers(pid).no_duplicates());
            }
            assert forall|k: int| 0 <= k < self.proposals@.len() && (#[trigger] self.proposals@[k]).status
                == ProposalStatus::Pending implies self.signers(self.proposals@[k].id@).len()
                < self.proposals@[k].threshold by {
                assert(old_s.proposals@[k] == self.proposals@[k]);
            }
            assert forall|k: int, p: Seq<char>|
                0 <= k < self.proposals@.len() && #[trigger] self.signers(self.proposals@[k].id@).contains(p)
                implies self.is_member(self.proposals@[k].lock_root_hash@, p)
                    || p == self.proposals@[k].proposer_pkh@ by {
                assert(old_s.signers(old_s.proposals@[k].id@).contains(p));
                let hk = self.proposals@[k].lock_root_hash@;
                if old_s.is_member(hk, p) && hk == h@ {
                    assert(old_s.members(h@).len() > 0);
                }
            }
        }
        Ok(CreateMultisigResponse { lock_root_hash: h })
    }

}

/// The elements of `s` in order of first occurrence, without repeats.
pub open spec fn first_occurrences(s: Seq<Seq<char>>) -> Seq<Seq<char>>
    decreases s.len(),
{
    if s.len() == 0 {
        Seq::empty()
    } else {
        let rest = first_occurrences(s.drop_last());
        if rest.contains(s.last()) {
            rest
        } else {
            rest.push(s.last())
        }
    }
}

/// `first_occurrences` repeats nothing and keeps every element.
pub proof fn lemma_first_occurrences(s: Seq<Seq<char>>)
    ensures
        first_occurrences(s).no_duplicates(),
        forall|x: Seq<char>| first_occurrences(s).contains(x) <==> s.contains(x),
    decreases s.len(),
{
    if s.len() > 0 {
        lemma_first_occurrences(s.drop_last());
        let rest = first_occurrences(s.drop_last());
        assert forall|x: Seq<char>| s.contains(x) <==> (s.drop_last().contains(x) || x == s.last()) by {
            if s.contains(x) {
                let j = choose|j: int| 0 <= j < s.len() && s[j] == x;
                if j < s.len() - 1 {
                    assert(s.drop_last()[j] == x);
                }
            }
            if s.drop_last().contains(x) {
                let j = choose|j: int| 0 <= j < s.len() - 1 && s.drop_last()[j] == x;
                assert(s[j] == x);
            }
            if x == s.last() {
                assert(s[s.len() - 1] == x);
            }
        }
        if !rest.contains(s.last()) {
            assert forall|x: Seq<char>| rest.push(s.last()).contains(x) <==> (rest.contains(x) || x == s.last()) by {
                if rest.push(s.last()).contains(x) {
                    let j = choose|j: int| 0 <= j < rest.len() + 1 && rest.push(s.last())[j] == x;
                    if j < rest.len() {
                        assert(rest[j] == x);
                    }
                }
                if rest.contains(x) {
                    let j = choose|j: int| 0 <= j < rest.len() && rest[j] == x;
                    assert(rest.push(s.last())[j] == x);
                }
                if x == s.last() {
                    assert(rest.push(s.last())[rest.len() as int] == x);
                }
            }
        }
    }
}

/// A proposal has no more signers than the ledger has rows.
pub proof fn lemma_signers_in_len(s: Seq<ProposalSignature>, pid: Seq<char>)
    ensures
        signers_in(s, pid).len() <= s.len(),
    decreases s.len(),
{
    if s.len() > 0 {
        lemma_signers_in_len(s.drop_last(), pid);
    }
}

/// Every row of the participant table shows in its wallet's members.
pub proof fn lemma_members_row(s: Seq<LockParticipant>, k: int)
    requires
        0 <= k < s.len(),
    ensures
        members_of(s, s[k].lock_root_hash@).contains(s[k].pkh@),
    decreases s.len(),
{
    let h = s[k].lock_root_hash@;
    if k == s.len() - 1 {
        assert(members_of(s, h).last() == s[k].pkh@);
    } else {
        lemma_members_row(s.drop_last(), k);
        let m = members_of(s.drop_last(), h);
        let w = choose|j: int| 0 <= j < m.len() && m[j] == s[k].pkh@;
        if s.last().lock_root_hash@ == h {
            assert(members_of(s, h)[w] == s[k].pkh@);
        }
    }
}

/// Every row of the ledger shows in its proposal's signers.
pub proof fn lemma_signers_row(s: Seq<ProposalSignature>, k: int)
    requires
        0 <= k < s.len(),
    ensures
        signers_in(s, s[k].proposal_id@).contains(s[k].signer_pkh@),
    decreases s.len(),
{
    let pid = s[k].proposal_id@;
    if k == s.len() - 1 {
        assert(signers_in(s, pid).last() == s[k].signer_pkh@);
    } else {
        lemma_signers_row(s.drop_last(), k);
        let m = signers_in(s.drop_last(), pid);
        let w = choose|j: int| 0 <= j < m.len() && m[j] == s[k].signer_pkh@;
        if s.last().proposal_id@ == pid {
            assert(signers_in(s, pid)[w] == s[k].signer_pkh@);
        }
    }
}

} // verus!

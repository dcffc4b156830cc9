use vstd::prelude::*;
use crate::types::{
    ApiResponseProposePost, ApiResponseVotePost, ConfigTx, ConfigView, Configuration, GovError, Digest,
    ProposalState, ProposeTx, PublicKey, Signature, Vote, VoteTx, copy_vec, distinct_keys,
    well_formed_config, zero_hash,
};

verus! {

/// A configuration proposal with its vote slots, one per validator of the
/// predecessor configuration.
#[derive(Debug)]
pub struct Proposal {
    pub config: Configuration,
    pub proposer: PublicKey,
    pub signature: Signature,
    pub tx_hash: Digest,
    pub voters: Vec<PublicKey>,
    pub votes: Vec<Option<Vote>>,
}

pub struct ProposalView {
    pub config: ConfigView,
    pub proposer: PublicKey,
    pub signature: Signature,
    pub tx_hash: Digest,
    pub voters: Seq<PublicKey>,
    pub votes: Seq<Option<Vote>>,
}

impl View for Proposal {
    type V = ProposalView;

    open spec fn view(&self) -> ProposalView {
        ProposalView {
            config: self.config@,
            proposer: self.proposer,
            signature: self.signature,
            tx_hash: self.tx_hash,
            voters: self.voters@,
            votes: self.votes@,
        }
    }
}

impl Proposal {
    pub fn copied(&self) -> (r: Proposal)
        ensures
            r@ == self@,
    {
        Proposal {
            config: self.config.copied(),
            proposer: self.proposer,
            signature: self.signature,
            tx_hash: self.tx_hash,
            voters: copy_vec(&self.voters),
            votes: copy_vec(&self.votes),
        }
    }
}

/// The governance ledger as a mathematical value: the committed configurations
/// in commit order, and the proposals in submission order.
pub struct LedgerModel {
    pub committed: Seq<ConfigView>,
    pub proposals: Seq<ProposalView>,
}

/// Number of filled vote slots.
pub open spec fn filled(votes: Seq<Option<Vote>>) -> nat
    decreases votes.len(),
{
    if votes.len() == 0 {
        0
    } else {
        filled(votes.drop_last()) + if votes.last() is Some {
            1nat
        } else {
            0nat
        }
    }
}

/// Strictly more than two thirds of `total`.
pub open spec fn quorum(count: nat, total: nat) -> bool {
    3 * count > 2 * total
}

pub open spec fn is_committed(m: LedgerModel, h: Digest) -> bool {
    exists|i: int| 0 <= i < m.committed.len() && m.committed[i].hash == h
}

pub open spec fn committed_index(m: LedgerModel, h: Digest) -> int {
    choose|i: int| 0 <= i < m.committed.len() && m.committed[i].hash == h
}

pub open spec fn has_proposal(m: LedgerModel, h: Digest) -> bool {
    exists|i: int| 0 <= i < m.proposals.len() && m.proposals[i].config.hash == h
}

pub open spec fn proposal_index(m: LedgerModel, h: Digest) -> int {
    choose|i: int| 0 <= i < m.proposals.len() && m.proposals[i].config.hash == h
}

pub open spec fn slot_index(voters: Seq<PublicKey>, k: PublicKey) -> int {
    choose|i: int| 0 <= i < voters.len() && voters[i] == k
}

pub open spec fn last_activation(m: LedgerModel) -> u64 {
    m.committed.last().actual_from
}

/// The invariant of the ledger.
pub open spec fn ledger_wf(m: LedgerModel) -> bool {
    &&& m.committed.len() >= 1
    &&& m.committed[0].previous_cfg_hash == zero_hash()
    &&& forall|i: int| 0 <= i < m.committed.len() ==> well_formed_config(#[trigger] m.committed[i])
    &&& forall|i: int, j: int|
        0 <= i < j < m.committed.len() ==> #[trigger] m.committed[i].actual_from
            < #[trigger] m.committed[j].actual_from
    &&& forall|i: int, j: int|
        0 <= i < m.committed.len() && 0 <= j < m.committed.len() && i != j
            ==> #[trigger] m.committed[i].hash != #[trigger] m.committed[j].hash
    &&& forall|j: int|
        0 < j < m.committed.len() ==> exists|k: int|
            0 <= k < j && #[trigger] m.committed[k].hash == (#[trigger] m.committed[j]).previous_cfg_hash
    &&& forall|i: int, j: int|
        0 <= i < m.proposals.len() && 0 <= j < m.proposals.len() && i != j
            ==> #[trigger] m.proposals[i].config.hash != #[trigger] m.proposals[j].config.hash
    &&& forall|i: int| 0 <= i < m.proposals.len() ==> proposal_wf(m, #[trigger] m.proposals[i])
}

pub open spec fn proposal_wf(m: LedgerModel, p: ProposalView) -> bool {
    &&& well_formed_config(p.config)
    &&& distinct_keys(p.voters)
    &&& p.votes.len() == p.voters.len()
    &&& forall|k: int| 0 <= k < p.votes.len() && (#[trigger] p.votes[k]) is Some ==> p.votes[k].unwrap().voter == p.voters[k]
    &&& exists|k: int|
        0 <= k < m.committed.len() && #[trigger] m.committed[k].hash == p.config.previous_cfg_hash
            && m.committed[k].actual_from < p.config.actual_from
}

/// Which error, if any, a proposal transaction meets.
pub open spec fn propose_error(m: LedgerModel, from: PublicKey, c: ConfigView, signature_valid: bool) -> Option<GovError> {
    if !signature_valid {
        Some(GovError::SignatureInvalid)
    } else if !well_formed_config(c) {
        Some(GovError::MalformedConfiguration)
    } else if has_proposal(m, c.hash) || is_committed(m, c.hash) {
        Some(GovError::DuplicateProposal)
    } else if !is_committed(m, c.previous_cfg_hash) {
        Some(GovError::UnknownPredecessor)
    } else if c.actual_from <= m.committed[committed_index(m, c.previous_cfg_hash)].actual_from {
        Some(GovError::NonMonotonicActivation)
    } else if !m.committed[committed_index(m, c.previous_cfg_hash)].validators.contains(from) {
        Some(GovError::NotAValidator)
    } else {
        None
    }
}

/// The ledger after an accepted proposal.
pub open spec fn after_propose(m: LedgerModel, from: PublicKey, c: ConfigView, signature: Signature, tx_hash: Digest) -> LedgerModel {
    let voters = m.committed[committed_index(m, c.previous_cfg_hash)].validators;
    LedgerModel {
        committed: m.committed,
        proposals: m.proposals.push(
            ProposalView {
                config: c,
                proposer: from,
                signature,
                tx_hash,
                voters,
                votes: Seq::new(voters.len(), |k: int| None::<Vote>),
            },
        ),
    }
}

/// Whether the vote `v`, filling an empty slot, brings its proposal to quorum
/// for the first time and so commits it.
pub open spec fn vote_commits(m: LedgerModel, v: VoteTx) -> bool {
    let p = m.proposals[proposal_index(m, v.cfg_hash)];
    !is_committed(m, v.cfg_hash) && quorum(filled(p.votes) + 1, p.votes.len())
}

/// Which error, if any, a vote transaction meets.
pub open spec fn vote_error(m: LedgerModel, v: VoteTx, signature_valid: bool) -> Option<GovError> {
    if !signature_valid {
        Some(GovError::SignatureInvalid)
    } else if !has_proposal(m, v.cfg_hash) {
        Some(GovError::UnknownProposal)
    } else {
        let p = m.proposals[proposal_index(m, v.cfg_hash)];
        if !p.voters.contains(v.voter) {
            Some(GovError::NotAValidator)
        } else if p.votes[slot_index(p.voters, v.voter)] is Some {
            Some(GovError::DuplicateVote)
        } else if vote_commits(m, v) && p.config.actual_from <= last_activation(m) {
            Some(GovError::ActivationConflict)
        } else {
            None
        }
    }
}

/// The ledger after an accepted vote: the voter's slot is filled, and the
/// configuration is committed if this vote brought it to quorum.
pub open spec fn after_vote(m: LedgerModel, v: VoteTx) -> LedgerModel {
    let pi = proposal_index(m, v.cfg_hash);
    let p = m.proposals[pi];
    let updated = ProposalView { votes: p.votes.update(slot_index(p.voters, v.voter), Some(v)), ..p };
    LedgerModel {
        committed: if vote_commits(m, v) {
            m.committed.push(p.config)
        } else {
            m.committed
        },
        proposals: m.proposals.update(pi, updated),
    }
}

/// The state of the proposal for `h`, if there is one.
pub open spec fn state_of(m: LedgerModel, h: Digest) -> Option<ProposalState> {
    if !has_proposal(m, h) {
        None
    } else if is_committed(m, h) {
        Some(ProposalState::Committed)
    } else if quorum(
        filled(m.proposals[proposal_index(m, h)].votes),
        m.proposals[proposal_index(m, h)].votes.len(),
    ) {
        Some(ProposalState::QuorumReached)
    } else {
        Some(ProposalState::Proposed)
    }
}

/// Committed configuration `i` is the one active at height `h`: the one with the
/// greatest activation height not above `h`.
pub open spec fn active_at_index(m: LedgerModel, i: int, h: u64) -> bool {
    &&& 0 <= i < m.committed.len()
    &&& m.committed[i].actual_from <= h
    &&& forall|j: int| 0 <= j < m.committed.len() && #[trigger] m.committed[j].actual_from <= h ==> m.committed[j].actual_from <= m.committed[i].actual_from
}

/// Committed configuration `i` is the following one after height `h`: the one
/// with the least activation height above `h`.
pub open spec fn following_at_index(m: LedgerModel, i: int, h: u64) -> bool {
    &&& 0 <= i < m.committed.len()
    &&& m.committed[i].actual_from > h
    &&& forall|j: int| 0 <= j < m.committed.len() && #[trigger] m.committed[j].actual_from > h ==> m.committed[i].actual_from <= m.committed[j].actual_from
}


/// Position of `k` in `keys`, if it occurs.
pub fn position_of(keys: &Vec<PublicKey>, k: PublicKey) -> (r: Option<usize>)
    ensures
        r matches Some(i) ==> i < keys@.len() && keys@[i as int] == k,
        r is None <==> !keys@.contains(k),
{
    let mut i: usize = 0;
    while i < keys.len()
        invariant
            i <= keys@.len(),
            forall|j: int| 0 <= j < i ==> keys@[j] != k,
        decreases keys@.len() - i,
    {
        if keys[i] == k {
            return Some(i);
        }
        i = i + 1;
    }
    None
}

/// Whether some key occurs twice.
pub fn has_repeated_key(keys: &Vec<PublicKey>) -> (r: bool)
    ensures
        r == !distinct_keys(keys@),
{
    let mut j: usize = 0;
    while j < keys.len()
        invariant
            j <= keys@.len(),
            forall|a: int, b: int| 0 <= a < b < j ==> keys@[a] != keys@[b],
        decreases keys@.len() - j,
    {
        let mut i: usize = 0;
        while i < j
            invariant
                i <= j < keys@.len(),
                forall|a: int| 0 <= a < i ==> keys@[a] != keys@[j as int],
            decreases j - i,
        {
            if keys[i] == keys[j] {
                return true;
            }
            i = i + 1;
        }
        j = j + 1;
    }
    false
}

/// Number of filled vote slots.
pub fn count_filled(votes: &Vec<Option<Vote>>) -> (r: usize)
    ensures
        r == filled(votes@),
{
    let mut n: usize = 0;
    let mut i: usize = 0;
    while i < votes.len()
        invariant
            i <= votes@.len(),
            n == filled(votes@.subrange(0, i as int)),
            n <= i,
        decreases votes@.len() - i,
    {
        assert(votes@.subrange(0, i + 1).drop_last() =~= votes@.subrange(0, i as int));
        if votes[i].is_some() {
            n = n + 1;
        }
        i = i + 1;
    }
    assert(votes@.subrange(0, votes@.len() as int) =~= votes@);
    n
}

pub fn config_is_well_formed(c: &Configuration) -> (r: bool)
    ensures
        r == well_formed_config(c@),
{
    c.validators.len() > 0 && !has_repeated_key(&c.validators) && c.hash != Digest::zero()
}

/// An accepted vote keeps the ledger invariant.
pub proof fn lemma_after_vote_wf(m: LedgerModel, tx: VoteTx)
    requires
        ledger_wf(m),
        vote_error(m, tx, true) is None,
    ensures
        ledger_wf(after_vote(m, tx)),
{
    let pi = proposal_index(m, tx.cfg_hash);
    let p = m.proposals[pi];
    assert(proposal_wf(m, p));
    let vi = slot_index(p.voters, tx.voter);
    let commits = vote_commits(m, tx);
    let m2 = after_vote(m, tx);
    let updated = m2.proposals[pi];
    assert(slot_index(p.voters, tx.voter) == vi);
    assert forall|k: int| 0 <= k < updated.votes.len() && (#[trigger] updated.votes[k]) is Some
        implies updated.votes[k].unwrap().voter == updated.voters[k] by {
        if k != vi {
            assert(updated.votes[k] == p.votes[k]);
        }
    }
    let pk = choose|k: int|
        0 <= k < m.committed.len() && #[trigger] m.committed[k].hash == p.config.previous_cfg_hash
            && m.committed[k].actual_from < p.config.actual_from;
    assert(m2.committed[pk] == m.committed[pk]);
    assert(proposal_wf(m2, updated));
    assert forall|a: int| 0 <= a < m2.proposals.len() implies proposal_wf(m2, #[trigger] m2.proposals[a]) by {
        if a != pi {
            assert(m2.proposals[a] == m.proposals[a]);
            assert(proposal_wf(m, m.proposals[a]));
            let k = choose|k: int|
                0 <= k < m.committed.len() && #[trigger] m.committed[k].hash == m.proposals[a].config.previous_cfg_hash
                    && m.committed[k].actual_from < m.proposals[a].config.actual_from;
            assert(m2.committed[k] == m.committed[k]);
        }
    }
    assert forall|a: int, b: int|
        0 <= a < m2.proposals.len() && 0 <= b < m2.proposals.len() && a != b
        implies #[trigger] m2.proposals[a].config.hash != #[trigger] m2.proposals[b].config.hash by {
        assert(m.proposals[a].config.hash != m.proposals[b].config.hash);
    }
    if commits {
        let n = m.committed.len() as int;
        assert(m2.committed[n] == p.config);
        assert forall|i: int, j: int| 0 <= i < j < m2.committed.len() implies
            #[trigger] m2.committed[i].actual_from < #[trigger] m2.committed[j].actual_from by {
            if j == n && i < n - 1 {
                assert(m.committed[i].actual_from < m.committed[n - 1].actual_from);
            }
        }
        assert forall|i: int, j: int|
            0 <= i < m2.committed.len() && 0 <= j < m2.committed.len() && i != j
            implies #[trigger] m2.committed[i].hash != #[trigger] m2.committed[j].hash by {
            if i == n {
                assert(m.committed[j].hash != tx.cfg_hash);
            } else if j == n {
                assert(m.committed[i].hash != tx.cfg_hash);
            } else {
                assert(m.committed[i].hash != m.committed[j].hash);
            }
        }
        assert forall|j: int| 0 < j < m2.committed.len() implies exists|k: int|
            0 <= k < j && #[trigger] m2.committed[k].hash == (#[trigger] m2.committed[j]).previous_cfg_hash by {
            if j == n {
                let k = choose|k: int|
                    0 <= k < m.committed.len() && #[trigger] m.committed[k].hash == p.config.previous_cfg_hash
                        && m.committed[k].actual_from < p.config.actual_from;
                assert(m2.committed[k] == m.committed[k]);
            } else {
                let k = choose|k: int|
                    0 <= k < j && #[trigger] m.committed[k].hash == (#[trigger] m.committed[j]).previous_cfg_hash;
                assert(m2.committed[k] == m.committed[k]);
            }
        }
        assert forall|i: int| 0 <= i < m2.committed.len() implies well_formed_config(#[trigger] m2.committed[i]) by {
            if i < n {
                assert(m2.committed[i] == m.committed[i]);
            }
        }
    }
}

/// The configuration governance ledger: committed configurations in commit
/// order, which is also activation order, and proposals in submission order.
#[derive(Debug)]
pub struct GovernanceLedger {
    committed: Vec<Configuration>,
    proposals: Vec<Proposal>,
}

impl View for GovernanceLedger {
    type V = LedgerModel;

    closed spec fn view(&self) -> LedgerModel {
        LedgerModel {
            committed: self.committed@.map_values(|c: Configuration| c@),
            proposals: self.proposals@.map_values(|p: Proposal| p@),
        }
    }
}

impl GovernanceLedger {
    /// Starts a ledger from its genesis configuration, which must be well formed
    /// and name the zero digest as its predecessor.
    pub fn new(genesis: Configuration) -> (r: Result<GovernanceLedger, GovError>)
        ensures
            r is Ok <==> well_formed_config(genesis@) && genesis.previous_cfg_hash == zero_hash(),
            r matches Ok(l) ==> l@.committed == seq![genesis@] && l@.proposals.len() == 0 && ledger_wf(l@),
            r matches Err(e) ==> e == GovError::MalformedConfiguration,
    {
        if !config_is_well_formed(&genesis) || genesis.previous_cfg_hash != Digest::zero() {
            return Err(GovError::MalformedConfiguration);
        }
        let mut committed: Vec<Configuration> = Vec::new();
        committed.push(genesis);
        let l = GovernanceLedger { committed, proposals: Vec::new() };
        assert(l@.committed =~= seq![genesis@]);
        assert(l@.proposals =~= Seq::<ProposalView>::empty());
        Ok(l)
    }

    pub fn find_committed(&self, h: Digest) -> (r: Option<usize>)
        requires
            ledger_wf(self@),
        ensures
            r matches Some(i) ==> i < self@.committed.len() && self@.committed[i as int].hash == h
                && i == committed_index(self@, h),
            r is None <==> !is_committed(self@, h),
    {
        let mut i: usize = 0;
        while i < self.committed.len()
            invariant
                i <= self@.committed.len(),
                ledger_wf(self@),
                self@.committed.len() == self.committed@.len(),
                forall|j: int| 0 <= j < i ==> self@.committed[j].hash != h,
            decreases self.committed@.len() - i,
        {
            if self.committed[i].hash == h {
                assert(self@.committed[i as int].hash == h);
                assert(is_committed(self@, h));
                let ghost ci = committed_index(self@, h);
                assert(self@.committed[ci].hash == self@.committed[i as int].hash);
                return Some(i);
            }
            i = i + 1;
        }
        None
    }

    pub fn find_proposal(&self, h: Digest) -> (r: Option<usize>)
        requires
            ledger_wf(self@),
        ensures
            r matches Some(i) ==> i < self@.proposals.len() && self@.proposals[i as int].config.hash == h
                && i == proposal_index(self@, h),
            r is None <==> !has_proposal(self@, h),
    {
        let mut i: usize = 0;
        while i < self.proposals.len()
            invariant
                i <= self@.proposals.len(),
                ledger_wf(self@),
                self@.proposals.len() == self.proposals@.len(),
                forall|j: int| 0 <= j < i ==> self@.proposals[j].config.hash != h,
            decreases self.proposals@.len() - i,
        {
            if self.proposals[i].config.hash == h {
                assert(self@.proposals[i as int].config.hash == h);
                assert(has_proposal(self@, h));
                let ghost pi = proposal_index(self@, h);
                assert(self@.proposals[pi].config.hash == self@.proposals[i as int].config.hash);
                return Some(i);
            }
            i = i + 1;
        }
        None
    }

    /// Applies a proposal transaction. `signature_valid` is the outcome of
    /// checking `tx.signature` over the transaction.
    pub fn propose(&mut self, tx: ProposeTx, signature_valid: bool) -> (r: Result<ApiResponseProposePost, GovError>)
        requires
            ledger_wf(old(self)@),
        ensures
            ledger_wf(final(self)@),
            propose_error(old(self)@, tx.from, tx.config@, signature_valid) matches Some(e)
                ==> r == Err::<ApiResponseProposePost, GovError>(e) && final(self)@ == old(self)@,
            propose_error(old(self)@, tx.from, tx.config@, signature_valid) is None ==> r == Ok::<ApiResponseProposePost, GovError>(
                (ApiResponseProposePost { tx_hash: tx.tx_hash, cfg_hash: tx.config.hash }),
            ) && final(self)@ == after_propose(old(self)@, tx.from, tx.config@, tx.signature, tx.tx_hash),
    {
        if !signature_valid {
            return Err(GovError::SignatureInvalid);
        }
        if !config_is_well_formed(&tx.config) {
            return Err(GovError::MalformedConfiguration);
        }
        if self.find_proposal(tx.config.hash).is_some() || self.find_committed(tx.config.hash).is_some() {
            return Err(GovError::DuplicateProposal);
        }
        let pred = match self.find_committed(tx.config.previous_cfg_hash) {
            None => {
                return Err(GovError::UnknownPredecessor);
            },
            Some(i) => i,
        };
        if tx.config.actual_from <= self.committed[pred].actual_from {
            return Err(GovError::NonMonotonicActivation);
        }
        if position_of(&self.committed[pred].validators, tx.from).is_none() {
            return Err(GovError::NotAValidator);
        }
        let voters = copy_vec(&self.committed[pred].validators);
        let n = voters.len();
        let mut votes: Vec<Option<Vote>> = Vec::new();
        let mut i: usize = 0;
        while i < n
            invariant
                i <= n,
                votes@ =~= Seq::new(i as nat, |k: int| None::<Vote>),
            decreases n - i,
        {
            votes.push(None);
            i = i + 1;
        }
        let receipt = ApiResponseProposePost { tx_hash: tx.tx_hash, cfg_hash: tx.config.hash };
        let ghost m = self@;
        let p = Proposal {
            config: tx.config,
            proposer: tx.from,
            signature: tx.signature,
            tx_hash: tx.tx_hash,
            voters,
            votes,
        };
        self.proposals.push(p);
        proof {
            let m2 = after_propose(m, tx.from, p.config@, tx.signature, tx.tx_hash);
            assert(p@.votes =~= Seq::new(p@.voters.len(), |k: int| None::<Vote>));
            assert(self@.proposals =~= m.proposals.push(p@));
            assert(self@.committed =~= m.committed);
            assert(self@ == m2);
            assert(m.committed[pred as int].hash == p.config.previous_cfg_hash);
            assert(well_formed_config(m.committed[pred as int]));
            assert(proposal_wf(m2, p@));
            assert forall|a: int| 0 <= a < m2.proposals.len() implies proposal_wf(m2, #[trigger] m2.proposals[a]) by {
                if a < m.proposals.len() {
                    assert(m2.proposals[a] == m.proposals[a]);
                    assert(proposal_wf(m, m.proposals[a]));
                }
            }
            assert forall|a: int, b: int|
                0 <= a < m2.proposals.len() && 0 <= b < m2.proposals.len() && a != b
                implies #[trigger] m2.proposals[a].config.hash != #[trigger] m2.proposals[b].config.hash by {
                if a == m.proposals.len() as int {
                    assert(m.proposals[b].config.hash != p.config.hash);
                } else if b == m.proposals.len() as int {
                    assert(m.proposals[a].config.hash != p.config.hash);
                }
            }
        }
        Ok(receipt)
    }

    /// Applies a vote transaction. `signature_valid` is the outcome of checking
    /// `tx.signature` over the transaction.
    pub fn vote(&mut self, tx: VoteTx, signature_valid: bool) -> (r: Result<ApiResponseVotePost, GovError>)
        requires
            ledger_wf(old(self)@),
        ensures
            ledger_wf(final(self)@),
            vote_error(old(self)@, tx, signature_valid) matches Some(e)
                ==> r == Err::<ApiResponseVotePost, GovError>(e) && final(self)@ == old(self)@,
            vote_error(old(self)@, tx, signature_valid) is None ==> r == Ok::<ApiResponseVotePost, GovError>(
                (ApiResponseVotePost { tx_hash: tx.tx_hash }),
            ) && final(self)@ == after_vote(old(self)@, tx),
    {
        if !signature_valid {
            return Err(GovError::SignatureInvalid);
        }
        let pi = match self.find_proposal(tx.cfg_hash) {
            None => {
                return Err(GovError::UnknownProposal);
            },
            Some(i) => i,
        };
        let ghost m = self@;
        let ghost p = m.proposals[pi as int];
        assert(proposal_wf(m, p));
        let vi = match position_of(&self.proposals[pi].voters, tx.voter) {
            None => {
                return Err(GovError::NotAValidator);
            },
            Some(i) => i,
        };
        proof {
            let si = slot_index(p.voters, tx.voter);
            assert(p.voters[vi as int] == tx.voter);
            assert(p.voters[si] == tx.voter);
        }
        if self.proposals[pi].votes[vi].is_some() {
            return Err(GovError::DuplicateVote);
        }
        let count = count_filled(&self.proposals[pi].votes);
        let total = self.proposals[pi].votes.len();
        let already = self.find_committed(tx.cfg_hash).is_some();
        let commits = !already && 3 * (count as u128 + 1) > 2 * (total as u128);
        assert(commits == vote_commits(m, tx));
        let last = self.committed.len() - 1;
        if commits && self.proposals[pi].config.actual_from <= self.committed[last].actual_from {
            return Err(GovError::ActivationConflict);
        }
        self.proposals[pi].votes[vi] = Some(tx);
        if commits {
            let c = self.proposals[pi].config.copied();
            self.committed.push(c);
        }
        proof {
            assert(self@ =~= after_vote(m, tx)) by {
                assert(self@.proposals =~= after_vote(m, tx).proposals);
                assert(self@.committed =~= after_vote(m, tx).committed);
            }
            lemma_after_vote_wf(m, tx);
        }
        Ok(ApiResponseVotePost { tx_hash: tx.tx_hash })
    }

    /// A point-in-time copy of the ledger for readers.
    pub fn snapshot(&self) -> (r: GovernanceLedger)
        ensures
            r@ == self@,
    {
        let mut committed: Vec<Configuration> = Vec::new();
        let mut i: usize = 0;
        while i < self.committed.len()
            invariant
                i <= self.committed@.len(),
                committed@.len() == i,
                forall|k: int| 0 <= k < i ==> (#[trigger] committed@[k])@ == self.committed@[k]@,
            decreases self.committed@.len() - i,
        {
            committed.push(self.committed[i].copied());
            i = i + 1;
        }
        let mut proposals: Vec<Proposal> = Vec::new();
        let mut j: usize = 0;
        while j < self.proposals.len()
            invariant
                j <= self.proposals@.len(),
                proposals@.len() == j,
                forall|k: int| 0 <= k < j ==> (#[trigger] proposals@[k])@ == self.proposals@[k]@,
            decreases self.proposals@.len() - j,
        {
            proposals.push(self.proposals[j].copied());
            j = j + 1;
        }
        let r = GovernanceLedger { committed, proposals };
        assert(r@.committed =~= self@.committed);
        assert(r@.proposals =~= self@.proposals);
        r
    }

    pub fn committed_len(&self) -> (r: usize)
        ensures
            r == self@.committed.len(),
    {
        self.committed.len()
    }

    pub fn committed_at(&self, i: usize) -> (r: &Configuration)
        requires
            i < self@.committed.len(),
        ensures
            r@ == self@.committed[i as int],
    {
        &self.committed[i]
    }

    pub fn proposals_len(&self) -> (r: usize)
        ensures
            r == self@.proposals.len(),
    {
        self.proposals.len()
    }

    pub fn proposal_at(&self, i: usize) -> (r: &Proposal)
        requires
            i < self@.proposals.len(),
        ensures
            r@ == self@.proposals[i as int],
    {
        &self.proposals[i]
    }

    /// Where the proposal for `h` stands, or `None` if nothing was proposed under `h`.
    pub fn proposal_state(&self, h: Digest) -> (r: Option<ProposalState>)
        requires
            ledger_wf(self@),
        ensures
            r == state_of(self@, h),
    {
        match self.find_proposal(h) {
            None => None,
            Some(pi) => {
                if self.find_committed(h).is_some() {
                    Some(ProposalState::Committed)
                } else {
                    let count = count_filled(&self.proposals[pi].votes);
                    let total = self.proposals[pi].votes.len();
                    if 3 * (count as u128) > 2 * (total as u128) {
                        Some(ProposalState::QuorumReached)
                    } else {
                        Some(ProposalState::Proposed)
                    }
                }
            },
        }
    }

    /// Number of leading committed configurations whose activation height is
    /// at most `h`.
    fn activated_prefix(&self, h: u64) -> (r: usize)
        requires
            ledger_wf(self@),
        ensures
            r <= self@.committed.len(),
            forall|j: int| 0 <= j < r ==> #[trigger] self@.committed[j].actual_from <= h,
            forall|j: int| r <= j < self@.committed.len() ==> #[trigger] self@.committed[j].actual_from > h,
    {
        let mut i: usize = 0;
        while i < self.committed.len() && self.committed[i].actual_from <= h
            invariant
                i <= self@.committed.len(),
                self@.committed.len() == self.committed@.len(),
                ledger_wf(self@),
                forall|j: int| 0 <= j < i ==> #[trigger] self@.committed[j].actual_from <= h,
            decreases self.committed@.len() - i,
        {
            i = i + 1;
        }
        assert forall|j: int| i <= j < self@.committed.len() implies #[trigger] self@.committed[j].actual_from > h by {
            if i < j {
                assert(self@.committed[i as int].actual_from < self@.committed[j].actual_from);
            }
        }
        i
    }

    /// The configuration active at height `h`: the committed one with the
    /// greatest activation height not above `h`. There is none only below the
    /// genesis activation height.
    pub fn active_at(&self, h: u64) -> (r: Option<Configuration>)
        requires
            ledger_wf(self@),
        ensures
            r is Some <==> self@.committed[0].actual_from <= h,
            r matches Some(c) ==> exists|i: int| active_at_index(self@, i, h) && c@ == self@.committed[i],
    {
        let i = self.activated_prefix(h);
        if i == 0 {
            None
        } else {
            let c = self.committed[i - 1].copied();
            assert forall|j: int| 0 <= j < self@.committed.len() && #[trigger] self@.committed[j].actual_from <= h
                implies self@.committed[j].actual_from <= self@.committed[i - 1].actual_from by {
                if j < i - 1 {
                    assert(self@.committed[j].actual_from < self@.committed[i - 1].actual_from);
                }
            }
            assert(active_at_index(self@, i - 1, h));
            Some(c)
        }
    }

    /// The following configuration after height `h`: the committed one with the
    /// least activation height above `h`, if one is scheduled.
    pub fn next_after(&self, h: u64) -> (r: Option<Configuration>)
        requires
            ledger_wf(self@),
        ensures
            r is Some <==> self@.committed.last().actual_from > h,
            r matches Some(c) ==> exists|i: int| following_at_index(self@, i, h) && c@ == self@.committed[i],
    {
        let i = self.activated_prefix(h);
        if i == self.committed.len() {
            None
        } else {
            let c = self.committed[i].copied();
            assert forall|j: int| 0 <= j < self@.committed.len() && #[trigger] self@.committed[j].actual_from > h
                implies self@.committed[i as int].actual_from <= self@.committed[j].actual_from by {
                if i < j {
                    assert(self@.committed[i as int].actual_from < self@.committed[j].actual_from);
                }
            }
            assert(following_at_index(self@, i as int, h));
            Some(c)
        }
    }

    /// Applies a governance transaction and returns its hash.
    /// `signature_valid` is the outcome of checking its signature.
    pub fn apply(&mut self, tx: ConfigTx, signature_valid: bool) -> (r: Result<Digest, GovError>)
        requires
            ledger_wf(old(self)@),
        ensures
            ledger_wf(final(self)@),
            match tx {
                ConfigTx::Propose(p) => {
                    &&& (propose_error(old(self)@, p.from, p.config@, signature_valid) matches Some(e)
                        ==> r == Err::<Digest, GovError>(e) && final(self)@ == old(self)@)
                    &&& (propose_error(old(self)@, p.from, p.config@, signature_valid) is None
                        ==> r == Ok::<Digest, GovError>(p.tx_hash)
                            && final(self)@ == after_propose(old(self)@, p.from, p.config@, p.signature, p.tx_hash))
                },
                ConfigTx::Vote(v) => {
                    &&& (vote_error(old(self)@, v, signature_valid) matches Some(e)
                        ==> r == Err::<Digest, GovError>(e) && final(self)@ == old(self)@)
                    &&& (vote_error(old(self)@, v, signature_valid) is None
                        ==> r == Ok::<Digest, GovError>(v.tx_hash) && final(self)@ == after_vote(old(self)@, v))
                },
            },
    {
        match tx {
            ConfigTx::Propose(p) => match self.propose(p, signature_valid) {
                Ok(receipt) => Ok(receipt.tx_hash),
                Err(e) => Err(e),
            },
            ConfigTx::Vote(v) => match self.vote(v, signature_valid) {
                Ok(receipt) => Ok(receipt.tx_hash),
                Err(e) => Err(e),
            },
        }
    }
}

} // verus!

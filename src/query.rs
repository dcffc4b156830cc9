use vstd::prelude::*;
use crate::types::{ConfigView, Configuration, Digest, Vote, copy_vec};
use crate::ledger::{
    GovernanceLedger, LedgerModel, Proposal, ProposalView, active_at_index, committed_index,
    following_at_index, has_proposal, is_committed, ledger_wf, proposal_index,
};

verus! {

/// A configuration with its proof trail: the hash of the transaction that
/// proposed it and its vote slots, where it was proposed.
#[derive(Debug)]
pub struct ApiResponseConfigHashInfo {
    pub hash: Digest,
    pub config: Configuration,
    pub propose: Option<Digest>,
    pub votes: Option<Vec<Option<Vote>>>,
}

/// A proposal under the hash of its configuration.
#[derive(Debug)]
pub struct ApiResponseProposeHashInfo {
    pub hash: Digest,
    pub propose_data: Proposal,
}

/// What the ledger knows of one configuration hash.
#[derive(Debug)]
pub struct ApiResponseConfigInfo {
    pub committed_config: Option<Configuration>,
    pub propose: Option<Proposal>,
}

/// Read access to a snapshot of the governance ledger.
#[derive(Debug)]
pub struct PublicConfigApi {
    pub ledger: GovernanceLedger,
}

/// The record passes every filter that is given.
pub open spec fn passes(c: ConfigView, previous_cfg_hash: Option<Digest>, actual_from: Option<u64>) -> bool {
    &&& (previous_cfg_hash matches Some(x) ==> c.previous_cfg_hash == x)
    &&& (actual_from matches Some(h) ==> c.actual_from >= h)
}

/// The proposals that pass the filters, in their order.
pub open spec fn filtered_proposals(
    ps: Seq<ProposalView>,
    previous_cfg_hash: Option<Digest>,
    actual_from: Option<u64>,
) -> Seq<ProposalView>
    decreases ps.len(),
{
    if ps.len() == 0 {
        Seq::empty()
    } else {
        let rest = filtered_proposals(ps.drop_last(), previous_cfg_hash, actual_from);
        if passes(ps.last().config, previous_cfg_hash, actual_from) {
            rest.push(ps.last())
        } else {
            rest
        }
    }
}

/// The configurations that pass the filters, in their order.
pub open spec fn filtered_configs(
    cs: Seq<ConfigView>,
    previous_cfg_hash: Option<Digest>,
    actual_from: Option<u64>,
) -> Seq<ConfigView>
    decreases cs.len(),
{
    if cs.len() == 0 {
        Seq::empty()
    } else {
        let rest = filtered_configs(cs.drop_last(), previous_cfg_hash, actual_from);
        if passes(cs.last(), previous_cfg_hash, actual_from) {
            rest.push(cs.last())
        } else {
            rest
        }
    }
}

/// The vote slots of the proposal for `h`, if there is one.
pub open spec fn votes_of(m: LedgerModel, h: Digest) -> Option<Seq<Option<Vote>>> {
    if has_proposal(m, h) {
        Some(m.proposals[proposal_index(m, h)].votes)
    } else {
        None
    }
}

pub open spec fn opt_votes_view(v: Option<Vec<Option<Vote>>>) -> Option<Seq<Option<Vote>>> {
    match v {
        Some(x) => Some(x@),
        None => None,
    }
}

/// `r` is `c` with its proof trail as the ledger `m` holds it.
pub open spec fn with_proofs(m: LedgerModel, c: ConfigView, r: ApiResponseConfigHashInfo) -> bool {
    &&& r.hash == c.hash
    &&& r.config@ == c
    &&& r.propose == if has_proposal(m, c.hash) {
        Some(m.proposals[proposal_index(m, c.hash)].tx_hash)
    } else {
        None
    }
    &&& opt_votes_view(r.votes) == votes_of(m, c.hash)
}

/// Whether `cfg` passes every filter that is given.
pub fn filter_cfg_predicate(cfg: &Configuration, previous_cfg_hash: Option<Digest>, actual_from: Option<u64>) -> (r: bool)
    ensures
        r == passes(cfg@, previous_cfg_hash, actual_from),
{
    if let Some(prev_ref) = previous_cfg_hash {
        if cfg.previous_cfg_hash != prev_ref {
            return false;
        }
    }
    if let Some(from_height) = actual_from {
        if cfg.actual_from < from_height {
            return false;
        }
    }
    true
}

impl PublicConfigApi {
    /// The vote slots of the proposal for `config_hash`, if there is one.
    pub fn get_votes_for_propose(&self, config_hash: Digest) -> (r: Option<Vec<Option<Vote>>>)
        requires
            ledger_wf(self.ledger@),
        ensures
            opt_votes_view(r) == votes_of(self.ledger@, config_hash),
    {
        match self.ledger.find_proposal(config_hash) {
            None => None,
            Some(i) => Some(copy_vec(&self.ledger.proposal_at(i).votes)),
        }
    }

    pub fn get_config_with_proofs(&self, config: Configuration) -> (r: ApiResponseConfigHashInfo)
        requires
            ledger_wf(self.ledger@),
        ensures
            with_proofs(self.ledger@, config@, r),
    {
        let propose = match self.ledger.find_proposal(config.hash) {
            None => None,
            Some(i) => Some(self.ledger.proposal_at(i).tx_hash),
        };
        let votes = self.get_votes_for_propose(config.hash);
        ApiResponseConfigHashInfo { hash: config.hash, config, propose, votes }
    }

    /// The configuration active at `height`, with its proof trail.
    pub fn get_actual_config(&self, height: u64) -> (r: Option<ApiResponseConfigHashInfo>)
        requires
            ledger_wf(self.ledger@),
        ensures
            r is Some <==> self.ledger@.committed[0].actual_from <= height,
            r matches Some(info) ==> exists|i: int|
                active_at_index(self.ledger@, i, height) && with_proofs(self.ledger@, self.ledger@.committed[i], info),
    {
        match self.ledger.active_at(height) {
            None => None,
            Some(c) => Some(self.get_config_with_proofs(c)),
        }
    }

    /// The configuration that follows `height`, with its proof trail, if one is scheduled.
    pub fn get_following_config(&self, height: u64) -> (r: Option<ApiResponseConfigHashInfo>)
        requires
            ledger_wf(self.ledger@),
        ensures
            r is Some <==> self.ledger@.committed.last().actual_from > height,
            r matches Some(info) ==> exists|i: int|
                following_at_index(self.ledger@, i, height) && with_proofs(self.ledger@, self.ledger@.committed[i], info),
    {
        match self.ledger.next_after(height) {
            None => None,
            Some(c) => Some(self.get_config_with_proofs(c)),
        }
    }

    /// The committed configuration and the proposal under `hash`, each if there is one.
    pub fn get_config_by_hash(&self, hash: Digest) -> (r: ApiResponseConfigInfo)
        requires
            ledger_wf(self.ledger@),
        ensures
            r.committed_config is Some <==> is_committed(self.ledger@, hash),
            r.committed_config matches Some(c) ==> c@ == self.ledger@.committed[committed_index(self.ledger@, hash)],
            r.propose is Some <==> has_proposal(self.ledger@, hash),
            r.propose matches Some(p) ==> p@ == self.ledger@.proposals[proposal_index(self.ledger@, hash)],
    {
        let committed_config = match self.ledger.find_committed(hash) {
            None => None,
            Some(i) => Some(self.ledger.committed_at(i).copied()),
        };
        let propose = match self.ledger.find_proposal(hash) {
            None => None,
            Some(i) => Some(self.ledger.proposal_at(i).copied()),
        };
        ApiResponseConfigInfo { committed_config, propose }
    }

    /// Every proposal, in submission order, that passes the filters.
    pub fn get_all_proposes(&self, previous_cfg_hash: Option<Digest>, actual_from: Option<u64>) -> (r: Vec<ApiResponseProposeHashInfo>)
        requires
            ledger_wf(self.ledger@),
        ensures
            r@.len() == filtered_proposals(self.ledger@.proposals, previous_cfg_hash, actual_from).len(),
            forall|i: int| 0 <= i < r@.len() ==> {
                let p = #[trigger] filtered_proposals(self.ledger@.proposals, previous_cfg_hash, actual_from)[i];
                r@[i].hash == p.config.hash && r@[i].propose_data@ == p
            },
    {
        let ghost ps = self.ledger@.proposals;
        let mut r: Vec<ApiResponseProposeHashInfo> = Vec::new();
        let n = self.ledger.proposals_len();
        let mut i: usize = 0;
        while i < n
            invariant
                i <= n == ps.len(),
                ps == self.ledger@.proposals,
                r@.len() == filtered_proposals(ps.subrange(0, i as int), previous_cfg_hash, actual_from).len(),
                forall|k: int| 0 <= k < r@.len() ==> {
                    let p = #[trigger] filtered_proposals(ps.subrange(0, i as int), previous_cfg_hash, actual_from)[k];
                    r@[k].hash == p.config.hash && r@[k].propose_data@ == p
                },
            decreases n - i,
        {
            let p = self.ledger.proposal_at(i);
            assert(ps.subrange(0, i + 1).drop_last() =~= ps.subrange(0, i as int));
            if filter_cfg_predicate(&p.config, previous_cfg_hash, actual_from) {
                r.push(ApiResponseProposeHashInfo { hash: p.config.hash, propose_data: p.copied() });
            }
            i = i + 1;
        }
        assert(ps.subrange(0, n as int) =~= ps);
        r
    }

    /// Every committed configuration, in activation order, that passes the
    /// filters, each with its proof trail.
    pub fn get_all_committed(&self, previous_cfg_hash: Option<Digest>, actual_from: Option<u64>) -> (r: Vec<ApiResponseConfigHashInfo>)
        requires
            ledger_wf(self.ledger@),
        ensures
            r@.len() == filtered_configs(self.ledger@.committed, previous_cfg_hash, actual_from).len(),
            forall|i: int| 0 <= i < r@.len() ==> with_proofs(
                self.ledger@,
                #[trigger] filtered_configs(self.ledger@.committed, previous_cfg_hash, actual_from)[i],
                r@[i],
            ),
    {
        let ghost cs = self.ledger@.committed;
        let mut r: Vec<ApiResponseConfigHashInfo> = Vec::new();
        let n = self.ledger.committed_len();
        let mut i: usize = 0;
        while i < n
            invariant
                i <= n == cs.len(),
                cs == self.ledger@.committed,
                ledger_wf(self.ledger@),
                r@.len() == filtered_configs(cs.subrange(0, i as int), previous_cfg_hash, actual_from).len(),
                forall|k: int| 0 <= k < r@.len() ==> with_proofs(
                    self.ledger@,
                    #[trigger] filtered_configs(cs.subrange(0, i as int), previous_cfg_hash, actual_from)[k],
                    r@[k],
                ),
            decreases n - i,
        {
            let c = self.ledger.committed_at(i);
            assert(cs.subrange(0, i + 1).drop_last() =~= cs.subrange(0, i as int));
            if filter_cfg_predicate(c, previous_cfg_hash, actual_from) {
                let info = self.get_config_with_proofs(c.copied());
                r.push(info);
            }
            i = i + 1;
        }
        assert(cs.subrange(0, n as int) =~= cs);
        r
    }
}

} // verus!

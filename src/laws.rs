use vstd::prelude::*;
use crate::types::{ConfigView, Digest, GovError, ProposalState, PublicKey, Signature, VoteTx, well_formed_config};
use crate::ledger::{
    LedgerModel, active_at_index, after_propose, after_vote, filled, has_proposal, is_committed,
    lemma_after_vote_wf, ledger_wf, propose_error, proposal_index, proposal_wf, slot_index,
    state_of, vote_error, ProposalView,
};
use crate::query::{filtered_configs, filtered_proposals, passes};

verus! {

/// A configuration that names another committed one as its predecessor
/// activates strictly later than it.
pub proof fn lemma_chain_monotonic(m: LedgerModel, i: int, j: int)
    requires
        ledger_wf(m),
        0 <= i < m.committed.len(),
        0 <= j < m.committed.len(),
        m.committed[j].previous_cfg_hash == m.committed[i].hash,
    ensures
        m.committed[i].actual_from < m.committed[j].actual_from,
{
    assert(well_formed_config(m.committed[i]));
    if j > 0 {
        let k = choose|k: int|
            0 <= k < j && #[trigger] m.committed[k].hash == (#[trigger] m.committed[j]).previous_cfg_hash;
        assert(m.committed[k].hash == m.committed[i].hash);
    }
}

proof fn lemma_last_activated(s: Seq<ConfigView>, h: u64) -> (i: int)
    requires
        s.len() > 0,
        s[0].actual_from <= h,
    ensures
        0 <= i < s.len(),
        s[i].actual_from <= h,
        forall|j: int| 0 <= j < s.len() && #[trigger] s[j].actual_from <= h ==> j <= i,
    decreases s.len(),
{
    if s.last().actual_from <= h {
        s.len() - 1
    } else {
        let i = lemma_last_activated(s.drop_last(), h);
        assert forall|j: int| 0 <= j < s.len() && #[trigger] s[j].actual_from <= h implies j <= i by {
            if j < s.len() - 1 {
                assert(s.drop_last()[j] == s[j]);
            }
        }
        i
    }
}

/// From the genesis activation height on, exactly one committed configuration
/// is the active one; below it there is none.
pub proof fn lemma_active_unique(m: LedgerModel, h: u64)
    requires
        ledger_wf(m),
    ensures
        (exists|i: int| active_at_index(m, i, h)) <==> m.committed[0].actual_from <= h,
        forall|i: int, k: int| active_at_index(m, i, h) && active_at_index(m, k, h) ==> i == k,
{
    if m.committed[0].actual_from <= h {
        let i = lemma_last_activated(m.committed, h);
        assert forall|j: int| 0 <= j < m.committed.len() && #[trigger] m.committed[j].actual_from <= h
            implies m.committed[j].actual_from <= m.committed[i].actual_from by {
            if j < i {
                assert(m.committed[j].actual_from < m.committed[i].actual_from);
            }
        }
        assert(active_at_index(m, i, h));
    } else {
        assert forall|i: int| !active_at_index(m, i, h) by {
            if 0 < i < m.committed.len() {
                assert(m.committed[0].actual_from < m.committed[i].actual_from);
            }
        }
    }
    assert forall|i: int, k: int| active_at_index(m, i, h) && active_at_index(m, k, h) implies i == k by {
        if i < k {
            assert(m.committed[i].actual_from < m.committed[k].actual_from);
        } else if k < i {
            assert(m.committed[k].actual_from < m.committed[i].actual_from);
        }
    }
}

proof fn lemma_proposal_index_kept(m: LedgerModel, v: VoteTx, h: Digest)
    requires
        ledger_wf(m),
        vote_error(m, v, true) is None,
        has_proposal(m, h),
    ensures
        has_proposal(after_vote(m, v), h),
        proposal_index(after_vote(m, v), h) == proposal_index(m, h),
{
    let m2 = after_vote(m, v);
    lemma_after_vote_wf(m, v);
    let i = proposal_index(m, h);
    assert(m2.proposals[i].config.hash == h);
    let i2 = proposal_index(m2, h);
    assert(m2.proposals[i2].config.hash == m2.proposals[i].config.hash);
}

/// A second vote of the same validator for the same configuration is rejected
/// as a duplicate, once the first was accepted.
pub proof fn lemma_duplicate_vote(m: LedgerModel, v: VoteTx, w: VoteTx)
    requires
        ledger_wf(m),
        vote_error(m, v, true) is None,
        w.cfg_hash == v.cfg_hash,
        w.voter == v.voter,
    ensures
        vote_error(after_vote(m, v), w, true) == Some(GovError::DuplicateVote),
{
    let m2 = after_vote(m, v);
    let pi = proposal_index(m, v.cfg_hash);
    let p = m.proposals[pi];
    assert(proposal_wf(m, p));
    lemma_proposal_index_kept(m, v, v.cfg_hash);
    let updated = m2.proposals[pi];
    let si = slot_index(p.voters, v.voter);
    assert(updated.voters == p.voters);
    assert(updated.voters[si] == v.voter);
    assert(updated.voters.contains(w.voter));
}

/// Filling an empty slot adds one to the number of filled slots.
pub proof fn lemma_filled_update(votes: Seq<Option<crate::types::Vote>>, k: int, x: crate::types::Vote)
    requires
        0 <= k < votes.len(),
        votes[k] is None,
    ensures
        filled(votes.update(k, Some(x))) == filled(votes) + 1,
    decreases votes.len(),
{
    let u = votes.update(k, Some(x));
    if k == votes.len() - 1 {
        assert(u.drop_last() =~= votes.drop_last());
    } else {
        lemma_filled_update(votes.drop_last(), k, x);
        assert(u.drop_last() =~= votes.drop_last().update(k, Some(x)));
    }
}

/// The ledger after a vote transaction, whether it was accepted or rejected.
pub open spec fn apply_vote(m: LedgerModel, v: VoteTx, signature_valid: bool) -> LedgerModel {
    if vote_error(m, v, signature_valid) is None {
        after_vote(m, v)
    } else {
        m
    }
}

/// The ledger after a sequence of vote transactions, each with the outcome of
/// its signature check.
pub open spec fn apply_votes(m: LedgerModel, vs: Seq<(VoteTx, bool)>) -> LedgerModel
    decreases vs.len(),
{
    if vs.len() == 0 {
        m
    } else {
        apply_vote(apply_votes(m, vs.drop_last()), vs.last().0, vs.last().1)
    }
}

pub open spec fn past_quorum(s: Option<ProposalState>) -> bool {
    s == Some(ProposalState::QuorumReached) || s == Some(ProposalState::Committed)
}

/// One vote transaction never takes a proposal back below quorum, and a
/// committed one stays committed.
pub proof fn lemma_quorum_step(m: LedgerModel, v: VoteTx, signature_valid: bool, h: Digest)
    requires
        ledger_wf(m),
    ensures
        ledger_wf(apply_vote(m, v, signature_valid)),
        past_quorum(state_of(m, h)) ==> past_quorum(state_of(apply_vote(m, v, signature_valid), h)),
        state_of(m, h) == Some(ProposalState::Committed) ==> state_of(apply_vote(m, v, signature_valid), h)
            == Some(ProposalState::Committed),
{
    if vote_error(m, v, signature_valid) is None {
        assert(signature_valid);
        let m2 = after_vote(m, v);
        lemma_after_vote_wf(m, v);
        if has_proposal(m, h) {
            lemma_proposal_index_kept(m, v, h);
            if is_committed(m, h) {
                let c = choose|i: int| 0 <= i < m.committed.len() && m.committed[i].hash == h;
                assert(m2.committed[c] == m.committed[c]);
            }
            let i = proposal_index(m, h);
            let vi = proposal_index(m, v.cfg_hash);
            if i == vi {
                let p = m.proposals[i];
                let k = slot_index(p.voters, v.voter);
                lemma_filled_update(p.votes, k, v);
            }
        }
    }
}

/// No sequence of further votes takes a proposal back below quorum.
pub proof fn lemma_quorum_monotonic(m: LedgerModel, vs: Seq<(VoteTx, bool)>, h: Digest)
    requires
        ledger_wf(m),
        past_quorum(state_of(m, h)),
    ensures
        ledger_wf(apply_votes(m, vs)),
        past_quorum(state_of(apply_votes(m, vs), h)),
    decreases vs.len(),
{
    if vs.len() > 0 {
        lemma_quorum_monotonic(m, vs.drop_last(), h);
        lemma_quorum_step(apply_votes(m, vs.drop_last()), vs.last().0, vs.last().1, h);
    }
}

/// Once a configuration was proposed, proposing the same configuration again
/// is rejected as a duplicate.
pub proof fn lemma_duplicate_proposal(
    m: LedgerModel,
    from: PublicKey,
    c: ConfigView,
    signature: Signature,
    tx_hash: Digest,
    from2: PublicKey,
)
    requires
        ledger_wf(m),
        propose_error(m, from, c, true) is None,
    ensures
        propose_error(after_propose(m, from, c, signature, tx_hash), from2, c, true)
            == Some(GovError::DuplicateProposal),
{
    let m2 = after_propose(m, from, c, signature, tx_hash);
    assert(m2.proposals[m.proposals.len() as int].config.hash == c.hash);
}

/// Listing committed configurations with filters returns only configurations
/// of the ledger that pass every filter given, and filtering by predecessor and
/// by least activation height at once is filtering by one, then by the other.
pub proof fn lemma_filter_committed(cs: Seq<ConfigView>, previous_cfg_hash: Option<Digest>, actual_from: Option<u64>)
    ensures
        forall|i: int| 0 <= i < filtered_configs(cs, previous_cfg_hash, actual_from).len() ==> {
            let c = #[trigger] filtered_configs(cs, previous_cfg_hash, actual_from)[i];
            passes(c, previous_cfg_hash, actual_from) && cs.contains(c)
        },
        filtered_configs(cs, previous_cfg_hash, actual_from) == filtered_configs(
            filtered_configs(cs, previous_cfg_hash, None),
            None,
            actual_from,
        ),
    decreases cs.len(),
{
    if cs.len() > 0 {
        let d = cs.drop_last();
        let x = cs.last();
        lemma_filter_committed(d, previous_cfg_hash, actual_from);
        let f = filtered_configs(cs, previous_cfg_hash, actual_from);
        let fd = filtered_configs(d, previous_cfg_hash, actual_from);
        assert forall|i: int| 0 <= i < f.len() implies passes(#[trigger] f[i], previous_cfg_hash, actual_from) && cs.contains(f[i]) by {
            if i < fd.len() {
                assert(f[i] == fd[i]);
                let k = choose|k: int| 0 <= k < d.len() && d[k] == fd[i];
                assert(cs[k] == d[k]);
            } else {
                assert(f[i] == x);
                assert(cs[cs.len() - 1] == x);
            }
        }
        let f1 = filtered_configs(d, previous_cfg_hash, None);
        if passes(x, previous_cfg_hash, None) {
            assert(f1.push(x).drop_last() =~= f1);
        }
    }
}

/// Listing proposals with filters returns only proposals of the ledger whose
/// configuration passes every filter given, and filtering by predecessor and
/// by least activation height at once is filtering by one, then by the other.
pub proof fn lemma_filter_proposals(ps: Seq<ProposalView>, previous_cfg_hash: Option<Digest>, actual_from: Option<u64>)
    ensures
        forall|i: int| 0 <= i < filtered_proposals(ps, previous_cfg_hash, actual_from).len() ==> {
            let p = #[trigger] filtered_proposals(ps, previous_cfg_hash, actual_from)[i];
            passes(p.config, previous_cfg_hash, actual_from) && ps.contains(p)
        },
        filtered_proposals(ps, previous_cfg_hash, actual_from) == filtered_proposals(
            filtered_proposals(ps, previous_cfg_hash, None),
            None,
            actual_from,
        ),
    decreases ps.len(),
{
    if ps.len() > 0 {
        let d = ps.drop_last();
        let x = ps.last();
        lemma_filter_proposals(d, previous_cfg_hash, actual_from);
        let f = filtered_proposals(ps, previous_cfg_hash, actual_from);
        let fd = filtered_proposals(d, previous_cfg_hash, actual_from);
        assert forall|i: int| 0 <= i < f.len() implies passes((#[trigger] f[i]).config, previous_cfg_hash, actual_from) && ps.contains(f[i]) by {
            if i < fd.len() {
                assert(f[i] == fd[i]);
                let k = choose|k: int| 0 <= k < d.len() && d[k] == fd[i];
                assert(ps[k] == d[k]);
            } else {
                assert(f[i] == x);
                assert(ps[ps.len() - 1] == x);
            }
        }
        let f1 = filtered_proposals(d, previous_cfg_hash, None);
        if passes(x.config, previous_cfg_hash, None) {
            assert(f1.push(x).drop_last() =~= f1);
        }
    }
}

} // verus!

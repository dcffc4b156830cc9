use config_governance::ledger::{GovernanceLedger, Proposal};
use config_governance::query::{filter_cfg_predicate, PublicConfigApi};
use config_governance::types::{
    Configuration, Digest, GovError, ProposalState, ProposeTx, PublicKey, Signature, Vote,
};

fn key(i: u64) -> PublicKey {
    PublicKey(i, 0, 0, 0)
}

fn digest(i: u64) -> Digest {
    Digest(i, 0, 0, 0)
}

fn sig() -> Signature {
    Signature { r: digest(7), s: digest(8) }
}

fn config(hash: u64, prev: Digest, actual_from: u64, validators: &[u64]) -> Configuration {
    Configuration {
        hash: digest(hash),
        previous_cfg_hash: prev,
        actual_from,
        validators: validators.iter().map(|&v| key(v)).collect(),
        params: vec![1, 2, 3],
    }
}

fn genesis_ledger() -> GovernanceLedger {
    GovernanceLedger::new(config(1, Digest::zero(), 0, &[10, 11, 12, 13])).unwrap()
}

fn propose_tx(from: u64, cfg: Configuration, tx: u64) -> ProposeTx {
    ProposeTx { from: key(from), config: cfg, signature: sig(), tx_hash: digest(tx) }
}

fn vote_tx(voter: u64, cfg_hash: Digest, tx: u64) -> Vote {
    Vote { voter: key(voter), cfg_hash, signature: sig(), tx_hash: digest(tx) }
}

fn filled(p: &Proposal) -> usize {
    p.votes.iter().filter(|v| v.is_some()).count()
}

#[test]
fn three_of_four_votes_commit_and_activate() {
    let mut l = genesis_ledger();
    let a = config(2, digest(1), 100, &[10, 11, 12, 13]);
    let r = l.propose(propose_tx(10, a, 500), true).unwrap();
    assert_eq!(r.cfg_hash, digest(2));
    assert_eq!(r.tx_hash, digest(500));
    assert_eq!(l.proposal_state(digest(2)), Some(ProposalState::Proposed));
    assert_eq!(l.vote(vote_tx(10, digest(2), 601), true).unwrap().tx_hash, digest(601));
    l.vote(vote_tx(11, digest(2), 602), true).unwrap();
    assert_eq!(l.proposal_state(digest(2)), Some(ProposalState::Proposed));
    assert_eq!(l.committed_len(), 1);
    l.vote(vote_tx(12, digest(2), 603), true).unwrap();
    assert_eq!(l.proposal_state(digest(2)), Some(ProposalState::Committed));
    assert_eq!(l.committed_len(), 2);
    assert_eq!(l.next_after(50).unwrap().hash, digest(2));
    assert_eq!(l.active_at(150).unwrap().hash, digest(2));
    assert_eq!(l.active_at(50).unwrap().hash, digest(1));
    assert_eq!(l.active_at(100).unwrap().hash, digest(2));
    assert!(l.next_after(100).is_none());
}

#[test]
fn vote_from_outside_validator_set_is_rejected() {
    let mut l = genesis_ledger();
    l.propose(propose_tx(10, config(2, digest(1), 100, &[10, 11, 12, 13]), 500), true).unwrap();
    assert_eq!(l.vote(vote_tx(99, digest(2), 601), true), Err(GovError::NotAValidator));
    assert_eq!(filled(l.proposal_at(0)), 0);
}

#[test]
fn later_conflicting_commit_is_rejected() {
    let mut l = genesis_ledger();
    l.propose(propose_tx(10, config(2, digest(1), 100, &[10, 11, 12, 13]), 500), true).unwrap();
    l.propose(propose_tx(11, config(3, digest(1), 90, &[10, 11, 12]), 501), true).unwrap();
    for (i, v) in [10u64, 11, 12].iter().enumerate() {
        l.vote(vote_tx(*v, digest(2), 600 + i as u64), true).unwrap();
    }
    assert_eq!(l.proposal_state(digest(2)), Some(ProposalState::Committed));
    l.vote(vote_tx(10, digest(3), 700), true).unwrap();
    l.vote(vote_tx(11, digest(3), 701), true).unwrap();
    assert_eq!(l.vote(vote_tx(12, digest(3), 702), true), Err(GovError::ActivationConflict));
    assert_eq!(filled(l.proposal_at(1)), 2);
    assert_eq!(l.proposal_state(digest(3)), Some(ProposalState::Proposed));
    assert_eq!(l.committed_len(), 2);
    assert_eq!(l.active_at(95).unwrap().hash, digest(1));
}

#[test]
fn later_proposal_with_later_activation_commits() {
    let mut l = genesis_ledger();
    l.propose(propose_tx(10, config(2, digest(1), 100, &[10, 11, 12, 13]), 500), true).unwrap();
    l.propose(propose_tx(11, config(3, digest(1), 200, &[10, 11]), 501), true).unwrap();
    for v in [10u64, 11, 12] {
        l.vote(vote_tx(v, digest(2), 600 + v), true).unwrap();
        l.vote(vote_tx(v, digest(3), 700 + v), true).unwrap();
    }
    assert_eq!(l.proposal_state(digest(3)), Some(ProposalState::Committed));
    assert_eq!(l.active_at(150).unwrap().hash, digest(2));
    assert_eq!(l.active_at(250).unwrap().hash, digest(3));
    assert_eq!(l.next_after(100).unwrap().hash, digest(3));
}

#[test]
fn duplicate_vote_leaves_slots_unchanged() {
    let mut l = genesis_ledger();
    l.propose(propose_tx(10, config(2, digest(1), 100, &[10]), 500), true).unwrap();
    l.vote(vote_tx(11, digest(2), 601), true).unwrap();
    let before: Vec<Option<Vote>> = l.proposal_at(0).votes.clone();
    assert_eq!(l.vote(vote_tx(11, digest(2), 602), true), Err(GovError::DuplicateVote));
    assert_eq!(l.proposal_at(0).votes, before);
    assert_eq!(before[1].unwrap().tx_hash, digest(601));
}

#[test]
fn votes_after_commit_are_recorded_and_state_stays() {
    let mut l = genesis_ledger();
    l.propose(propose_tx(10, config(2, digest(1), 100, &[10]), 500), true).unwrap();
    for v in [10u64, 11, 12] {
        l.vote(vote_tx(v, digest(2), 600 + v), true).unwrap();
    }
    assert_eq!(l.proposal_state(digest(2)), Some(ProposalState::Committed));
    l.vote(vote_tx(13, digest(2), 613), true).unwrap();
    assert_eq!(l.proposal_state(digest(2)), Some(ProposalState::Committed));
    assert_eq!(filled(l.proposal_at(0)), 4);
    assert_eq!(l.committed_len(), 2);
}

#[test]
fn identical_proposal_is_a_duplicate() {
    let mut l = genesis_ledger();
    let first = l.propose(propose_tx(10, config(2, digest(1), 100, &[10]), 500), true).unwrap();
    let second = l.propose(propose_tx(11, config(2, digest(1), 100, &[10]), 501), true);
    assert_eq!(second, Err(GovError::DuplicateProposal));
    assert_eq!(first.cfg_hash, digest(2));
    assert_eq!(l.proposals_len(), 1);
    let genesis_again = l.propose(propose_tx(10, config(1, digest(1), 100, &[10]), 502), true);
    assert_eq!(genesis_again, Err(GovError::DuplicateProposal));
}

#[test]
fn proposal_errors() {
    let mut l = genesis_ledger();
    let good = || config(2, digest(1), 100, &[10]);
    assert_eq!(l.propose(propose_tx(10, good(), 500), false), Err(GovError::SignatureInvalid));
    assert_eq!(
        l.propose(propose_tx(10, config(2, digest(1), 100, &[]), 500), true),
        Err(GovError::MalformedConfiguration)
    );
    assert_eq!(
        l.propose(propose_tx(10, config(2, digest(1), 100, &[10, 11, 10]), 500), true),
        Err(GovError::MalformedConfiguration)
    );
    assert_eq!(
        l.propose(propose_tx(10, config(0, digest(1), 100, &[10]), 500), true),
        Err(GovError::MalformedConfiguration)
    );
    assert_eq!(
        l.propose(propose_tx(10, config(2, digest(9), 100, &[10]), 500), true),
        Err(GovError::UnknownPredecessor)
    );
    let genesis_later = GovernanceLedger::new(config(1, Digest::zero(), 50, &[10])).unwrap();
    let mut l2 = genesis_later;
    assert_eq!(
        l2.propose(propose_tx(10, config(2, digest(1), 50, &[10]), 500), true),
        Err(GovError::NonMonotonicActivation)
    );
    assert_eq!(
        l.propose(propose_tx(77, good(), 500), true),
        Err(GovError::NotAValidator)
    );
    assert_eq!(l.proposals_len(), 0);
    assert!(l.propose(propose_tx(13, good(), 500), true).is_ok());
}

#[test]
fn vote_errors() {
    let mut l = genesis_ledger();
    l.propose(propose_tx(10, config(2, digest(1), 100, &[10]), 500), true).unwrap();
    assert_eq!(l.vote(vote_tx(10, digest(5), 601), true), Err(GovError::UnknownProposal));
    assert_eq!(l.vote(vote_tx(10, digest(2), 601), false), Err(GovError::SignatureInvalid));
    assert_eq!(filled(l.proposal_at(0)), 0);
}

#[test]
fn voting_set_is_the_predecessor_validators() {
    let mut l = genesis_ledger();
    l.propose(propose_tx(10, config(2, digest(1), 100, &[50, 51]), 500), true).unwrap();
    assert_eq!(l.proposal_at(0).voters.len(), 4);
    assert_eq!(l.vote(vote_tx(50, digest(2), 601), true), Err(GovError::NotAValidator));
    for v in [10u64, 11, 12] {
        l.vote(vote_tx(v, digest(2), 600 + v), true).unwrap();
    }
    assert_eq!(
        l.propose(propose_tx(10, config(3, digest(2), 200, &[50]), 502), true),
        Err(GovError::NotAValidator)
    );
    l.propose(propose_tx(51, config(3, digest(2), 200, &[50]), 502), true).unwrap();
    assert_eq!(l.proposal_at(1).voters, vec![key(50), key(51)]);
}

#[test]
fn genesis_checks() {
    assert_eq!(
        GovernanceLedger::new(config(1, digest(3), 0, &[10])).unwrap_err(),
        GovError::MalformedConfiguration
    );
    assert_eq!(
        GovernanceLedger::new(config(1, Digest::zero(), 0, &[])).unwrap_err(),
        GovError::MalformedConfiguration
    );
    let l = GovernanceLedger::new(config(1, Digest::zero(), 10, &[10])).unwrap();
    assert!(l.active_at(9).is_none());
    assert_eq!(l.active_at(10).unwrap().hash, digest(1));
    assert_eq!(l.active_at(u64::MAX).unwrap().hash, digest(1));
    assert!(l.next_after(5).unwrap().hash == digest(1));
    assert!(l.next_after(10).is_none());
}

#[test]
fn quorum_threshold_for_three_validators() {
    let mut l = GovernanceLedger::new(config(1, Digest::zero(), 0, &[10, 11, 12])).unwrap();
    l.propose(propose_tx(10, config(2, digest(1), 100, &[10]), 500), true).unwrap();
    l.vote(vote_tx(10, digest(2), 601), true).unwrap();
    l.vote(vote_tx(11, digest(2), 602), true).unwrap();
    assert_eq!(l.proposal_state(digest(2)), Some(ProposalState::Proposed));
    l.vote(vote_tx(12, digest(2), 603), true).unwrap();
    assert_eq!(l.proposal_state(digest(2)), Some(ProposalState::Committed));
    assert_eq!(l.proposal_state(digest(9)), None);
}

#[test]
fn filter_predicate() {
    let c = config(2, digest(1), 100, &[10]);
    assert!(filter_cfg_predicate(&c, None, None));
    assert!(filter_cfg_predicate(&c, Some(digest(1)), None));
    assert!(!filter_cfg_predicate(&c, Some(digest(4)), None));
    assert!(filter_cfg_predicate(&c, None, Some(100)));
    assert!(!filter_cfg_predicate(&c, None, Some(101)));
    assert!(filter_cfg_predicate(&c, Some(digest(1)), Some(50)));
    assert!(!filter_cfg_predicate(&c, Some(digest(1)), Some(150)));
}

fn api_with_history() -> PublicConfigApi {
    let mut l = genesis_ledger();
    l.propose(propose_tx(10, config(2, digest(1), 100, &[10, 11, 12, 13]), 500), true).unwrap();
    for v in [10u64, 11, 12] {
        l.vote(vote_tx(v, digest(2), 600 + v), true).unwrap();
    }
    l.propose(propose_tx(11, config(3, digest(2), 300, &[10]), 501), true).unwrap();
    l.propose(propose_tx(12, config(4, digest(1), 200, &[10]), 502), true).unwrap();
    l.vote(vote_tx(10, digest(3), 700), true).unwrap();
    PublicConfigApi { ledger: l }
}

#[test]
fn list_proposals_with_filters() {
    let api = api_with_history();
    let all = api.get_all_proposes(None, None);
    let hashes: Vec<Digest> = all.iter().map(|p| p.hash).collect();
    assert_eq!(hashes, vec![digest(2), digest(3), digest(4)]);
    let by_prev: Vec<Digest> = api.get_all_proposes(Some(digest(1)), None).iter().map(|p| p.hash).collect();
    assert_eq!(by_prev, vec![digest(2), digest(4)]);
    let by_height: Vec<Digest> = api.get_all_proposes(None, Some(200)).iter().map(|p| p.hash).collect();
    assert_eq!(by_height, vec![digest(3), digest(4)]);
    let both: Vec<Digest> = api.get_all_proposes(Some(digest(1)), Some(200)).iter().map(|p| p.hash).collect();
    assert_eq!(both, vec![digest(4)]);
    assert!(api.get_all_proposes(Some(digest(9)), None).is_empty());
    assert_eq!(all[1].propose_data.tx_hash, digest(501));
}

#[test]
fn list_committed_with_filters() {
    let api = api_with_history();
    let all = api.get_all_committed(None, None);
    let hashes: Vec<Digest> = all.iter().map(|c| c.hash).collect();
    assert_eq!(hashes, vec![digest(1), digest(2)]);
    assert_eq!(all[0].propose, None);
    assert!(all[0].votes.is_none());
    assert_eq!(all[1].propose, Some(digest(500)));
    assert_eq!(all[1].votes.as_ref().unwrap().iter().filter(|v| v.is_some()).count(), 3);
    let by_prev: Vec<Digest> = api.get_all_committed(Some(digest(1)), None).iter().map(|c| c.hash).collect();
    assert_eq!(by_prev, vec![digest(2)]);
    let by_prev_zero: Vec<Digest> = api.get_all_committed(Some(Digest::zero()), None).iter().map(|c| c.hash).collect();
    assert_eq!(by_prev_zero, vec![digest(1)]);
    assert!(api.get_all_committed(Some(digest(1)), Some(101)).is_empty());
}

#[test]
fn actual_and_following_config() {
    let api = api_with_history();
    let actual = api.get_actual_config(50).unwrap();
    assert_eq!(actual.hash, digest(1));
    assert_eq!(actual.propose, None);
    let following = api.get_following_config(50).unwrap();
    assert_eq!(following.hash, digest(2));
    assert_eq!(following.config.actual_from, 100);
    assert_eq!(following.propose, Some(digest(500)));
    assert!(api.get_following_config(100).is_none());
    assert_eq!(api.get_actual_config(1000).unwrap().hash, digest(2));
}

#[test]
fn config_by_hash_and_votes() {
    let api = api_with_history();
    let committed = api.get_config_by_hash(digest(2));
    assert_eq!(committed.committed_config.unwrap().actual_from, 100);
    assert_eq!(committed.propose.unwrap().tx_hash, digest(500));
    let proposed = api.get_config_by_hash(digest(3));
    assert!(proposed.committed_config.is_none());
    assert_eq!(proposed.propose.unwrap().proposer, key(11));
    let unknown = api.get_config_by_hash(digest(9));
    assert!(unknown.committed_config.is_none() && unknown.propose.is_none());
    let votes = api.get_votes_for_propose(digest(3)).unwrap();
    assert_eq!(votes.len(), 4);
    assert_eq!(votes[0].unwrap().tx_hash, digest(700));
    assert!(votes[1].is_none());
    assert!(api.get_votes_for_propose(digest(1)).is_none());
}


#[test]
fn committed_chain_activates_later_than_its_predecessor() {
    let mut l = genesis_ledger();
    l.propose(propose_tx(10, config(2, digest(1), 100, &[10, 11, 12]), 500), true).unwrap();
    for v in [10u64, 11, 12] {
        l.vote(vote_tx(v, digest(2), 600 + v), true).unwrap();
    }
    l.propose(propose_tx(10, config(3, digest(2), 250, &[10, 11]), 501), true).unwrap();
    for v in [10u64, 11, 12] {
        l.vote(vote_tx(v, digest(3), 700 + v), true).unwrap();
    }
    assert_eq!(l.committed_len(), 3);
    for i in 0..l.committed_len() {
        for j in 0..l.committed_len() {
            let (a, b) = (l.committed_at(i), l.committed_at(j));
            if b.previous_cfg_hash == a.hash {
                assert!(a.actual_from < b.actual_from);
            }
        }
    }
    assert_eq!(l.committed_at(2).previous_cfg_hash, digest(2));
    for h in [0u64, 99, 100, 249, 250, 1000] {
        let active = l.active_at(h).unwrap();
        let at_or_below: Vec<u64> = (0..l.committed_len())
            .map(|i| l.committed_at(i).actual_from)
            .filter(|&a| a <= h)
            .collect();
        assert_eq!(Some(&active.actual_from), at_or_below.iter().max());
    }
}

#[test]
fn snapshot_is_unaffected_by_later_votes() {
    let mut l = genesis_ledger();
    l.propose(propose_tx(10, config(2, digest(1), 100, &[10]), 500), true).unwrap();
    let snap = PublicConfigApi { ledger: l.snapshot() };
    for v in [10u64, 11, 12] {
        l.vote(vote_tx(v, digest(2), 600 + v), true).unwrap();
    }
    assert!(snap.get_following_config(50).is_none());
    assert!(snap.get_config_by_hash(digest(2)).committed_config.is_none());
    assert_eq!(snap.get_votes_for_propose(digest(2)).unwrap().iter().filter(|v| v.is_some()).count(), 0);
    assert_eq!(l.next_after(50).unwrap().hash, digest(2));
}

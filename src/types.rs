use vstd::prelude::*;

verus! {

/// A 256-bit digest, held as four 64-bit words.
#[derive(Clone, Copy, Debug, PartialEq, Eq, Structural)]
pub struct Digest(pub u64, pub u64, pub u64, pub u64);

/// A validator's 256-bit public key, held as four 64-bit words.
#[derive(Clone, Copy, Debug, PartialEq, Eq, Structural)]
pub struct PublicKey(pub u64, pub u64, pub u64, pub u64);

/// A 512-bit signature: its two 256-bit halves.
#[derive(Clone, Copy, Debug, PartialEq, Eq, Structural)]
pub struct Signature {
    pub r: Digest,
    pub s: Digest,
}

pub open spec fn zero_hash() -> Digest {
    Digest(0, 0, 0, 0)
}

impl Digest {
    /// The all-zero digest, reserved as the predecessor of the genesis configuration.
    pub fn zero() -> (r: Digest)
        ensures
            r == zero_hash(),
    {
        Digest(0, 0, 0, 0)
    }
}

/// A configuration of the ledger. `hash` is the content hash of its canonical
/// encoding, computed by whoever builds the value.
#[derive(Debug)]
pub struct Configuration {
    pub hash: Digest,
    pub previous_cfg_hash: Digest,
    pub actual_from: u64,
    pub validators: Vec<PublicKey>,
    /// Consensus and per-service parameters in canonical encoding.
    pub params: Vec<u8>,
}

pub struct ConfigView {
    pub hash: Digest,
    pub previous_cfg_hash: Digest,
    pub actual_from: u64,
    pub validators: Seq<PublicKey>,
    pub params: Seq<u8>,
}

impl View for Configuration {
    type V = ConfigView;

    open spec fn view(&self) -> ConfigView {
        ConfigView {
            hash: self.hash,
            previous_cfg_hash: self.previous_cfg_hash,
            actual_from: self.actual_from,
            validators: self.validators@,
            params: self.params@,
        }
    }
}

pub(crate) fn copy_vec<T: Copy>(v: &Vec<T>) -> (r: Vec<T>)
    ensures
        r@ == v@,
{
    let mut r: Vec<T> = Vec::new();
    let mut i: usize = 0;
    while i < v.len()
        invariant
            i <= v@.len(),
            r@ == v@.subrange(0, i as int),
        decreases v@.len() - i,
    {
        r.push(v[i]);
        i = i + 1;
        assert(r@ =~= v@.subrange(0, i as int));
    }
    assert(r@ =~= v@);
    r
}

impl Configuration {
    pub fn copied(&self) -> (r: Configuration)
        ensures
            r@ == self@,
    {
        Configuration {
            hash: self.hash,
            previous_cfg_hash: self.previous_cfg_hash,
            actual_from: self.actual_from,
            validators: copy_vec(&self.validators),
            params: copy_vec(&self.params),
        }
    }
}

/// No key occurs twice.
pub open spec fn distinct_keys(s: Seq<PublicKey>) -> bool {
    forall|i: int, j: int| 0 <= i < j < s.len() ==> s[i] != s[j]
}

/// A configuration that can be proposed: a non-empty validator set without
/// repeated keys, and a hash other than the genesis sentinel.
pub open spec fn well_formed_config(c: ConfigView) -> bool {
    &&& c.validators.len() > 0
    &&& distinct_keys(c.validators)
    &&& c.hash != zero_hash()
}

/// One validator's endorsement of a proposal.
#[derive(Clone, Copy, Debug, PartialEq, Eq, Structural)]
pub struct Vote {
    pub voter: PublicKey,
    pub cfg_hash: Digest,
    pub signature: Signature,
    pub tx_hash: Digest,
}

/// A transaction that proposes a configuration.
#[derive(Debug)]
pub struct ProposeTx {
    pub from: PublicKey,
    pub config: Configuration,
    pub signature: Signature,
    pub tx_hash: Digest,
}

/// A transaction that votes for the configuration with hash `cfg_hash`.
pub type VoteTx = Vote;

/// A governance transaction.
#[derive(Debug)]
pub enum ConfigTx {
    Propose(ProposeTx),
    Vote(VoteTx),
}

impl ConfigTx {
    pub open spec fn spec_signer(&self) -> PublicKey {
        match self {
            ConfigTx::Propose(p) => p.from,
            ConfigTx::Vote(v) => v.voter,
        }
    }

    /// The key that signed the transaction.
    pub fn signer(&self) -> (r: PublicKey)
        ensures
            r == self.spec_signer(),
    {
        match self {
            ConfigTx::Propose(p) => p.from,
            ConfigTx::Vote(v) => v.voter,
        }
    }
}

/// Why a transaction was rejected.
#[derive(Clone, Copy, Debug, PartialEq, Eq, Structural)]
pub enum GovError {
    DuplicateProposal,
    NonMonotonicActivation,
    UnknownProposal,
    NotAValidator,
    DuplicateVote,
    ActivationConflict,
    MalformedConfiguration,
    SignatureInvalid,
    /// The referenced predecessor is not a committed configuration.
    UnknownPredecessor,
}

/// Where a proposal stands.
#[derive(Clone, Copy, Debug, PartialEq, Eq, Structural)]
pub enum ProposalState {
    Proposed,
    QuorumReached,
    Committed,
}

/// What an accepted proposal returns.
#[derive(Clone, Copy, Debug, PartialEq, Eq, Structural)]
pub struct ApiResponseProposePost {
    pub tx_hash: Digest,
    pub cfg_hash: Digest,
}

/// What an accepted vote returns.
#[derive(Clone, Copy, Debug, PartialEq, Eq, Structural)]
pub struct ApiResponseVotePost {
    pub tx_hash: Digest,
}

} // verus!

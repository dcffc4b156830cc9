use vstd::prelude::*;
use crate::types::{
    ApiResponseProposePost, ApiResponseVotePost, ConfigTx, Configuration, Digest, ProposeTx,
    PublicKey, Signature, Vote,
};

verus! {

/// Builds the governance transactions of one validator node. Signing the
/// transaction and handing it to the network stay with the caller, which
/// passes in the signature and the transaction hash they produced.
#[derive(Clone, Copy, Debug)]
pub struct PrivateConfigApi {
    pub public_key: PublicKey,
}

impl PrivateConfigApi {
    /// The transaction proposing `cfg`, and the response that reports it.
    pub fn put_config_propose(&self, cfg: Configuration, signature: Signature, tx_hash: Digest) -> (r: (
        ConfigTx,
        ApiResponseProposePost,
    ))
        ensures
            r.0 matches ConfigTx::Propose(p) && p.from == self.public_key && p.config@ == cfg@
                && p.signature == signature && p.tx_hash == tx_hash,
            r.1 == (ApiResponseProposePost { tx_hash, cfg_hash: cfg.hash }),
    {
        let cfg_hash = cfg.hash;
        let tx = ProposeTx { from: self.public_key, config: cfg, signature, tx_hash };
        (ConfigTx::Propose(tx), ApiResponseProposePost { tx_hash, cfg_hash })
    }

    /// The transaction voting for the configuration `cfg_hash`, and the
    /// response that reports it.
    pub fn put_config_vote(&self, cfg_hash: Digest, signature: Signature, tx_hash: Digest) -> (r: (
        ConfigTx,
        ApiResponseVotePost,
    ))
        ensures
            r.0 == ConfigTx::Vote(Vote { voter: self.public_key, cfg_hash, signature, tx_hash }),
            r.1 == (ApiResponseVotePost { tx_hash }),
    {
        let tx = Vote { voter: self.public_key, cfg_hash, signature, tx_hash };
        (ConfigTx::Vote(tx), ApiResponseVotePost { tx_hash })
    }
}

} // verus!

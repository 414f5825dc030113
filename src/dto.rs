//! Protocol messages exchanged between replicas.
use vstd::prelude::*;

verus! {

pub type ID = u64;

pub type NodeID = ID;

/// Identifier of the node that signed a message.
pub type Sig = ID;

/// Opaque content fingerprint of a proposal.
pub type Digest = String;

/// The agreed value of a replica.
pub type Tip = String;

/// The `(view, seq, digest)` triple that an endorsement is about.
pub struct ClaimKey {
    pub view: ID,
    pub seq: ID,
    pub digest: Seq<char>,
}

/// Capability shared by the three protocol messages: each names a claim and a sender.
pub trait NodeRequest {
    spec fn claim(&self) -> ClaimKey;

    spec fn sender(&self) -> NodeID;

    fn get_view_id(&self) -> (r: ID)
        ensures
            r == self.claim().view,
    ;

    fn get_seq_id(&self) -> (r: ID)
        ensures
            r == self.claim().seq,
    ;

    fn get_digest(&self) -> (r: Digest)
        ensures
            r@ == self.claim().digest,
    ;

    fn get_sender_id(&self) -> (r: NodeID)
        ensures
            r == self.sender(),
    ;
}

/// A proposal of `message` for slot `seq_id` of view `view_id`.
#[derive(Debug)]
pub struct PrePrepare {
    pub view_id: ID,
    pub seq_id: ID,
    pub digest: Digest,
    pub signature: Sig,
    pub message: Tip,
    pub sender_id: NodeID,
}

/// An endorsement of a proposal.
#[derive(Debug)]
pub struct Prepare {
    pub view_id: ID,
    pub seq_id: ID,
    pub digest: Digest,
    pub sender_id: NodeID,
    pub signature: Sig,
}

/// An endorsement of a prepare quorum.
#[derive(Debug)]
pub struct Commit {
    pub view_id: ID,
    pub seq_id: ID,
    pub digest: Digest,
    pub sender_id: NodeID,
    pub signature: Sig,
}

/// Control message that stops a node.
#[derive(Debug)]
pub struct Shutdown {}

impl PrePrepare {
    pub fn new(
        view_id: ID,
        seq_id: ID,
        digest: Digest,
        signature: Sig,
        message: Tip,
        sender_id: NodeID,
    ) -> (r: PrePrepare)
        ensures
            r == (PrePrepare { view_id, seq_id, digest, signature, message, sender_id }),
    {
        PrePrepare { view_id, seq_id, digest, signature, message, sender_id }
    }

    pub fn get_message(&self) -> (r: Tip)
        ensures
            r == self.message,
    {
        self.message.clone()
    }

    /// The prepare that `sender_id` sends in answer to this proposal.
    pub open spec fn prepare_of(&self, sender_id: NodeID, sender_digest: Digest) -> Prepare {
        Prepare {
            view_id: self.view_id,
            seq_id: self.seq_id,
            digest: sender_digest,
            sender_id,
            signature: sender_id,
        }
    }

    pub fn make_prepare(&self, sender_id: NodeID, sender_digest: Digest) -> (r: Prepare)
        ensures
            r == self.prepare_of(sender_id, sender_digest),
    {
        Prepare::new(self.view_id, self.seq_id, sender_digest, sender_id, sender_id)
    }
}

impl Prepare {
    pub fn new(view_id: ID, seq_id: ID, digest: Digest, sender_id: NodeID, signature: Sig) -> (r:
        Prepare)
        ensures
            r == (Prepare { view_id, seq_id, digest, sender_id, signature }),
    {
        Prepare { view_id, seq_id, digest, sender_id, signature }
    }

    /// The commit that `sender_id` sends once this prepare is backed by a quorum.
    pub open spec fn commit_of(&self, sender_id: NodeID, sender_digest: Digest) -> Commit {
        Commit {
            view_id: self.view_id,
            seq_id: self.seq_id,
            digest: sender_digest,
            sender_id,
            signature: sender_id,
        }
    }

    pub fn make_commit(&self, sender_id: NodeID, sender_digest: Digest) -> (r: Commit)
        ensures
            r == self.commit_of(sender_id, sender_digest),
    {
        Commit::new(self.view_id, self.seq_id, sender_digest, sender_id, sender_id)
    }
}

impl Commit {
    pub fn new(view_id: ID, seq_id: ID, digest: Digest, sender_id: NodeID, signature: Sig) -> (r:
        Commit)
        ensures
            r == (Commit { view_id, seq_id, digest, sender_id, signature }),
    {
        Commit { view_id, seq_id, digest, sender_id, signature }
    }
}

impl NodeRequest for PrePrepare {
    open spec fn claim(&self) -> ClaimKey {
        ClaimKey { view: self.view_id, seq: self.seq_id, digest: self.digest@ }
    }

    open spec fn sender(&self) -> NodeID {
        self.sender_id
    }

    fn get_view_id(&self) -> (r: ID) {
        self.view_id
    }

    fn get_seq_id(&self) -> (r: ID) {
        self.seq_id
    }

    fn get_digest(&self) -> (r: Digest) {
        self.digest.clone()
    }

    fn get_sender_id(&self) -> (r: NodeID) {
        self.sender_id
    }
}

impl NodeRequest for Prepare {
    open spec fn claim(&self) -> ClaimKey {
        ClaimKey { view: self.view_id, seq: self.seq_id, digest: self.digest@ }
    }

    open spec fn sender(&self) -> NodeID {
        self.sender_id
    }

    fn get_view_id(&self) -> (r: ID) {
        self.view_id
    }

    fn get_seq_id(&self) -> (r: ID) {
        self.seq_id
    }

    fn get_digest(&self) -> (r: Digest) {
        self.digest.clone()
    }

    fn get_sender_id(&self) -> (r: NodeID) {
        self.sender_id
    }
}

impl NodeRequest for Commit {
    open spec fn claim(&self) -> ClaimKey {
        ClaimKey { view: self.view_id, seq: self.seq_id, digest: self.digest@ }
    }

    open spec fn sender(&self) -> NodeID {
        self.sender_id
    }

    fn get_view_id(&self) -> (r: ID) {
        self.view_id
    }

    fn get_seq_id(&self) -> (r: ID) {
        self.seq_id
    }

    fn get_digest(&self) -> (r: Digest) {
        self.digest.clone()
    }

    fn get_sender_id(&self) -> (r: NodeID) {
        self.sender_id
    }
}

impl Clone for PrePrepare {
    fn clone(&self) -> (r: Self)
        ensures
            r == *self,
    {
        PrePrepare {
            view_id: self.view_id,
            seq_id: self.seq_id,
            digest: self.digest.clone(),
            signature: self.signature,
            message: self.message.clone(),
            sender_id: self.sender_id,
        }
    }
}

impl Clone for Prepare {
    fn clone(&self) -> (r: Self)
        ensures
            r == *self,
    {
        Prepare {
            view_id: self.view_id,
            seq_id: self.seq_id,
            digest: self.digest.clone(),
            sender_id: self.sender_id,
            signature: self.signature,
        }
    }
}

impl Clone for Commit {
    fn clone(&self) -> (r: Self)
        ensures
            r == *self,
    {
        Commit {
            view_id: self.view_id,
            seq_id: self.seq_id,
            digest: self.digest.clone(),
            sender_id: self.sender_id,
            signature: self.signature,
        }
    }
}

impl Clone for Shutdown {
    fn clone(&self) -> (r: Self)
        ensures
            r == *self,
    {
        Shutdown {  }
    }
}

} // verus!

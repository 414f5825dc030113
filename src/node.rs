//! The per-node protocol state machine: pre-prepare, prepare, commit.
use crate::dto::{Commit, NodeID, NodeRequest, PrePrepare, Prepare, Shutdown, Tip, ID};
use crate::reqtable::{approvers_in, first_for, with_endorsement, RequestTable};
use crate::sufficiency::{one_holds, two_thirds_holds, SufficiencyChecker};
use std::collections::HashSet;
use vstd::prelude::*;
use vstd::std_specs::iter::IteratorSpec;

verus! {

/// What a message carries.
#[derive(Debug)]
pub enum Request {
    PrePrepare(PrePrepare),
    Prepare(Prepare),
    Commit(Commit),
    Shutdown(Shutdown),
}

impl Clone for Request {
    fn clone(&self) -> (r: Self)
        ensures
            r == *self,
    {
        match self {
            Request::PrePrepare(pp) => Request::PrePrepare(pp.clone()),
            Request::Prepare(p) => Request::Prepare(p.clone()),
            Request::Commit(c) => Request::Commit(c.clone()),
            Request::Shutdown(s) => Request::Shutdown(s.clone()),
        }
    }
}

/// A request addressed from one node to another.
#[derive(Debug)]
pub struct Message {
    pub sender_id: NodeID,
    pub target_id: NodeID,
    pub request: Request,
}

/// `out` sends `req` from `sender` once to each of `peers`.
pub open spec fn is_broadcast(out: Seq<Message>, sender: NodeID, req: Request, peers: Set<ID>) -> bool {
    &&& out.len() == peers.len()
    &&& forall|k: int|
        0 <= k < out.len() ==> #[trigger] out[k] == (Message {
            sender_id: sender,
            target_id: out[k].target_id,
            request: req,
        }) && peers.contains(out[k].target_id)
    &&& forall|t: ID| peers.contains(t) ==> exists|k: int| 0 <= k < out.len() && #[trigger] out[k].target_id == t
    &&& forall|j: int, k: int| 0 <= j < k < out.len() ==> #[trigger] out[j].target_id != #[trigger] out[k].target_id
}

/// `out` broadcasts each of `reqs` in turn from `sender` to `peers`.
pub open spec fn fans_out(out: Seq<Message>, sender: NodeID, reqs: Seq<Request>, peers: Set<ID>) -> bool
    decreases reqs.len(),
{
    if reqs.len() == 0 {
        out.len() == 0
    } else {
        let n = peers.len() as int;
        &&& out.len() >= n
        &&& is_broadcast(out.subrange(out.len() - n, out.len() as int), sender, reqs.last(), peers)
        &&& fans_out(out.subrange(0, out.len() - n), sender, reqs.drop_last(), peers)
    }
}

impl Message {
    /// One copy of `req` from `sender` for each node of `nodes`.
    pub fn multiply(req: &Request, sender: NodeID, nodes: &HashSet<ID>) -> (r: Vec<Message>)
        ensures
            is_broadcast(r@, sender, *req, nodes@),
    {
        let mut out: Vec<Message> = Vec::new();
        let ghost keys: Seq<ID> = nodes.iter().remaining().unref();
        let ghost mut seen: int = 0;
        for t in it: nodes.iter()
            invariant
                it.seq().unref() == keys,
                keys.to_set() == nodes@,
                keys.no_duplicates(),
                seen == it.index(),
                out@.len() == seen,
                forall|k: int|
                    0 <= k < seen ==> #[trigger] out@[k] == (Message {
                        sender_id: sender,
                        target_id: keys[k],
                        request: *req,
                    }),
        {
            proof {
                assert(keys[seen] == *t);
            }
            out.push(Message { sender_id: sender, target_id: *t, request: req.clone() });
            proof {
                seen = seen + 1;
            }
        }
        proof {
            keys.unique_seq_to_set();
            assert forall|k: int| 0 <= k < out@.len() implies nodes@.contains(#[trigger] out@[k].target_id) by {
                assert(keys.to_set().contains(keys[k]));
            }
            assert forall|x: ID| nodes@.contains(x) implies exists|k: int|
                0 <= k < out@.len() && #[trigger] out@[k].target_id == x by {
                assert(keys.to_set().contains(x));
                let k = choose|k: int| 0 <= k < keys.len() && keys[k] == x;
                assert(out@[k].target_id == x);
            }
        }
        out
    }

    pub fn preprepare(sender_id: NodeID, target_id: ID, pp: PrePrepare) -> (r: Message)
        ensures
            r == (Message { sender_id, target_id, request: Request::PrePrepare(pp) }),
    {
        Message { sender_id, target_id, request: Request::PrePrepare(pp) }
    }

    pub fn prepare(sender_id: NodeID, target_id: ID, p: Prepare) -> (r: Message)
        ensures
            r == (Message { sender_id, target_id, request: Request::Prepare(p) }),
    {
        Message { sender_id, target_id, request: Request::Prepare(p) }
    }

    pub fn commit(sender_id: NodeID, target_id: ID, c: Commit) -> (r: Message)
        ensures
            r == (Message { sender_id, target_id, request: Request::Commit(c) }),
    {
        Message { sender_id, target_id, request: Request::Commit(c) }
    }

    pub fn shutdown(sender_id: NodeID, target_id: ID, s: Shutdown) -> (r: Message)
        ensures
            r == (Message { sender_id, target_id, request: Request::Shutdown(s) }),
    {
        Message { sender_id, target_id, request: Request::Shutdown(s) }
    }

    pub fn get_target_id(&self) -> (r: NodeID)
        ensures
            r == self.target_id,
    {
        self.target_id
    }
}

/// The nodes of `all_nodes` other than `me`.
fn others_of(me: ID, all_nodes: &HashSet<ID>) -> (r: HashSet<ID>)
    ensures
        r@ == all_nodes@.remove(me),
{
    let mut others: HashSet<ID> = HashSet::new();
    let ghost keys: Seq<ID> = all_nodes.iter().remaining().unref();
    let ghost mut seen: int = 0;
    for x in it: all_nodes.iter()
        invariant
            it.seq().unref() == keys,
            keys.to_set() == all_nodes@,
            seen == it.index(),
            others@ == keys.subrange(0, seen).to_set().remove(me),
    {
        proof {
            assert(keys[seen] == *x);
            assert(keys.subrange(0, seen + 1) =~= keys.subrange(0, seen).push(*x));
            keys.subrange(0, seen).lemma_push_to_set_commute(*x);
        }
        if *x != me {
            others.insert(*x);
        }
        proof {
            seen = seen + 1;
            assert(others@ =~= keys.subrange(0, seen).to_set().remove(me));
        }
    }
    proof {
        assert(keys.subrange(0, seen) =~= keys);
    }
    others
}

/// What a node knows: its agreed value, the last agreed slot, the node set, the recorded
/// endorsements of each kind, and what it has sent in the current round.
pub struct StateModel {
    pub tip: Seq<char>,
    pub seq_id: ID,
    pub all_nodes: Set<ID>,
    pub peers: Set<ID>,
    pub preprepares: Seq<PrePrepare>,
    pub prepares: Seq<Prepare>,
    pub commits: Seq<Commit>,
    pub sent_prepare: Option<Prepare>,
    pub sent_commit: Option<Commit>,
}

/// Node `me` before any message: tip "genesis", nothing agreed, recorded or sent.
pub open spec fn genesis_model(me: ID, all_nodes: Set<ID>) -> StateModel {
    StateModel {
        tip: "genesis"@,
        seq_id: 0,
        all_nodes,
        peers: all_nodes.remove(me),
        preprepares: Seq::empty(),
        prepares: Seq::empty(),
        commits: Seq::empty(),
        sent_prepare: None,
        sent_commit: None,
    }
}

/// Receiving pre-prepare `pp`: record it; unless a prepare went out this round, and if the
/// proposal has a member endorser and a fresh slot, endorse it with a prepare of our own,
/// handle that prepare, and broadcast it.
pub open spec fn on_preprepare(s: StateModel, me: ID, pp: PrePrepare) -> (StateModel, Seq<Request>) {
    let s1 = StateModel { preprepares: with_endorsement(s.preprepares, pp), ..s };
    if s1.sent_prepare is Some || !one_holds(s1.all_nodes, approvers_in(s1.preprepares, pp.claim()))
        || pp.seq_id <= s1.seq_id {
        (s1, Seq::empty())
    } else {
        let p = pp.prepare_of(me, pp.digest);
        let (s2, out) = on_prepare(StateModel { sent_prepare: Some(p), ..s1 }, me, p);
        (s2, out.push(Request::Prepare(p)))
    }
}

/// Receiving prepare `p`: record it; unless a commit went out this round, and if more than
/// two thirds of the nodes prepared its claim for a fresh slot, commit to it, handle that
/// commit, and broadcast it.
pub open spec fn on_prepare(s: StateModel, me: ID, p: Prepare) -> (StateModel, Seq<Request>) {
    let s1 = StateModel { prepares: with_endorsement(s.prepares, p), ..s };
    if s1.sent_commit is Some || !two_thirds_holds(s1.all_nodes, approvers_in(s1.prepares, p.claim()))
        || p.seq_id <= s1.seq_id {
        (s1, Seq::empty())
    } else {
        let c = p.commit_of(me, p.digest);
        (on_commit(StateModel { sent_commit: Some(c), ..s1 }, c), seq![Request::Commit(c)])
    }
}

/// Receiving commit `c`: record it; unless this node committed to another claim this round,
/// and if more than two thirds of the nodes prepared its claim for a fresh slot, agree on the
/// payload of the recorded proposal of that claim (when a member proposed it): it becomes
/// the tip, its slot the last agreed one, and a new round begins.
pub open spec fn on_commit(s: StateModel, c: Commit) -> StateModel {
    let s1 = StateModel { commits: with_endorsement(s.commits, c), ..s };
    if s1.sent_commit matches Some(sent) && sent.claim() != c.claim() {
        s1
    } else {
        after_agreement(s1, c)
    }
}

/// The claim of commit `c` may be agreed on: more than two thirds of the nodes prepared it,
/// its slot is fresh, and a member proposed it.
pub open spec fn may_agree(s: StateModel, c: Commit) -> bool {
    &&& two_thirds_holds(s.all_nodes, approvers_in(s.prepares, c.claim()))
    &&& c.seq_id > s.seq_id
    &&& one_holds(s.all_nodes, approvers_in(s.preprepares, c.claim()))
}

/// When `may_agree(s, c)`: the payload of the earliest recorded proposal of the claim of
/// `c` becomes the tip, the slot of `c` the last agreed one, and a new round begins.
/// Otherwise nothing changes.
pub open spec fn after_agreement(s: StateModel, c: Commit) -> StateModel {
    if may_agree(s, c) {
        StateModel {
            tip: first_for(s.preprepares, c.claim())->Some_0.message@,
            seq_id: c.seq_id,
            sent_prepare: None,
            sent_commit: None,
            ..s
        }
    } else {
        s
    }
}

/// The new state and the requests broadcast when node `me` handles `req`.
pub open spec fn step(s: StateModel, me: ID, req: Request) -> (StateModel, Seq<Request>) {
    match req {
        Request::PrePrepare(pp) => on_preprepare(s, me, pp),
        Request::Prepare(p) => on_prepare(s, me, p),
        Request::Commit(c) => (on_commit(s, c), Seq::empty()),
        Request::Shutdown(_) => (s, Seq::empty()),
    }
}

/// Protocol state of one node.
#[derive(Debug)]
pub struct State {
    tip: Tip,
    seq_id: ID,
    remaining_nodes: HashSet<ID>,
    all_nodes: HashSet<ID>,
    preprepares: RequestTable<PrePrepare>,
    prepares: RequestTable<Prepare>,
    commits: RequestTable<Commit>,
    sent_prepare: Option<Prepare>,
    sent_commit: Option<Commit>,
}

impl View for State {
    type V = StateModel;

    closed spec fn view(&self) -> StateModel {
        StateModel {
            tip: self.tip@,
            seq_id: self.seq_id,
            all_nodes: self.all_nodes@,
            peers: self.remaining_nodes@,
            preprepares: self.preprepares@,
            prepares: self.prepares@,
            commits: self.commits@,
            sent_prepare: self.sent_prepare,
            sent_commit: self.sent_commit,
        }
    }
}

impl State {
    /// Proposals are certified by one member, prepares and commits by a two-thirds quorum,
    /// and each table holds one endorsement per claim and sender.
    pub closed spec fn wf(&self) -> bool {
        &&& self.preprepares.wf()
        &&& self.prepares.wf()
        &&& self.commits.wf()
        &&& self.preprepares.policy() == SufficiencyChecker::One
        &&& self.prepares.policy() == SufficiencyChecker::TwoThirds
        &&& self.commits.policy() == SufficiencyChecker::TwoThirds
    }

    /// The state of node `me` before any message: tip "genesis", nothing agreed or recorded.
    pub fn genesis(me: ID, all_nodes: HashSet<ID>) -> (r: State)
        ensures
            r.wf(),
            r@ == genesis_model(me, all_nodes@),
    {
        let remaining_nodes = others_of(me, &all_nodes);
        State {
            tip: "genesis".to_owned(),
            seq_id: 0,
            remaining_nodes,
            all_nodes,
            preprepares: RequestTable::new(SufficiencyChecker::One),
            prepares: RequestTable::new(SufficiencyChecker::TwoThirds),
            commits: RequestTable::new(SufficiencyChecker::TwoThirds),
            sent_prepare: None,
            sent_commit: None,
        }
    }

    pub fn get_preprepares(&self) -> (r: &RequestTable<PrePrepare>)
        ensures
            r@ == self@.preprepares,
            self.wf() ==> r.wf() && r.policy() == SufficiencyChecker::One,
    {
        &self.preprepares
    }

    pub fn get_prepares(&self) -> (r: &RequestTable<Prepare>)
        ensures
            r@ == self@.prepares,
            self.wf() ==> r.wf() && r.policy() == SufficiencyChecker::TwoThirds,
    {
        &self.prepares
    }

    pub fn get_commits(&self) -> (r: &RequestTable<Commit>)
        ensures
            r@ == self@.commits,
            self.wf() ==> r.wf() && r.policy() == SufficiencyChecker::TwoThirds,
    {
        &self.commits
    }

    pub fn get_tip(&self) -> (r: &Tip)
        ensures
            r@ == self@.tip,
    {
        &self.tip
    }

    pub fn get_seq_id(&self) -> (r: ID)
        ensures
            r == self@.seq_id,
    {
        self.seq_id
    }

    /// Drops node `id` from the node set: from now on quorums are counted against the
    /// remaining nodes, and an endorsement that `id` left no longer counts.
    pub fn remove_node(&mut self, id: ID)
        requires
            old(self).wf(),
        ensures
            final(self).wf(),
            final(self)@ == (StateModel {
                all_nodes: old(self)@.all_nodes.remove(id),
                peers: old(self)@.peers.remove(id),
                ..old(self)@
            }),
    {
        self.all_nodes.remove(&id);
        self.remaining_nodes.remove(&id);
    }

    /// `req` is for a slot after the last agreed one.
    fn is_valid_next_seq<N: NodeRequest>(&self, req: &N) -> (r: bool)
        ensures
            r == (req.claim().seq > self.seq_id),
    {
        req.get_seq_id() > self.seq_id
    }

    fn handle_preprepare(&mut self, me: ID, message: PrePrepare) -> (r: Vec<Request>)
        requires
            old(self).wf(),
        ensures
            final(self).wf(),
            (final(self)@, r@) == on_preprepare(old(self)@, me, message),
    {
        let _ = self.preprepares.append(message.clone());
        if self.sent_prepare.is_some() {
            return Vec::new();
        }
        if !self.preprepares.is_sufficient(&message, &self.all_nodes) || !self.is_valid_next_seq(
            &message,
        ) {
            return Vec::new();
        }
        let prepare = message.make_prepare(me, message.digest.clone());
        self.sent_prepare = Some(prepare.clone());
        let mut out = self.handle_prepare(me, prepare.clone());
        out.push(Request::Prepare(prepare));
        out
    }

    fn handle_prepare(&mut self, me: ID, message: Prepare) -> (r: Vec<Request>)
        requires
            old(self).wf(),
        ensures
            final(self).wf(),
            (final(self)@, r@) == on_prepare(old(self)@, me, message),
    {
        let _ = self.prepares.append(message.clone());
        if self.sent_commit.is_some() {
            return Vec::new();
        }
        if !self.prepares.is_sufficient(&message, &self.all_nodes) || !self.is_valid_next_seq(
            &message,
        ) {
            return Vec::new();
        }
        let commit = message.make_commit(me, message.digest.clone());
        self.sent_commit = Some(commit.clone());
        self.handle_commit(commit.clone());
        let mut out: Vec<Request> = Vec::new();
        out.push(Request::Commit(commit));
        proof {
            assert(out@ =~= seq![Request::Commit(message.commit_of(me, message.digest))]);
        }
        out
    }

    /// Agrees on the payload of the proposal that `commit` attests to, when more than two
    /// thirds of the nodes prepared its claim for a fresh slot and a member proposed it;
    /// otherwise leaves the state as it is.
    fn update_tip(&mut self, commit: &Commit)
        requires
            old(self).wf(),
        ensures
            final(self).wf(),
            final(self)@ == after_agreement(old(self)@, *commit),
    {
        if !self.prepares.is_sufficient(commit, &self.all_nodes) || !self.is_valid_next_seq(commit) {
            return;
        }
        match self.preprepares.find_certified(commit, &self.all_nodes) {
            Some(preprepare) => {
                self.tip = preprepare.get_message();
                self.seq_id = commit.seq_id;
                self.sent_prepare = None;
                self.sent_commit = None;
            },
            None => {},
        }
    }

    fn handle_commit(&mut self, message: Commit)
        requires
            old(self).wf(),
        ensures
            final(self).wf(),
            final(self)@ == on_commit(old(self)@, message),
    {
        let _ = self.commits.append(message.clone());
        match &self.sent_commit {
            Some(sent) => {
                if !(sent.view_id == message.view_id && sent.seq_id == message.seq_id
                    && sent.digest == message.digest) {
                    return;
                }
            },
            None => {},
        }
        self.update_tip(&message);
    }

    /// Handles one message addressed to node `me`, and returns the messages it broadcasts
    /// to the other nodes in response. A shutdown is no protocol message: it is refused.
    pub fn handle_protocol_message(&mut self, me: ID, message: Message) -> (r: Result<
        Vec<Message>,
        String,
    >)
        requires
            old(self).wf(),
        ensures
            final(self).wf(),
            message.request is Shutdown ==> (r matches Err(e) && e@ == "Unknown message"@)
                && final(self)@ == old(self)@,
            !(message.request is Shutdown) ==> (r matches Ok(out) && fans_out(
                out@,
                me,
                step(old(self)@, me, message.request).1,
                old(self)@.peers,
            )) && final(self)@ == step(old(self)@, me, message.request).0,
    {
        let requests = match message.request {
            Request::PrePrepare(pp) => self.handle_preprepare(me, pp),
            Request::Prepare(p) => self.handle_prepare(me, p),
            Request::Commit(c) => {
                self.handle_commit(c);
                Vec::new()
            },
            Request::Shutdown(_) => {
                return Err("Unknown message".to_owned());
            },
        };
        let mut out: Vec<Message> = Vec::new();
        let mut i: usize = 0;
        while i < requests.len()
            invariant
                i <= requests@.len(),
                self@.peers == old(self)@.peers,
                fans_out(out@, me, requests@.subrange(0, i as int), self@.peers),
            decreases requests@.len() - i,
        {
            let mut copies = Message::multiply(&requests[i], me, &self.remaining_nodes);
            let ghost before = out@;
            let ghost copied = copies@;
            out.append(&mut copies);
            proof {
                let n = self@.peers.len() as int;
                let done = requests@.subrange(0, i + 1);
                assert(done.drop_last() =~= requests@.subrange(0, i as int));
                assert(out@.subrange(out@.len() - n, out@.len() as int) =~= copied);
                assert(out@.subrange(0, out@.len() - n) =~= before);
                assert(done.last() == requests@[i as int]);
            }
            i = i + 1;
        }
        proof {
            assert(requests@.subrange(0, i as int) =~= requests@);
        }
        Ok(out)
    }
}

/// A node: its identifier and its protocol state.
#[derive(Debug)]
pub struct Node {
    id: ID,
    state: State,
}

impl Node {
    pub closed spec fn node_id(&self) -> ID {
        self.id
    }

    pub closed spec fn state_model(&self) -> StateModel {
        self.state@
    }

    pub closed spec fn wf(&self) -> bool {
        self.state.wf()
    }

    /// Node `id` of the node set `all_nodes`, in its genesis state.
    pub fn new(id: ID, all_nodes: HashSet<ID>) -> (r: Node)
        ensures
            r.wf(),
            r.node_id() == id,
            r.state_model() == genesis_model(id, all_nodes@),
    {
        Node { id, state: State::genesis(id, all_nodes) }
    }

    pub fn get_id(&self) -> (r: ID)
        ensures
            r == self.node_id(),
    {
        self.id
    }

    pub fn get_state(&self) -> (r: &State)
        ensures
            r@ == self.state_model(),
            self.wf() ==> r.wf(),
    {
        &self.state
    }

    /// Drops node `id` from this node's node set; see `State::remove_node`.
    pub fn remove_node(&mut self, id: ID)
        requires
            old(self).wf(),
        ensures
            final(self).wf(),
            final(self).node_id() == old(self).node_id(),
            final(self).state_model() == (StateModel {
                all_nodes: old(self).state_model().all_nodes.remove(id),
                peers: old(self).state_model().peers.remove(id),
                ..old(self).state_model()
            }),
    {
        self.state.remove_node(id);
    }

    /// Whether `message` asks the node to stop.
    pub fn handle_control_message(&self, message: &Message) -> (r: bool)
        ensures
            r == message.request is Shutdown,
    {
        match message.request {
            Request::Shutdown(_) => true,
            _ => false,
        }
    }

    /// Handles a protocol message addressed to this node; see `State::handle_protocol_message`.
    pub fn handle_protocol_message(&mut self, message: Message) -> (r: Result<Vec<Message>, String>)
        requires
            old(self).wf(),
        ensures
            final(self).wf(),
            final(self).node_id() == old(self).node_id(),
            message.request is Shutdown ==> (r matches Err(e) && e@ == "Unknown message"@)
                && final(self).state_model() == old(self).state_model(),
            !(message.request is Shutdown) ==> (r matches Ok(out) && fans_out(
                out@,
                old(self).node_id(),
                step(old(self).state_model(), old(self).node_id(), message.request).1,
                old(self).state_model().peers,
            )) && final(self).state_model() == step(
                old(self).state_model(),
                old(self).node_id(),
                message.request,
            ).0,
    {
        self.state.handle_protocol_message(self.id, message)
    }
}

/// The state reached, and every request broadcast on the way, when node `me` handles `reqs`
/// in order.
pub open spec fn run(s: StateModel, me: ID, reqs: Seq<Request>) -> (StateModel, Seq<Request>)
    decreases reqs.len(),
{
    if reqs.len() == 0 {
        (s, Seq::empty())
    } else {
        let (s1, out1) = run(s, me, reqs.drop_last());
        let (s2, out2) = step(s1, me, reqs.last());
        (s2, out1 + out2)
    }
}

/// `out` holds a prepare.
pub open spec fn sends_prepare(out: Seq<Request>) -> bool {
    exists|i: int| 0 <= i < out.len() && #[trigger] out[i] is Prepare
}

/// `out` holds a commit.
pub open spec fn sends_commit(out: Seq<Request>) -> bool {
    exists|i: int| 0 <= i < out.len() && #[trigger] out[i] is Commit
}

/// `out` holds at most one prepare.
pub open spec fn at_most_one_prepare(out: Seq<Request>) -> bool {
    forall|i: int, j: int|
        0 <= i < out.len() && 0 <= j < out.len() && #[trigger] out[i] is Prepare && #[trigger] out[j] is Prepare
            ==> i == j
}

/// `out` holds at most one commit.
pub open spec fn at_most_one_commit(out: Seq<Request>) -> bool {
    forall|i: int, j: int|
        0 <= i < out.len() && 0 <= j < out.len() && #[trigger] out[i] is Commit && #[trigger] out[j] is Commit
            ==> i == j
}

/// A pre-prepare for a slot at or below the last agreed one makes the node send nothing,
/// in particular no prepare.
pub proof fn lemma_stale_preprepare_sends_nothing(s: StateModel, me: ID, pp: PrePrepare)
    requires
        pp.seq_id <= s.seq_id,
    ensures
        step(s, me, Request::PrePrepare(pp)).1 == Seq::<Request>::empty(),
        !sends_prepare(step(s, me, Request::PrePrepare(pp)).1),
{
}

/// The prepare that completes a two-thirds quorum for a fresh claim that a member proposed,
/// at a node that has not committed this round, makes the node broadcast exactly one
/// commit, of that claim and signed by itself, and agree on the proposal's payload: it
/// becomes the tip, and the claim's slot the last agreed one.
pub proof fn lemma_prepare_quorum_agrees(s: StateModel, me: ID, p: Prepare)
    requires
        s.sent_commit is None,
        p.seq_id > s.seq_id,
        two_thirds_holds(s.all_nodes, approvers_in(with_endorsement(s.prepares, p), p.claim())),
        one_holds(s.all_nodes, approvers_in(s.preprepares, p.claim())),
    ensures
        on_prepare(s, me, p).1 == seq![Request::Commit(p.commit_of(me, p.digest))],
        p.commit_of(me, p.digest).claim() == p.claim(),
        p.commit_of(me, p.digest).sender_id == me,
        on_prepare(s, me, p).0.tip == first_for(s.preprepares, p.claim())->Some_0.message@,
        on_prepare(s, me, p).0.seq_id == p.seq_id,
{
}

proof fn lemma_commit_round(s: StateModel, c: Commit)
    ensures
        on_commit(s, c).seq_id >= s.seq_id,
        on_commit(s, c).seq_id == s.seq_id ==> on_commit(s, c).sent_prepare == s.sent_prepare
            && on_commit(s, c).sent_commit == s.sent_commit,
{
}

proof fn lemma_prepare_round(s: StateModel, me: ID, p: Prepare)
    ensures
        on_prepare(s, me, p).0.seq_id >= s.seq_id,
        !sends_prepare(on_prepare(s, me, p).1),
        at_most_one_commit(on_prepare(s, me, p).1),
        on_prepare(s, me, p).1.len() <= 1,
        on_prepare(s, me, p).0.seq_id == s.seq_id ==> {
            &&& on_prepare(s, me, p).0.sent_prepare == s.sent_prepare
            &&& s.sent_commit is Some ==> on_prepare(s, me, p).0.sent_commit is Some && !sends_commit(
                on_prepare(s, me, p).1,
            )
            &&& sends_commit(on_prepare(s, me, p).1) ==> on_prepare(s, me, p).0.sent_commit is Some
        },
{
    let s1 = StateModel { prepares: with_endorsement(s.prepares, p), ..s };
    if !(s1.sent_commit is Some || !two_thirds_holds(s1.all_nodes, approvers_in(s1.prepares, p.claim()))
        || p.seq_id <= s1.seq_id) {
        let c = p.commit_of(me, p.digest);
        lemma_commit_round(StateModel { sent_commit: Some(c), ..s1 }, c);
    }
}

proof fn lemma_step_round(s: StateModel, me: ID, req: Request)
    ensures
        step(s, me, req).0.seq_id >= s.seq_id,
        at_most_one_prepare(step(s, me, req).1),
        at_most_one_commit(step(s, me, req).1),
        step(s, me, req).0.seq_id == s.seq_id ==> {
            &&& s.sent_prepare is Some ==> step(s, me, req).0.sent_prepare is Some && !sends_prepare(
                step(s, me, req).1,
            )
            &&& sends_prepare(step(s, me, req).1) ==> step(s, me, req).0.sent_prepare is Some
            &&& s.sent_commit is Some ==> step(s, me, req).0.sent_commit is Some && !sends_commit(
                step(s, me, req).1,
            )
            &&& sends_commit(step(s, me, req).1) ==> step(s, me, req).0.sent_commit is Some
        },
{
    match req {
        Request::PrePrepare(pp) => {
            let s1 = StateModel { preprepares: with_endorsement(s.preprepares, pp), ..s };
            if !(s1.sent_prepare is Some || !one_holds(
                s1.all_nodes,
                approvers_in(s1.preprepares, pp.claim()),
            ) || pp.seq_id <= s1.seq_id) {
                let p = pp.prepare_of(me, pp.digest);
                let s2 = StateModel { sent_prepare: Some(p), ..s1 };
                lemma_prepare_round(s2, me, p);
                let inner = on_prepare(s2, me, p).1;
                let out = inner.push(Request::Prepare(p));
                assert forall|i: int, j: int|
                    0 <= i < out.len() && 0 <= j < out.len() && #[trigger] out[i] is Prepare
                        && #[trigger] out[j] is Prepare implies i == j by {
                    if i < inner.len() {
                        assert(inner[i] is Prepare);
                    }
                    if j < inner.len() {
                        assert(inner[j] is Prepare);
                    }
                }
                assert forall|i: int, j: int|
                    0 <= i < out.len() && 0 <= j < out.len() && #[trigger] out[i] is Commit
                        && #[trigger] out[j] is Commit implies i == j by {
                    assert(inner[i] is Commit);
                    assert(inner[j] is Commit);
                }
                if sends_commit(out) {
                    let i = choose|i: int| 0 <= i < out.len() && #[trigger] out[i] is Commit;
                    assert(inner[i] is Commit);
                }
                assert(out[out.len() - 1] is Prepare);
            }
        },
        Request::Prepare(p) => {
            lemma_prepare_round(s, me, p);
        },
        Request::Commit(c) => {
            lemma_commit_round(s, c);
        },
        Request::Shutdown(_) => {},
    }
}

proof fn lemma_run_never_goes_back(s: StateModel, me: ID, reqs: Seq<Request>)
    ensures
        run(s, me, reqs).0.seq_id >= s.seq_id,
    decreases reqs.len(),
{
    if reqs.len() > 0 {
        lemma_run_never_goes_back(s, me, reqs.drop_last());
        lemma_step_round(run(s, me, reqs.drop_last()).0, me, reqs.last());
    }
}

proof fn lemma_joined_sends(a: Seq<Request>, b: Seq<Request>)
    ensures
        sends_prepare(a + b) == (sends_prepare(a) || sends_prepare(b)),
        sends_commit(a + b) == (sends_commit(a) || sends_commit(b)),
        at_most_one_prepare(a) && at_most_one_prepare(b) && !(sends_prepare(a) && sends_prepare(b))
            ==> at_most_one_prepare(a + b),
        at_most_one_commit(a) && at_most_one_commit(b) && !(sends_commit(a) && sends_commit(b))
            ==> at_most_one_commit(a + b),
{
    let ab = a + b;
    if sends_prepare(ab) {
        let i = choose|i: int| 0 <= i < ab.len() && #[trigger] ab[i] is Prepare;
        if i < a.len() {
            assert(a[i] is Prepare);
        } else {
            assert(b[i - a.len()] is Prepare);
        }
    }
    if sends_prepare(a) {
        let i = choose|i: int| 0 <= i < a.len() && #[trigger] a[i] is Prepare;
        assert(ab[i] is Prepare);
    }
    if sends_prepare(b) {
        let i = choose|i: int| 0 <= i < b.len() && #[trigger] b[i] is Prepare;
        assert(ab[i + a.len()] is Prepare);
    }
    if sends_commit(ab) {
        let i = choose|i: int| 0 <= i < ab.len() && #[trigger] ab[i] is Commit;
        if i < a.len() {
            assert(a[i] is Commit);
        } else {
            assert(b[i - a.len()] is Commit);
        }
    }
    if sends_commit(a) {
        let i = choose|i: int| 0 <= i < a.len() && #[trigger] a[i] is Commit;
        assert(ab[i] is Commit);
    }
    if sends_commit(b) {
        let i = choose|i: int| 0 <= i < b.len() && #[trigger] b[i] is Commit;
        assert(ab[i + a.len()] is Commit);
    }
    if at_most_one_prepare(a) && at_most_one_prepare(b) && !(sends_prepare(a) && sends_prepare(b)) {
        assert forall|i: int, j: int|
            0 <= i < ab.len() && 0 <= j < ab.len() && #[trigger] ab[i] is Prepare && #[trigger] ab[j] is Prepare
                implies i == j by {
            if i < a.len() {
                assert(a[i] is Prepare);
            } else {
                assert(b[i - a.len()] is Prepare);
            }
            if j < a.len() {
                assert(a[j] is Prepare);
            } else {
                assert(b[j - a.len()] is Prepare);
            }
        }
    }
    if at_most_one_commit(a) && at_most_one_commit(b) && !(sends_commit(a) && sends_commit(b)) {
        assert forall|i: int, j: int|
            0 <= i < ab.len() && 0 <= j < ab.len() && #[trigger] ab[i] is Commit && #[trigger] ab[j] is Commit
                implies i == j by {
            if i < a.len() {
                assert(a[i] is Commit);
            } else {
                assert(b[i - a.len()] is Commit);
            }
            if j < a.len() {
                assert(a[j] is Commit);
            } else {
                assert(b[j - a.len()] is Commit);
            }
        }
    }
}

/// Within one round, that is while the last agreed slot stays where it was, a node sends
/// at most one prepare and at most one commit, however often and in whatever order
/// messages reach it; and none of a kind it already sent in this round.
pub proof fn lemma_one_prepare_and_commit_per_round(s: StateModel, me: ID, reqs: Seq<Request>)
    requires
        run(s, me, reqs).0.seq_id == s.seq_id,
    ensures
        at_most_one_prepare(run(s, me, reqs).1),
        at_most_one_commit(run(s, me, reqs).1),
        s.sent_prepare is Some ==> !sends_prepare(run(s, me, reqs).1),
        s.sent_commit is Some ==> !sends_commit(run(s, me, reqs).1),
        s.sent_prepare is Some || sends_prepare(run(s, me, reqs).1) ==> run(s, me, reqs).0.sent_prepare is Some,
        s.sent_commit is Some || sends_commit(run(s, me, reqs).1) ==> run(s, me, reqs).0.sent_commit is Some,
    decreases reqs.len(),
{
    if reqs.len() > 0 {
        let prefix = reqs.drop_last();
        let (s1, out1) = run(s, me, prefix);
        lemma_run_never_goes_back(s, me, prefix);
        lemma_step_round(s1, me, reqs.last());
        lemma_one_prepare_and_commit_per_round(s, me, prefix);
        lemma_joined_sends(out1, step(s1, me, reqs.last()).1);
    }
}

} // verus!

//! Quorum certificate table: the endorsements a node has seen, one per claim and sender.
use crate::dto::{ClaimKey, NodeID, NodeRequest, PrePrepare, ID};
use crate::sufficiency::SufficiencyChecker;
use std::collections::HashSet;
use vstd::prelude::*;

verus! {

pub type ViewID = ID;

pub type SeqID = ID;

/// Two messages endorse the same claim on behalf of the same sender.
pub open spec fn same_endorsement<M: NodeRequest>(a: M, b: M) -> bool {
    a.claim() == b.claim() && a.sender() == b.sender()
}

/// No sender endorses a claim twice.
pub open spec fn unique_endorsements<M: NodeRequest>(s: Seq<M>) -> bool {
    forall|i: int, j: int|
        0 <= i < s.len() && 0 <= j < s.len() && i != j ==> !same_endorsement(#[trigger] s[i], #[trigger] s[j])
}

/// The senders that endorse claim `c`.
pub open spec fn approvers_in<M: NodeRequest>(s: Seq<M>, c: ClaimKey) -> Set<NodeID> {
    Set::new(|id: NodeID| exists|i: int| 0 <= i < s.len() && #[trigger] s[i].claim() == c && s[i].sender() == id)
}

/// The entries after recording `m`: it replaces the sender's earlier endorsement of the
/// same claim, or is added at the end.
pub open spec fn with_endorsement<M: NodeRequest>(s: Seq<M>, m: M) -> Seq<M> {
    if exists|i: int| 0 <= i < s.len() && same_endorsement(#[trigger] s[i], m) {
        s.update(choose|i: int| 0 <= i < s.len() && same_endorsement(#[trigger] s[i], m), m)
    } else {
        s.push(m)
    }
}

/// Index `i` holds the earliest endorsement of claim `c`.
pub open spec fn is_first_for<M: NodeRequest>(s: Seq<M>, c: ClaimKey, i: int) -> bool {
    0 <= i < s.len() && s[i].claim() == c && forall|j: int| 0 <= j < i ==> #[trigger] s[j].claim() != c
}

/// The earliest endorsement of claim `c`, if any.
pub open spec fn first_for<M: NodeRequest>(s: Seq<M>, c: ClaimKey) -> Option<M> {
    if exists|i: int| is_first_for(s, c, i) {
        Some(s[choose|i: int| is_first_for(s, c, i)])
    } else {
        None
    }
}

/// `o` lists the approvers of claim `c`, each once, or is `None` when there are none.
pub open spec fn lists_approvers<M: NodeRequest>(o: Option<Vec<NodeID>>, s: Seq<M>, c: ClaimKey) -> bool {
    match o {
        None => approvers_in(s, c).is_empty(),
        Some(v) => !approvers_in(s, c).is_empty() && v@.no_duplicates() && v@.to_set() == approvers_in(s, c),
    }
}

/// Endorsements of one message kind, indexed by claim and sender.
#[derive(Debug)]
pub struct RequestTable<M: NodeRequest> {
    reqs: Vec<M>,
    check_sufficiency: SufficiencyChecker,
}

impl<M: NodeRequest> View for RequestTable<M> {
    type V = Seq<M>;

    closed spec fn view(&self) -> Seq<M> {
        self.reqs@
    }
}

impl<M: NodeRequest> RequestTable<M> {
    /// Each sender endorses each claim at most once.
    pub open spec fn wf(&self) -> bool {
        unique_endorsements(self@)
    }

    /// The policy this table certifies claims with.
    pub closed spec fn policy(&self) -> SufficiencyChecker {
        self.check_sufficiency
    }

    pub fn new(sufficiency_fn: SufficiencyChecker) -> (r: RequestTable<M>)
        ensures
            r@ == Seq::<M>::empty(),
            r.policy() == sufficiency_fn,
            r.wf(),
    {
        RequestTable { reqs: Vec::new(), check_sufficiency: sufficiency_fn }
    }

    /// Whether the claim of `ri` is certified by this table's policy over `all_nodes`.
    pub fn is_sufficient<N: NodeRequest>(&self, ri: &N, all_nodes: &HashSet<ID>) -> (r: bool)
        ensures
            r == self.policy().holds(all_nodes@, approvers_in(self@, ri.claim())),
    {
        let approvers = self.find_approvers(ri);
        self.check_sufficiency.check(all_nodes, &approvers)
    }

    /// Every recorded endorsement, in the order first recorded.
    pub fn get_reqs(&self) -> (r: &Vec<M>)
        ensures
            r@ == self@,
    {
        &self.reqs
    }

    /// Index of the entry whose claim is that of `ri`, from `start` on, if any.
    fn position_of_claim<N: NodeRequest>(&self, ri: &N, start: usize) -> (r: Option<usize>)
        requires
            start <= self@.len(),
        ensures
            match r {
                Some(i) => start <= i < self@.len() && self@[i as int].claim() == ri.claim() && forall|j: int|
                    start <= j < i ==> #[trigger] self@[j].claim() != ri.claim(),
                None => forall|j: int| start <= j < self@.len() ==> #[trigger] self@[j].claim() != ri.claim(),
            },
    {
        let view_id = ri.get_view_id();
        let seq_id = ri.get_seq_id();
        let digest = ri.get_digest();
        let mut i: usize = start;
        while i < self.reqs.len()
            invariant
                start <= i <= self.reqs@.len(),
                view_id == ri.claim().view,
                seq_id == ri.claim().seq,
                digest@ == ri.claim().digest,
                forall|j: int| start <= j < i ==> #[trigger] self@[j].claim() != ri.claim(),
            decreases self.reqs@.len() - i,
        {
            let e = &self.reqs[i];
            if e.get_view_id() == view_id && e.get_seq_id() == seq_id && e.get_digest() == digest {
                return Some(i);
            }
            i = i + 1;
        }
        None
    }

    /// The senders that endorse the claim of `message`.
    fn find_approvers<N: NodeRequest>(&self, message: &N) -> (r: HashSet<ID>)
        ensures
            r@ == approvers_in(self@, message.claim()),
    {
        let ghost c = message.claim();
        let mut approvers: HashSet<ID> = HashSet::new();
        let mut i: usize = 0;
        while i < self.reqs.len()
            invariant
                i <= self@.len(),
                c == message.claim(),
                forall|id: ID|
                    approvers@.contains(id) <==> exists|j: int|
                        0 <= j < i && #[trigger] self@[j].claim() == c && self@[j].sender() == id,
            decreases self@.len() - i,
        {
            match self.position_of_claim(message, i) {
                Some(k) => {
                    let sender = self.reqs[k].get_sender_id();
                    approvers.insert(sender);
                    proof {
                        assert forall|id: ID|
                            approvers@.contains(id) <==> exists|j: int|
                                0 <= j < k + 1 && #[trigger] self@[j].claim() == c && self@[j].sender()
                                    == id by {
                            if id == sender {
                                assert(self@[k as int].claim() == c);
                            }
                        }
                    }
                    i = k + 1;
                },
                None => {
                    i = self.reqs.len();
                },
            }
        }
        proof {
            assert(approvers@ =~= approvers_in(self@, c));
        }
        approvers
    }

    /// Records `m`, replacing an earlier endorsement of the same claim by the same sender.
    /// This never fails.
    pub fn append(&mut self, m: M) -> (r: Result<(), String>)
        requires
            old(self).wf(),
        ensures
            r is Ok,
            final(self)@ == with_endorsement(old(self)@, m),
            final(self).policy() == old(self).policy(),
            final(self).wf(),
    {
        let sender = m.get_sender_id();
        let mut start: usize = 0;
        loop
            invariant
                start <= self@.len(),
                self@ == old(self)@,
                self.policy() == old(self).policy(),
                unique_endorsements(self@),
                sender == m.sender(),
                forall|j: int| 0 <= j < start ==> !same_endorsement(#[trigger] self@[j], m),
            decreases self@.len() - start,
        {
            let len = self.reqs.len();
            match self.position_of_claim(&m, start) {
                Some(k) => {
                    if self.reqs[k].get_sender_id() == sender {
                        proof {
                            assert(same_endorsement(self@[k as int], m));
                            let c = choose|i: int| 0 <= i < self@.len() && same_endorsement(#[trigger] self@[i], m);
                            assert(c == k);
                        }
                        self.reqs.set(k, m);
                        proof {
                            assert forall|i: int, j: int|
                                0 <= i < self@.len() && 0 <= j < self@.len() && i != j implies !same_endorsement(
                                    #[trigger] self@[i],
                                    #[trigger] self@[j],
                                ) by {
                                if i == k || j == k {
                                    let o = if i == k { j } else { i };
                                    assert(!same_endorsement(old(self)@[o], old(self)@[k as int]));
                                }
                                else {
                                    assert(!same_endorsement(old(self)@[i], old(self)@[j]));
                                }
                            }
                        }
                        return Ok(());
                    }
                    start = k + 1;
                },
                None => {
                    proof {
                        assert forall|j: int| 0 <= j < self@.len() implies !same_endorsement(
                            #[trigger] self@[j],
                            m,
                        ) by {
                            if j >= start {
                                assert(self@[j].claim() != m.claim());
                            }
                        }
                    }
                    self.reqs.push(m);
                    proof {
                        assert forall|i: int, j: int|
                            0 <= i < self@.len() && 0 <= j < self@.len() && i != j implies !same_endorsement(
                                #[trigger] self@[i],
                                #[trigger] self@[j],
                            ) by {
                            if i < old(self)@.len() && j < old(self)@.len() {
                                assert(!same_endorsement(old(self)@[i], old(self)@[j]));
                            }
                        }
                    }
                    return Ok(());
                },
            }
        }
    }

    /// The senders that endorse the claim of `ri`, or `None` when nobody does.
    fn get_approvers<N: NodeRequest>(&self, ri: &N) -> (r: Option<Vec<NodeID>>)
        requires
            self.wf(),
        ensures
            lists_approvers(r, self@, ri.claim()),
    {
        let ghost c = ri.claim();
        let mut senders: Vec<NodeID> = Vec::new();
        let mut i: usize = 0;
        while i < self.reqs.len()
            invariant
                i <= self@.len(),
                c == ri.claim(),
                unique_endorsements(self@),
                senders@.no_duplicates(),
                forall|id: ID|
                    senders@.contains(id) <==> exists|j: int|
                        0 <= j < i && #[trigger] self@[j].claim() == c && self@[j].sender() == id,
            decreases self@.len() - i,
        {
            match self.position_of_claim(ri, i) {
                Some(k) => {
                    let sender = self.reqs[k].get_sender_id();
                    proof {
                        if senders@.contains(sender) {
                            let j = choose|j: int|
                                0 <= j < i && #[trigger] self@[j].claim() == c && self@[j].sender()
                                    == sender;
                            assert(same_endorsement(self@[j], self@[k as int]));
                        }
                    }
                    let ghost before = senders@;
                    senders.push(sender);
                    proof {
                        assert forall|id: ID|
                            senders@.contains(id) <==> exists|j: int|
                                0 <= j < k + 1 && #[trigger] self@[j].claim() == c && self@[j].sender()
                                    == id by {
                            if exists|j: int|
                                0 <= j < k + 1 && #[trigger] self@[j].claim() == c && self@[j].sender()
                                    == id {
                                let j = choose|j: int|
                                    0 <= j < k + 1 && #[trigger] self@[j].claim() == c
                                        && self@[j].sender() == id;
                                if j < i {
                                    assert(before.contains(id));
                                    let x = choose|x: int| 0 <= x < before.len() && before[x] == id;
                                    assert(senders@[x] == id);
                                } else if j < k {
                                    assert(self@[j].claim() != c);
                                } else {
                                    assert(senders@[senders@.len() - 1] == id);
                                }
                            }
                            if senders@.contains(id) {
                                let x = choose|x: int| 0 <= x < senders@.len() && senders@[x] == id;
                                if x < before.len() {
                                    assert(before[x] == id);
                                    assert(before.contains(id));
                                    let j = choose|j: int|
                                        0 <= j < i && #[trigger] self@[j].claim() == c
                                            && self@[j].sender() == id;
                                    assert(0 <= j < k + 1);
                                } else {
                                    assert(self@[k as int].claim() == c);
                                }
                            }
                        }
                    }
                    i = k + 1;
                },
                None => {
                    i = self.reqs.len();
                },
            }
        }
        proof {
            assert(senders@.to_set() =~= approvers_in(self@, c));
        }
        if senders.len() == 0 {
            proof {
                assert(approvers_in(self@, c) =~= Set::empty());
            }
            None
        } else {
            proof {
                assert(approvers_in(self@, c).contains(senders@[0]));
            }
            Some(senders)
        }
    }

    /// The senders that endorse the claim of `rw`. This never fails.
    pub fn get_by_arc<N: NodeRequest>(&self, rw: &N) -> (r: Result<Option<Vec<NodeID>>, String>)
        requires
            self.wf(),
        ensures
            r matches Ok(o) && lists_approvers(o, self@, rw.claim()),
    {
        Ok(self.get_approvers(rw))
    }

    /// The earliest recorded endorsement of the claim of `message`, if any, whether or not
    /// the claim is certified; `find_certified` also asks for certification.
    pub fn find<N: NodeRequest>(&self, message: &N) -> (r: Option<&M>)
        ensures
            r is None <==> first_for(self@, message.claim()) is None,
            r matches Some(m) ==> first_for(self@, message.claim()) == Some(*m),
    {
        let ghost c = message.claim();
        match self.position_of_claim(message, 0) {
            Some(i) => {
                proof {
                    assert(is_first_for(self@, c, i as int));
                    let k = choose|k: int| is_first_for(self@, c, k);
                    if k < i {
                        assert(self@[k].claim() != c);
                    }
                    if i < k {
                        assert(self@[i as int].claim() != c);
                    }
                }
                Some(&self.reqs[i])
            },
            None => {
                proof {
                    if exists|k: int| is_first_for(self@, c, k) {
                        let k = choose|k: int| is_first_for(self@, c, k);
                        assert(self@[k].claim() != c);
                    }
                }
                None
            },
        }
    }
}

/// Recording `m` adds its sender to the approvers of its claim and leaves the approvers of
/// every other claim as they were.
pub proof fn lemma_approvers_after_append<M: NodeRequest>(s: Seq<M>, m: M, c: ClaimKey)
    ensures
        approvers_in(with_endorsement(s, m), c) == if c == m.claim() {
            approvers_in(s, c).insert(m.sender())
        } else {
            approvers_in(s, c)
        },
{
    let t = with_endorsement(s, m);
    let expected = if c == m.claim() {
        approvers_in(s, c).insert(m.sender())
    } else {
        approvers_in(s, c)
    };
    if exists|i: int| 0 <= i < s.len() && same_endorsement(#[trigger] s[i], m) {
        let k = choose|i: int| 0 <= i < s.len() && same_endorsement(#[trigger] s[i], m);
        assert forall|id: NodeID| approvers_in(t, c).contains(id) <==> expected.contains(id) by {
            if approvers_in(t, c).contains(id) {
                let j = choose|j: int| 0 <= j < t.len() && #[trigger] t[j].claim() == c && t[j].sender() == id;
                if j != k {
                    assert(s[j].claim() == c);
                } else {
                    assert(s[k].claim() == c);
                }
            }
            if approvers_in(s, c).contains(id) {
                let j = choose|j: int| 0 <= j < s.len() && #[trigger] s[j].claim() == c && s[j].sender() == id;
                assert(t[j].claim() == c);
            }
            if c == m.claim() && id == m.sender() {
                assert(t[k].claim() == c);
            }
        }
    } else {
        assert forall|id: NodeID| approvers_in(t, c).contains(id) <==> expected.contains(id) by {
            if approvers_in(t, c).contains(id) {
                let j = choose|j: int| 0 <= j < t.len() && #[trigger] t[j].claim() == c && t[j].sender() == id;
                if j < s.len() {
                    assert(s[j].claim() == c);
                }
            }
            if approvers_in(s, c).contains(id) {
                let j = choose|j: int| 0 <= j < s.len() && #[trigger] s[j].claim() == c && s[j].sender() == id;
                assert(t[j].claim() == c);
            }
            if c == m.claim() && id == m.sender() {
                assert(t[s.len() as int].claim() == c);
            }
        }
    }
    assert(approvers_in(t, c) =~= expected);
}

/// Recording the same sender's endorsement of a claim a second time neither adds an entry
/// nor counts that sender again.
pub proof fn lemma_repeated_endorsement_counts_once<M: NodeRequest>(
    s: Seq<M>,
    m: M,
    again: M,
    c: ClaimKey,
)
    requires
        same_endorsement(m, again),
    ensures
        with_endorsement(with_endorsement(s, m), again).len() == with_endorsement(s, m).len(),
        approvers_in(with_endorsement(with_endorsement(s, m), again), c) == approvers_in(
            with_endorsement(s, m),
            c,
        ),
{
    let t = with_endorsement(s, m);
    if exists|i: int| 0 <= i < s.len() && same_endorsement(#[trigger] s[i], m) {
        let k = choose|i: int| 0 <= i < s.len() && same_endorsement(#[trigger] s[i], m);
        assert(same_endorsement(t[k], again));
    } else {
        assert(same_endorsement(t[s.len() as int], again));
    }
    lemma_approvers_after_append(s, m, c);
    lemma_approvers_after_append(t, again, c);
    assert(approvers_in(with_endorsement(t, again), c) =~= approvers_in(t, c));
}

proof fn lemma_earliest_exists<M: NodeRequest>(s: Seq<M>, c: ClaimKey, i: int)
    requires
        0 <= i < s.len(),
        s[i].claim() == c,
    ensures
        exists|k: int| is_first_for(s, c, k),
    decreases i,
{
    if exists|j: int| 0 <= j < i && #[trigger] s[j].claim() == c {
        let j = choose|j: int| 0 <= j < i && #[trigger] s[j].claim() == c;
        lemma_earliest_exists(s, c, j);
    } else {
        assert(is_first_for(s, c, i));
    }
}

/// The earliest endorsement of a claim exists exactly when someone endorses the claim, and
/// it is one of the recorded endorsements of that claim.
pub proof fn lemma_first_for_endorses<M: NodeRequest>(s: Seq<M>, c: ClaimKey)
    ensures
        first_for(s, c) is None <==> approvers_in(s, c).is_empty(),
        first_for(s, c) matches Some(m) ==> m.claim() == c && s.contains(m),
{
    if !approvers_in(s, c).is_empty() {
        let id = approvers_in(s, c).choose();
        assert(approvers_in(s, c).contains(id));
        let j = choose|j: int| 0 <= j < s.len() && #[trigger] s[j].claim() == c && s[j].sender() == id;
        lemma_earliest_exists(s, c, j);
    }
    if first_for(s, c) is Some {
        let k = choose|k: int| is_first_for(s, c, k);
        assert(approvers_in(s, c).contains(s[k].sender()));
    } else {
        assert forall|id: NodeID| !approvers_in(s, c).contains(id) by {
            if approvers_in(s, c).contains(id) {
                let j = choose|j: int| 0 <= j < s.len() && #[trigger] s[j].claim() == c && s[j].sender() == id;
                lemma_earliest_exists(s, c, j);
            }
        }
        assert(approvers_in(s, c) =~= Set::empty());
    }
}

/// After a proposal is recorded, looking up its claim yields a proposal with its payload,
/// as long as every proposal recorded for that claim carries that payload.
pub proof fn lemma_find_returns_proposal(s: Seq<PrePrepare>, pp: PrePrepare)
    requires
        forall|i: int| 0 <= i < s.len() && #[trigger] s[i].claim() == pp.claim() ==> s[i].message == pp.message,
    ensures
        first_for(with_endorsement(s, pp), pp.claim()) matches Some(found) && found.message
            == pp.message,
{
    let t = with_endorsement(s, pp);
    lemma_approvers_after_append(s, pp, pp.claim());
    assert(approvers_in(t, pp.claim()).contains(pp.sender()));
    lemma_first_for_endorses(t, pp.claim());
    let found = first_for(t, pp.claim())->Some_0;
    let j = choose|j: int| 0 <= j < t.len() && t[j] == found;
    if exists|i: int| 0 <= i < s.len() && same_endorsement(#[trigger] s[i], pp) {
        let k = choose|i: int| 0 <= i < s.len() && same_endorsement(#[trigger] s[i], pp);
        if j != k {
            assert(s[j] == found);
        }
    } else {
        if j < s.len() {
            assert(s[j] == found);
        }
    }
}

impl<M: NodeRequest> RequestTable<M> {
    /// The earliest recorded endorsement of the claim of `message` when this table's policy
    /// certifies the claim over `all_nodes`, and `None` when it does not.
    pub fn find_certified<N: NodeRequest>(&self, message: &N, all_nodes: &HashSet<ID>) -> (r: Option<&M>)
        ensures
            r is None <==> !self.policy().holds(all_nodes@, approvers_in(self@, message.claim())),
            r matches Some(m) ==> first_for(self@, message.claim()) == Some(*m),
    {
        if !self.is_sufficient(message, all_nodes) {
            return None;
        }
        proof {
            lemma_first_for_endorses(self@, message.claim());
            let c = message.claim();
            if self.policy() == SufficiencyChecker::One {
                let x = choose|x: ID| all_nodes@.contains(x) && approvers_in(self@, c).contains(x);
                assert(approvers_in(self@, c).contains(x));
            } else {
                assert(all_nodes@.intersect(approvers_in(self@, c)).len() > 0);
                if approvers_in(self@, c).is_empty() {
                    assert(all_nodes@.intersect(approvers_in(self@, c)) =~= Set::empty());
                }
            }
        }
        self.find(message)
    }
}

} // verus!

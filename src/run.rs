use vstd::prelude::*;
use crate::harness::RunOutcome;
use crate::node::{NodeAction, NodeEvent, NodePhase, RingNode};
use crate::topology::{is_ring, ring_segment, RingTopology, Segment};
use vstd::set_lib::{lemma_int_range, lemma_len_subset, set_int_range};

verus! {

/// What one run of the ring protocol did. With a single token in flight the
/// run is the same under every schedule: the token passes from each node to
/// the next, so it can be played out one event at a time.
#[derive(Debug)]
pub struct RingRun {
    /// How the driver, which waits for the first completion signal, sees the run.
    pub outcome: RunOutcome,
    /// Completion signals sent on the shared completion channel.
    pub completions: usize,
    /// Live tokens accepted by outbound edges, over the whole ring.
    pub forwarded: usize,
    /// Every node's state when the run ended.
    pub nodes: Vec<RingNode>,
}

/// State of node `j` while the token circulates in round `r`, having reached
/// position `p` of that round.
pub open spec fn circulating(j: int, max: usize, r: int, p: int) -> RingNode {
    RingNode {
        index: j as usize,
        max,
        count: (r + if j < p { 1int } else { 0int }) as usize,
        phase: NodePhase::Receiving,
    }
}

/// State of node `j` once a run over a ring is over: it forwarded `max` live
/// tokens and then one termination signal, and its loop has ended.
pub open spec fn wound_down(j: int, max: usize) -> RingNode {
    RingNode { index: j as usize, max, count: (max + 1) as usize, phase: NodePhase::Finished }
}

/// The first `k` edges of `segs` lead each node to the next, and edge `k`
/// leads to no node at all: the token injected at the root is lost there.
pub open spec fn dangles_at(segs: Seq<Segment>, k: int) -> bool {
    &&& 0 <= k < segs.len()
    &&& segs[k].target >= segs.len()
    &&& forall|i: int| 0 <= i < k ==> (#[trigger] segs[i]).target == i + 1
}

/// Sum of the nodes' counts: the sends their outbound edges accepted.
pub open spec fn total_count(nodes: Seq<RingNode>) -> int
    decreases nodes.len(),
{
    if nodes.len() == 0 {
        0
    } else {
        total_count(nodes.drop_last()) + nodes.last().count
    }
}

proof fn lemma_total_update(nodes: Seq<RingNode>, i: int, v: RingNode)
    requires
        0 <= i < nodes.len(),
    ensures
        total_count(nodes.update(i, v)) == total_count(nodes) - nodes[i].count + v.count,
    decreases nodes.len(),
{
    let u = nodes.update(i, v);
    if i < nodes.len() - 1 {
        lemma_total_update(nodes.drop_last(), i, v);
        assert(u.drop_last() =~= nodes.drop_last().update(i, v));
    } else {
        assert(u.drop_last() =~= nodes.drop_last());
    }
}

proof fn lemma_total_bound(nodes: Seq<RingNode>, max: usize)
    requires
        forall|j: int| 0 <= j < nodes.len() ==> (#[trigger] nodes[j]).count <= max,
    ensures
        0 <= total_count(nodes) <= nodes.len() * max,
    decreases nodes.len(),
{
    if nodes.len() > 0 {
        let t = nodes.drop_last();
        assert(forall|j: int| 0 <= j < t.len() ==> t[j] == nodes[j]);
        lemma_total_bound(t, max);
        assert(nodes.last().count <= max);
        assert(t.len() * max + max == nodes.len() * max) by (nonlinear_arith)
            requires t.len() + 1 == nodes.len();
    }
}

/// Plays the wiring out: a live token (value 1) is injected at the root and
/// every node runs its protocol; an edge whose target is no node has no
/// reader, so a send on it fails. The run ends when the token is lost that
/// way or reaches a node whose loop is over.
///
/// On a ring every node forwards `max` live tokens and then one termination
/// signal, and every node signals completion once, so the driver receives a
/// completion signal.
#[verifier::rlimit(50)]
pub fn run_ring(topology: &RingTopology, max: usize) -> (r: RingRun)
    requires
        topology@.len() * max <= usize::MAX,
    ensures
        r.completions <= topology@.len(),
        r.outcome == RunOutcome::Completed <==> r.completions > 0,
        r.outcome == RunOutcome::HungUp <==> r.completions == 0,
        r.forwarded <= topology@.len() * max,
        r.nodes@.len() == topology@.len(),
        is_ring(topology@) ==> {
            &&& r.outcome == RunOutcome::Completed
            &&& r.completions == topology@.len()
            &&& r.forwarded == topology@.len() * max
            &&& forall|j: int| 0 <= j < r.nodes@.len() ==> #[trigger] r.nodes@[j] == wound_down(j, max)
        },
        forall|k: int| dangles_at(topology@, k) && (max > 0 || k == 0) ==> {
            &&& r.outcome == RunOutcome::HungUp
            &&& r.completions == 0
        },
{
    let n = topology.len();
    let ring = topology.is_closed_ring();
    if ring {
        assert(2 * max <= usize::MAX) by (nonlinear_arith)
            requires n >= 2, n * max <= usize::MAX;
    }
    let ghost hang = exists|k: int| dangles_at(topology@, k) && (max > 0 || k == 0);
    let ghost k: int = if hang { choose|k: int| dangles_at(topology@, k) && (max > 0 || k == 0) } else { 0 };
    proof {
        if hang && ring {
            assert(topology@[k] == ring_segment(n as nat, k as nat));
        }
    }
    let mut nodes: Vec<RingNode> = Vec::new();
    let mut i: usize = 0;
    while i < n
        invariant
            i <= n,
            nodes@.len() == i,
            forall|j: int| 0 <= j < i ==> #[trigger] nodes@[j] == circulating(j, max, 0, 0),
        decreases n - i,
    {
        nodes.push(RingNode::new(i, max));
        i = i + 1;
    }
    if n == 0 {
        return RingRun { outcome: RunOutcome::HungUp, completions: 0, forwarded: 0, nodes };
    }
    proof {
        assert(forall|j: int| 0 <= j < n ==> (#[trigger] nodes@[j]).count == 0);
        lemma_prefix_total_zero(nodes@, n as int);
        assert(nodes@.subrange(0, n as int) =~= nodes@);
        lemma_int_range(0, n as int);
    }
    let mut at: usize = 0;
    let mut token: Option<usize> = Some(1);
    let mut forwarded: usize = 0;
    let mut completions: usize = 0;
    let ghost mut round: int = 0;
    let ghost mut p: int = 0;
    let ghost mut finished: Set<int> = Set::empty();
    loop
        invariant
            n == topology@.len(),
            ring == is_ring(topology@),
            hang == exists|k: int| dangles_at(topology@, k) && (max > 0 || k == 0),
            hang ==> dangles_at(topology@, k) && (max > 0 || k == 0),
            n * max <= usize::MAX,
            ring ==> 2 * max <= usize::MAX,
            nodes@.len() == n,
            at < n,
            forwarded <= n * max,
            set_int_range(0, n as int).finite(),
            set_int_range(0, n as int).len() == n,
            finished.subset_of(set_int_range(0, n as int)),
            finished.len() == completions,
            forall|j: int| 0 <= j < n ==> ((#[trigger] nodes@[j]).phase == NodePhase::Finished <==> finished.contains(j)),
            forall|j: int| 0 <= j < n ==> (#[trigger] nodes@[j]).phase != NodePhase::Sending && nodes@[j].phase != NodePhase::Closing,
            token is Some ==> {
                &&& completions == 0
                &&& forwarded == total_count(nodes@)
                &&& forall|j: int| 0 <= j < n ==> {
                    &&& (#[trigger] nodes@[j]).max == max
                    &&& nodes@[j].count <= max
                    &&& nodes@[j].phase == NodePhase::Receiving
                }
            },
            hang ==> {
                &&& token is Some
                &&& at <= k
                &&& forall|j: int| at <= j < n ==> (#[trigger] nodes@[j]).count == 0
            },
            ring && token is Some ==> {
                &&& token == Some(1usize)
                &&& 0 <= round <= max
                &&& round == max ==> at == 0
                &&& forwarded == round * n + at
                &&& forall|j: int| 0 <= j < n ==> #[trigger] nodes@[j] == circulating(j, max, round, at as int)
            },
            ring && token is None ==> {
                &&& 1 <= p <= n
                &&& at == (if p < n { p } else { 0 })
                &&& completions == p
                &&& forwarded == n * max
                &&& forall|j: int| 0 <= j < p ==> #[trigger] nodes@[j] == wound_down(j, max)
                &&& forall|j: int| p <= j < n ==> #[trigger] nodes@[j] == circulating(j, max, max as int, 0)
            },
        decreases n * max - forwarded + if token is Some { n + 1 } else { n - completions },
    {
        let mut node = nodes[at];
        let action = node.step(NodeEvent::Received(token));
        match action {
            NodeAction::Send(out) => {
                let ghost before = nodes@;
                let next = topology.segments[at].target;
                if ring {
                    assert(topology@[at as int] == ring_segment(n as nat, at as nat));
                }
                if next >= n {
                    node.step(NodeEvent::SendFailed);
                    nodes.set(at, node);
                    proof {
                        lemma_len_subset(finished, set_int_range(0, n as int));
                        assert forall|kk: int| dangles_at(topology@, kk) && (max > 0 || kk == 0) implies completions == 0 by {
                            assert(hang);
                        }
                    }
                    let outcome = if completions > 0 { RunOutcome::Completed } else { RunOutcome::HungUp };
                    return RingRun { outcome, completions, forwarded, nodes };
                }
                node.step(NodeEvent::Sent);
                nodes.set(at, node);
                if out.is_some() {
                    proof {
                        lemma_total_update(before, at as int, node);
                        lemma_total_bound(nodes@, max);
                        if hang {
                            assert(topology@[at as int].target == at + 1);
                        }
                    }
                    if ring {
                        assert(round < max);
                    }
                    forwarded = forwarded + 1;
                    if ring && at + 1 == n {
                        proof {
                            assert(round * n + n == (round + 1) * n) by (nonlinear_arith);
                            round = round + 1;
                        }
                    }
                } else {
                    proof {
                        lemma_len_subset(finished.insert(at as int), set_int_range(0, n as int));
                        finished = finished.insert(at as int);
                        if ring {
                            if token is Some {
                                assert(round == max);
                                assert(round * n == n * max) by (nonlinear_arith)
                                    requires round == max;
                                p = 1;
                            } else {
                                p = p + 1;
                            }
                        }
                    }
                    completions = completions + 1;
                }
                token = out;
                at = next;
            },
            _ => {
                nodes.set(at, node);
                proof {
                    lemma_len_subset(finished, set_int_range(0, n as int));
                    assert forall|kk: int| dangles_at(topology@, kk) && (max > 0 || kk == 0) implies completions == 0 by {
                        assert(hang);
                    }
                }
                let outcome = if completions > 0 { RunOutcome::Completed } else { RunOutcome::HungUp };
                return RingRun { outcome, completions, forwarded, nodes };
            },
        }
    }
}

proof fn lemma_prefix_total_zero(s: Seq<RingNode>, m: int)
    requires
        0 <= m <= s.len(),
        forall|j: int| 0 <= j < s.len() ==> (#[trigger] s[j]).count == 0,
    ensures
        total_count(s.subrange(0, m)) == 0,
    decreases m,
{
    if m > 0 {
        lemma_prefix_total_zero(s, m - 1);
        assert(s.subrange(0, m).drop_last() =~= s.subrange(0, m - 1));
    }
}

} // verus!

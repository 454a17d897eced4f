use vstd::prelude::*;
use crate::config::ConfigError;

verus! {

/// One edge of the ring: the outbound channel of `source`, read by `target`.
#[derive(Clone, Copy, Debug, PartialEq, Eq, Structural)]
pub struct Segment {
    pub source: usize,
    pub target: usize,
}

/// The wiring of a ring as a flat list of edges, one per node: edge `i` is the
/// outbound edge of node `i`. Node 0 is the root, whose inbound edge also
/// takes the injected first token.
#[derive(Debug)]
pub struct RingTopology {
    pub segments: Vec<Segment>,
}

/// The node after `i` in a ring of `n` nodes.
pub open spec fn successor(n: nat, i: nat) -> nat {
    if i + 1 < n {
        i + 1
    } else {
        0
    }
}

/// The edge that leaves node `i` in a ring of `n` nodes.
pub open spec fn ring_segment(n: nat, i: nat) -> Segment {
    Segment { source: i as usize, target: successor(n, i) as usize }
}

/// `segs` wires `segs.len()` nodes, at least two, into one cycle in index
/// order: each node sends to the next and the last one sends to the root.
pub open spec fn is_ring(segs: Seq<Segment>) -> bool {
    &&& 1 < segs.len() <= usize::MAX
    &&& forall|i: int| 0 <= i < segs.len() ==> #[trigger] segs[i] == ring_segment(segs.len(), i as nat)
}

impl View for RingTopology {
    type V = Seq<Segment>;

    open spec fn view(&self) -> Seq<Segment> {
        self.segments@
    }
}

impl RingTopology {
    /// Wires `num_nodes` nodes into a ring; fewer than two are refused.
    pub fn build(num_nodes: usize) -> (r: Result<RingTopology, ConfigError>)
        ensures
            num_nodes <= 1 <==> r is Err,
            r is Err ==> r->Err_0 == ConfigError::TooFewNodes,
            r is Ok ==> is_ring(r->Ok_0@) && r->Ok_0@.len() == num_nodes,
    {
        if num_nodes <= 1 {
            return Err(ConfigError::TooFewNodes);
        }
        let mut segments: Vec<Segment> = Vec::new();
        let mut i: usize = 0;
        while i < num_nodes
            invariant
                i <= num_nodes,
                segments@.len() == i,
                forall|j: int| 0 <= j < i ==> #[trigger] segments@[j] == ring_segment(num_nodes as nat, j as nat),
            decreases num_nodes - i,
        {
            let target: usize = if i + 1 < num_nodes { i + 1 } else { 0 };
            segments.push(Segment { source: i, target });
            i = i + 1;
        }
        Ok(RingTopology { segments })
    }

    /// Number of nodes (and of edges).
    pub fn len(&self) -> (r: usize)
        ensures
            r == self@.len(),
    {
        self.segments.len()
    }

    /// Whether the wiring is a single closed cycle in index order.
    pub fn is_closed_ring(&self) -> (r: bool)
        ensures
            r == is_ring(self@),
    {
        let n = self.segments.len();
        if n <= 1 {
            return false;
        }
        let mut i: usize = 0;
        while i < n
            invariant
                n == self@.len(),
                n > 1,
                i <= n,
                forall|j: int| 0 <= j < i ==> #[trigger] self@[j] == ring_segment(n as nat, j as nat),
            decreases n - i,
        {
            let s = self.segments[i];
            let target: usize = if i + 1 < n { i + 1 } else { 0 };
            if s.source != i || s.target != target {
                assert(self@[i as int] != ring_segment(n as nat, i as nat));
                return false;
            }
            i = i + 1;
        }
        true
    }
}

} // verus!

use vstd::prelude::*;
use crate::node::{transition, NodeAction, NodeEvent, NodePhase, RingNode};
use crate::topology::{is_ring, ring_segment, Segment};

verus! {

/// Wiring is deterministic: two rings of the same size have the same edges,
/// so building a ring twice with the same parameters gives the same topology,
/// with the same edge count and the same closing edge.
pub proof fn wiring_is_unique(a: Seq<Segment>, b: Seq<Segment>)
    requires
        is_ring(a),
        is_ring(b),
        a.len() == b.len(),
    ensures
        a == b,
{
    assert forall|i: int| 0 <= i < a.len() implies a[i] == b[i] by {
        assert(a[i] == ring_segment(a.len(), i as nat));
        assert(b[i] == ring_segment(b.len(), i as nat));
    }
    assert(a =~= b);
}

/// With a quota of zero a fresh node turns the very first token it receives
/// into the termination signal, whatever the token's value.
pub proof fn zero_quota_terminates_at_once(index: usize, value: usize)
    ensures
        transition(
            RingNode { index, max: 0, count: 0, phase: NodePhase::Receiving },
            NodeEvent::Received(Some(value)),
        ).1 == NodeAction::Send(None),
{
}

/// A node forwards a live token unchanged while its count is below its quota,
/// and sends the termination signal instead once the quota is reached.
pub proof fn quota_decides_forwarding(n: RingNode, value: usize)
    requires
        n.phase == NodePhase::Receiving,
        n.count <= n.max,
    ensures
        n.count < n.max ==> transition(n, NodeEvent::Received(Some(value))).1 == NodeAction::Send(Some(value)),
        n.count == n.max ==> transition(n, NodeEvent::Received(Some(value))).1 == NodeAction::Send(None),
{
}

/// How many live tokens of `s` a node forwards with `quota` forwards left:
/// those before the first termination signal, at most `quota` of them.
pub open spec fn live_run(s: Seq<Option<usize>>, quota: nat) -> nat
    decreases s.len(),
{
    if s.len() == 0 || s[0] is None || quota == 0 {
        0
    } else {
        1 + live_run(s.drop_first(), (quota - 1) as nat)
    }
}

proof fn lemma_live_run_bound(s: Seq<Option<usize>>, quota: nat)
    ensures
        live_run(s, quota) <= s.len(),
        live_run(s, quota) <= quota,
    decreases s.len(),
{
    if s.len() > 0 && s[0] is Some && quota > 0 {
        lemma_live_run_bound(s.drop_first(), (quota - 1) as nat);
    }
}

/// Whether `s` brings a node with `quota` forwards left to the end of its
/// loop: it holds a termination signal, or more than `quota` live tokens.
pub open spec fn ends_loop(s: Seq<Option<usize>>, quota: nat) -> bool
    decreases s.len(),
{
    s.len() > 0 && (s[0] is None || quota == 0 || ends_loop(s.drop_first(), (quota - 1) as nat))
}

/// A node fed `inputs` one by one, every send accepted: its final state, the
/// tokens it sent downstream, and the completion signals it sent.
pub open spec fn relay(n: RingNode, inputs: Seq<Option<usize>>) -> (RingNode, Seq<Option<usize>>, nat)
    decreases inputs.len(),
{
    if inputs.len() == 0 || n.phase != NodePhase::Receiving {
        (n, Seq::empty(), 0)
    } else {
        let (n1, a1) = transition(n, NodeEvent::Received(inputs[0]));
        match a1 {
            NodeAction::Send(t) => {
                let (n2, a2) = transition(n1, NodeEvent::Sent);
                let rest = relay(n2, inputs.drop_first());
                (rest.0, seq![t] + rest.1, rest.2 + if a2 == NodeAction::SignalCompletion { 1nat } else { 0nat })
            },
            _ => (n1, Seq::empty(), 0),
        }
    }
}

/// A node's loop: it forwards its live inputs unchanged and in order until
/// it has forwarded its quota or meets a termination signal, then sends one
/// termination signal, whatever the next input held, reads no further input,
/// and signals completion exactly once. Input that does not end the loop is
/// forwarded whole, with no completion signal.
pub proof fn relay_sends_prefix_then_termination(n: RingNode, inputs: Seq<Option<usize>>)
    requires
        n.phase == NodePhase::Receiving,
        n.count <= n.max,
        n.max < usize::MAX,
    ensures
        ends_loop(inputs, (n.max - n.count) as nat) ==> {
            let j = live_run(inputs, (n.max - n.count) as nat) as int;
            &&& relay(n, inputs).1 == inputs.take(j).push(None)
            &&& relay(n, inputs).2 == 1
            &&& relay(n, inputs).0.phase == NodePhase::Finished
            &&& relay(n, inputs).0.count == n.count + j + 1
        },
        !ends_loop(inputs, (n.max - n.count) as nat) ==> {
            &&& relay(n, inputs).1 == inputs
            &&& relay(n, inputs).2 == 0
            &&& relay(n, inputs).0.phase == NodePhase::Receiving
        },
    decreases inputs.len(),
{
    let q = (n.max - n.count) as nat;
    if inputs.len() > 0 {
        let rest = inputs.drop_first();
        if inputs[0] is None || q == 0 {
            let n1 = RingNode { phase: NodePhase::Closing, ..n };
            let n2 = RingNode { phase: NodePhase::Finished, count: (n.count + 1) as usize, ..n };
            assert(transition(n, NodeEvent::Received(inputs[0])) == (n1, NodeAction::Send(None)));
            assert(transition(n1, NodeEvent::Sent) == (n2, NodeAction::SignalCompletion));
            assert(relay(n2, rest) == (n2, Seq::<Option<usize>>::empty(), 0nat));
            assert(live_run(inputs, q) == 0);
            assert(inputs.take(0).push(None) =~= seq![None::<usize>]);
            assert(seq![None::<usize>] + Seq::<Option<usize>>::empty() =~= seq![None::<usize>]);
        } else {
            let n2 = RingNode { count: (n.count + 1) as usize, ..n };
            let n1 = RingNode { phase: NodePhase::Sending, ..n };
            relay_sends_prefix_then_termination(n2, rest);
            assert(transition(n, NodeEvent::Received(inputs[0])) == (n1, NodeAction::Send(inputs[0])));
            assert(transition(n1, NodeEvent::Sent) == (n2, NodeAction::Receive));
            assert(relay(n, inputs).0 == relay(n2, rest).0);
            assert(relay(n, inputs).2 == relay(n2, rest).2);
            assert(relay(n, inputs).1 == seq![inputs[0]] + relay(n2, rest).1);
            assert(ends_loop(inputs, q) == ends_loop(rest, (q - 1) as nat));
            assert(live_run(inputs, q) == 1 + live_run(rest, (q - 1) as nat));
            let j = live_run(rest, (q - 1) as nat) as int;
            lemma_live_run_bound(rest, (q - 1) as nat);
            assert(seq![inputs[0]] + rest.take(j).push(None) =~= inputs.take(j + 1).push(None));
            assert(seq![inputs[0]] + rest =~= inputs);
        }
    } else {
        assert(inputs =~= Seq::<Option<usize>>::empty());
    }
}

/// The smallest ring, of two nodes, closes: node 0 sends to node 1 and node 1
/// sends back to the root.
pub proof fn minimal_ring_closes(segs: Seq<Segment>)
    requires
        is_ring(segs),
        segs.len() == 2,
    ensures
        segs[0] == (Segment { source: 0, target: 1 }),
        segs[1] == (Segment { source: 1, target: 0 }),
{
    assert(segs[0] == ring_segment(2, 0));
    assert(segs[1] == ring_segment(2, 1));
}

/// The last edge of every ring leads back to the root.
pub proof fn ring_is_closed(segs: Seq<Segment>)
    requires
        is_ring(segs),
    ensures
        segs[segs.len() - 1].source == segs.len() - 1,
        segs[segs.len() - 1].target == 0,
        forall|i: int| 0 <= i < segs.len() - 1 ==> (#[trigger] segs[i]).target == i + 1,
{
    assert(segs[segs.len() - 1] == ring_segment(segs.len(), (segs.len() - 1) as nat));
    assert forall|i: int| 0 <= i < segs.len() - 1 implies (#[trigger] segs[i]).target == i + 1 by {
        assert(segs[i] == ring_segment(segs.len(), i as nat));
    }
}

} // verus!

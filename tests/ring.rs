use tokio_ring::config::{parse_args, parse_count, ConfigError, RingConfig};
use tokio_ring::harness::{completion_outcome, RunOutcome};
use tokio_ring::node::{NodeAction, NodeEvent, NodePhase, RingNode};
use tokio_ring::run::run_ring;
use tokio_ring::topology::{RingTopology, Segment};

fn args(list: &[&str]) -> Vec<String> {
    list.iter().map(|a| a.to_string()).collect()
}

#[test]
fn config_accepts_two_or_more_nodes() {
    assert_eq!(
        RingConfig::new(2, 0),
        Ok(RingConfig { num_nodes: 2, num_times: 0 })
    );
    assert_eq!(
        RingConfig::new(1000, 50),
        Ok(RingConfig { num_nodes: 1000, num_times: 50 })
    );
}

#[test]
fn config_refuses_one_or_zero_nodes() {
    assert_eq!(RingConfig::new(1, 5), Err(ConfigError::TooFewNodes));
    assert_eq!(RingConfig::new(0, 5), Err(ConfigError::TooFewNodes));
}

#[test]
fn channel_capacity_is_message_count_but_at_least_one() {
    assert_eq!(RingConfig { num_nodes: 3, num_times: 0 }.channel_capacity(), 1);
    assert_eq!(RingConfig { num_nodes: 3, num_times: 1 }.channel_capacity(), 1);
    assert_eq!(RingConfig { num_nodes: 3, num_times: 250 }.channel_capacity(), 250);
}

#[test]
fn parse_count_reads_decimal_numbers() {
    assert_eq!(parse_count("0"), Some(0));
    assert_eq!(parse_count("42"), Some(42));
    assert_eq!(parse_count("+7"), Some(7));
    assert_eq!(parse_count("007"), Some(7));
    assert_eq!(parse_count(&usize::MAX.to_string()), Some(usize::MAX));
}

#[test]
fn parse_count_refuses_other_text() {
    assert_eq!(parse_count(""), None);
    assert_eq!(parse_count("+"), None);
    assert_eq!(parse_count("-1"), None);
    assert_eq!(parse_count("12a"), None);
    assert_eq!(parse_count(" 3"), None);
    assert_eq!(parse_count("++3"), None);
    assert_eq!(parse_count(&format!("{}0", usize::MAX)), None);
    assert_eq!(parse_count("99999999999999999999999999"), None);
}

#[test]
fn parse_args_reads_both_counts() {
    assert_eq!(
        parse_args(&args(&["ring", "3", "2"])),
        Ok(RingConfig { num_nodes: 3, num_times: 2 })
    );
    assert_eq!(
        parse_args(&args(&["ring", "10", "0", "extra"])),
        Ok(RingConfig { num_nodes: 10, num_times: 0 })
    );
}

#[test]
fn parse_args_reports_usage_errors() {
    assert_eq!(parse_args(&args(&[])), Err(ConfigError::Usage));
    assert_eq!(parse_args(&args(&["ring", "3"])), Err(ConfigError::Usage));
    assert_eq!(parse_args(&args(&["ring", "x", "2"])), Err(ConfigError::Usage));
    assert_eq!(parse_args(&args(&["ring", "3", "-2"])), Err(ConfigError::Usage));
}

#[test]
fn parse_args_refuses_too_few_nodes() {
    assert_eq!(parse_args(&args(&["ring", "1", "2"])), Err(ConfigError::TooFewNodes));
    assert_eq!(parse_args(&args(&["ring", "0", "2"])), Err(ConfigError::TooFewNodes));
    // the node count is judged before the message count is read
    assert_eq!(parse_args(&args(&["ring", "1", "x"])), Err(ConfigError::TooFewNodes));
}

#[test]
fn node_forwards_until_quota_then_terminates() {
    let mut node = RingNode::new(0, 2);
    for expected_count in 0..2 {
        assert_eq!(node.count, expected_count);
        assert_eq!(node.step(NodeEvent::Received(Some(9))), NodeAction::Send(Some(9)));
        assert_eq!(node.phase, NodePhase::Sending);
        assert_eq!(node.step(NodeEvent::Sent), NodeAction::Receive);
    }
    assert_eq!(node.count, 2);
    assert_eq!(node.step(NodeEvent::Received(Some(9))), NodeAction::Send(None));
    assert_eq!(node.phase, NodePhase::Closing);
    assert_eq!(node.step(NodeEvent::Sent), NodeAction::SignalCompletion);
    assert_eq!(node.count, 3);
    assert!(node.is_finished());
    // the forced termination signal ends the loop: nothing more is read
    assert_eq!(node.step(NodeEvent::Received(Some(30))), NodeAction::Exit);
}

#[test]
fn node_sends_a_prefix_of_its_live_inputs() {
    let mut node = RingNode::new(0, 1);
    let mut sent = Vec::new();
    for token in [Some(10), Some(20), Some(30)] {
        match node.step(NodeEvent::Received(token)) {
            NodeAction::Send(out) => {
                sent.push(out);
                node.step(NodeEvent::Sent);
            }
            _ => break,
        }
    }
    assert_eq!(sent, vec![Some(10), None]);
    assert!(node.is_finished());
}

#[test]
fn node_with_zero_quota_terminates_on_first_token() {
    let mut node = RingNode::new(0, 0);
    assert_eq!(node.step(NodeEvent::Received(Some(1))), NodeAction::Send(None));
    assert_eq!(node.step(NodeEvent::Sent), NodeAction::SignalCompletion);
    // the closed inbound edge is never looked at again
    assert_eq!(node.step(NodeEvent::InboundClosed), NodeAction::Exit);
}

#[test]
fn node_relays_termination_input_then_signals_completion() {
    let mut node = RingNode::new(1, 5);
    assert_eq!(node.step(NodeEvent::Received(Some(4))), NodeAction::Send(Some(4)));
    assert_eq!(node.step(NodeEvent::Sent), NodeAction::Receive);
    assert_eq!(node.step(NodeEvent::Received(None)), NodeAction::Send(None));
    assert_eq!(node.step(NodeEvent::Sent), NodeAction::SignalCompletion);
    assert!(node.is_finished());
    assert_eq!(node.count, 2);
    assert_eq!(node.step(NodeEvent::Received(Some(1))), NodeAction::Exit);
}

#[test]
fn node_exits_silently_when_termination_relay_fails() {
    let mut node = RingNode::new(1, 5);
    assert_eq!(node.step(NodeEvent::Received(None)), NodeAction::Send(None));
    assert_eq!(node.step(NodeEvent::SendFailed), NodeAction::Exit);
    assert!(node.is_finished());
}

#[test]
fn node_exits_silently_on_channel_failure() {
    let mut closed = RingNode::new(1, 5);
    assert_eq!(closed.step(NodeEvent::InboundClosed), NodeAction::Exit);
    assert!(closed.is_finished());

    let mut failed = RingNode::new(1, 5);
    assert_eq!(failed.step(NodeEvent::Received(Some(1))), NodeAction::Send(Some(1)));
    assert_eq!(failed.step(NodeEvent::SendFailed), NodeAction::Exit);
    assert!(failed.is_finished());
    assert_eq!(failed.count, 0);
}

#[test]
fn node_ignores_events_out_of_phase() {
    let mut node = RingNode::new(0, 5);
    assert_eq!(node.step(NodeEvent::Sent), NodeAction::Receive);
    assert_eq!(node, RingNode::new(0, 5));
    assert_eq!(node.step(NodeEvent::Received(Some(2))), NodeAction::Send(Some(2)));
    assert_eq!(node.step(NodeEvent::Received(Some(3))), NodeAction::AwaitSend);
    assert_eq!(node.phase, NodePhase::Sending);
}

#[test]
fn build_wires_a_cycle() {
    let ring = RingTopology::build(3).unwrap();
    assert_eq!(ring.len(), 3);
    assert_eq!(
        ring.segments,
        vec![
            Segment { source: 0, target: 1 },
            Segment { source: 1, target: 2 },
            Segment { source: 2, target: 0 },
        ]
    );
    assert!(ring.is_closed_ring());
}

#[test]
fn minimal_ring_of_two_closes() {
    let ring = RingTopology::build(2).unwrap();
    assert_eq!(
        ring.segments,
        vec![Segment { source: 0, target: 1 }, Segment { source: 1, target: 0 }]
    );
    assert!(ring.is_closed_ring());
}

#[test]
fn build_refuses_one_or_zero_nodes() {
    assert_eq!(RingTopology::build(1).unwrap_err(), ConfigError::TooFewNodes);
    assert_eq!(RingTopology::build(0).unwrap_err(), ConfigError::TooFewNodes);
}

#[test]
fn building_twice_gives_the_same_ring() {
    let a = RingTopology::build(7).unwrap();
    let b = RingTopology::build(7).unwrap();
    assert_eq!(a.segments, b.segments);
    assert_eq!(a.segments.last().unwrap().target, 0);
}

#[test]
fn miswired_ring_is_detected() {
    let mut ring = RingTopology::build(4).unwrap();
    ring.segments[3].target = 2;
    assert!(!ring.is_closed_ring());
    let dangling = RingTopology { segments: vec![Segment { source: 0, target: 0 }] };
    assert!(!dangling.is_closed_ring());
    assert!(!RingTopology { segments: vec![] }.is_closed_ring());
}

#[test]
fn three_nodes_two_rounds() {
    let ring = RingTopology::build(3).unwrap();
    let run = run_ring(&ring, 2);
    assert_eq!(run.outcome, RunOutcome::Completed);
    assert_eq!(run.completions, 3);
    assert_eq!(run.forwarded, 6);
    // two live tokens and one termination signal each
    let counts: Vec<usize> = run.nodes.iter().map(|n| n.count).collect();
    assert_eq!(counts, vec![3, 3, 3]);
    assert!(run.nodes.iter().all(|n| n.phase == NodePhase::Finished));
}

#[test]
fn zero_rounds_still_completes() {
    let ring = RingTopology::build(4).unwrap();
    let run = run_ring(&ring, 0);
    assert_eq!(run.outcome, RunOutcome::Completed);
    assert_eq!(run.completions, 4);
    assert_eq!(run.forwarded, 0);
    let counts: Vec<usize> = run.nodes.iter().map(|n| n.count).collect();
    assert_eq!(counts, vec![1, 1, 1, 1]);
}

#[test]
fn two_node_ring_runs_to_completion() {
    let ring = RingTopology::build(2).unwrap();
    let run = run_ring(&ring, 3);
    assert_eq!(run.outcome, RunOutcome::Completed);
    assert_eq!(run.completions, 2);
    assert_eq!(run.forwarded, 6);
    assert!(run.nodes.iter().all(|n| n.phase == NodePhase::Finished && n.count == 4));
}

#[test]
fn total_forwards_are_nodes_times_rounds() {
    for (n, m) in [(5usize, 7usize), (100, 1), (2, 0), (13, 11)] {
        let ring = RingTopology::build(n).unwrap();
        let run = run_ring(&ring, m);
        assert_eq!(run.forwarded, n * m);
        assert_eq!(run.completions, n);
        assert!(run.nodes.iter().all(|node| node.count == m + 1));
    }
}

#[test]
fn same_ring_runs_the_same_way_twice() {
    let a = run_ring(&RingTopology::build(6).unwrap(), 4);
    let b = run_ring(&RingTopology::build(6).unwrap(), 4);
    assert_eq!(a.outcome, b.outcome);
    assert_eq!(a.completions, b.completions);
    assert_eq!(a.forwarded, b.forwarded);
    assert_eq!(a.nodes, b.nodes);
}

#[test]
fn completion_outcome_tells_signal_from_hang_up() {
    assert_eq!(completion_outcome(Some(())), RunOutcome::Completed);
    assert_eq!(completion_outcome(None), RunOutcome::HungUp);
}

#[test]
fn broken_ring_loses_the_token_and_hangs_up() {
    let mut ring = RingTopology::build(3).unwrap();
    ring.segments[2].target = 5;
    let run = run_ring(&ring, 2);
    assert_eq!(run.outcome, RunOutcome::HungUp);
    assert_eq!(run.completions, 0);
    assert_eq!(run.forwarded, 2);
    assert_eq!(completion_outcome(None), RunOutcome::HungUp);
}

#[test]
fn broken_ring_with_zero_rounds_hangs_up() {
    let ring = RingTopology { segments: vec![Segment { source: 0, target: 9 }, Segment { source: 1, target: 0 }] };
    let run = run_ring(&ring, 0);
    assert_eq!(run.outcome, RunOutcome::HungUp);
    assert_eq!(run.completions, 0);
    assert_eq!(run.forwarded, 0);
}

#[test]
fn empty_wiring_hangs_up() {
    let run = run_ring(&RingTopology { segments: vec![] }, 4);
    assert_eq!(run.outcome, RunOutcome::HungUp);
    assert_eq!(run.completions, 0);
    assert!(run.nodes.is_empty());
}

#[test]
fn ring_broken_after_termination_started_still_reports_completion() {
    // with a zero quota the root signals completion before the token reaches
    // the dangling edge of node 1
    let ring = RingTopology { segments: vec![Segment { source: 0, target: 1 }, Segment { source: 1, target: 7 }] };
    let run = run_ring(&ring, 0);
    assert_eq!(run.outcome, RunOutcome::Completed);
    assert_eq!(run.completions, 1);
}

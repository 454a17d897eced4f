// Ring benchmark: N actors wired in a cycle pass a token around M times; then
// the root replaces it with a termination signal, which every node relays once
// before it ends its loop and reports completion.
//
// The library holds the decisions of that protocol: the configuration
// (`config`), the relay protocol of one node as a state machine (`node`), the
// wiring of the cycle (`topology`), the driver's reading of the completion
// channel (`harness`), a single-token run of the whole ring with its
// termination and message-count guarantees (`run`), and laws relating them
// (`laws`). A runtime performs the actions and feeds back the events.

pub mod config;
pub mod harness;
pub mod laws;
pub mod node;
pub mod run;
pub mod topology;

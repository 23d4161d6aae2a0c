//! A bounded-concurrency TCP connect scanner and an ICMP liveness prober.
//!
//! The library holds the decisions: how a connection attempt or a ping exit is
//! classified, which ports a target covers, which probe to dispatch next under
//! the concurrency limit, and how the finished session is reported. The caller
//! performs the network and process work and hands the outcomes back.
pub mod liveness;
pub mod port_list;
pub mod ports;
pub mod scan;
pub mod types;

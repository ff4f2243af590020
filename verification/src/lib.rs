//! Decision logic of a LoRa convergence layer for DTN: bundle priority
//! queues, routing strategies and the small parsers around them.
pub mod strmap;
pub mod text;
pub mod parse;
pub mod bundlequeue;
pub mod protocol;
pub mod clock;
pub mod strategy;
pub mod global;
pub mod agents;
pub mod actors;
pub mod airtime;

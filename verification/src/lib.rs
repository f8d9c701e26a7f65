//! Cycle-accurate performance model of a graph-convolutional-network
//! accelerator.
//!
//! The crate covers the pipeline substrate with back-pressure, the
//! sliding-window task generator that tiles a layer's sparse product,
//! the sparse aggregation cycle model, and the memory-interface stage
//! that coalesces DRAM requests.

pub mod agg_buffer;
pub mod cost;
pub mod error;
pub mod gcn_result;
pub mod graph;
pub mod mem_interface;
pub mod node_features;
pub mod nodeset;
pub mod parse;
pub mod pipeline;
pub mod settings;
pub mod sliding_window;
pub mod window_id;

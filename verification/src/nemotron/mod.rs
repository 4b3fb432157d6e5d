//! Hybrid state-space decoder: packed mixed requests, full-precision scan
//! state and grouped squared-ReLU experts.
pub mod forward;
pub mod graph;
pub mod laws;
pub mod load;
pub mod meaning;
pub mod mixed;
pub mod naming;
pub mod room;
pub mod serving;
pub mod tables;

//! Document recognition: a full-precision decoder and a packed vision tower.
pub mod graph;
pub mod laws;
pub mod load;
pub mod meaning;
pub mod multimodal;
pub mod naming;
pub mod resize;
pub mod serving;
pub mod tables;
pub mod tower;
pub mod vision;
pub mod waves;

//! Hybrid decoders: paged attention layers between gated recurrent layers.
pub mod attention;
pub mod attach_dflash;
pub mod attach_mtp;
pub mod bonsai;
pub mod chain;
pub mod checkpoint;
pub mod cold;
pub mod dflash;
pub mod draft;
pub mod elect;
pub mod encode;
pub mod forward;
pub mod geometry;
pub mod graph;
pub mod image;
pub mod lane;
pub mod layout;
pub mod load;
pub mod lookup;
pub mod meaning;
pub mod memory;
pub mod moe;
pub mod mtp;
pub mod multimodal;
pub mod plan;
pub mod prepare;
pub mod processor;
pub mod projection;
pub mod publish;
pub mod schema;
pub mod seat;
pub mod source;
pub mod spans;
pub mod state;
pub mod ternary;
pub mod tick;
pub mod upload;
pub mod vision_weight;
pub mod waves;

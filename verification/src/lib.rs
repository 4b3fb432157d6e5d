//! Planning core of the Metal inference backends: what a tick validates, which
//! rows it groups, which kernels it elects and what it publishes afterwards.
//! Device work is described by [`program::Program`] values; nothing in this
//! crate touches a device, a file or a clock.
pub mod arith;
pub mod device;
pub mod digest;
pub mod error;
pub mod files;
pub mod header;
pub mod nemotron;
pub mod offload;
pub mod paddleocr;
pub mod paged_offload;
pub mod program;
pub mod projection;
pub mod qwen3;
pub mod qwen35;
pub mod roles;
pub mod rows;
pub mod table_laws;
pub mod tables;
pub mod tiering;

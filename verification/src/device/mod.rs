//! What a program computes. A device runs steps over its memory; each kernel
//! has a work, each work a meaning for the buffers and numbers that a launch
//! hands it. Programs are judged by the values that they leave, not by their
//! steps.
pub mod effects;
pub mod names;
pub mod projecting;
pub mod values;

//! What a tick of the gated recurrent decoder computes.
pub mod attention;
pub mod companions;
pub mod copies;
pub mod drafting;
pub mod drafts;
pub mod ffn;
pub mod lane;
pub mod layers;
pub mod lengths;
pub mod naming;
pub mod places;
pub mod predicting;
pub mod prompts;
pub mod recurrent;
pub mod room;
pub mod tables;
pub mod ternary;
pub mod tick;

//! Dense retrieval encoders: ragged causal batches, pooled embeddings and
//! relevance scores.
pub mod encode;
pub mod laws;
pub mod load;
pub mod naming;
pub mod room;

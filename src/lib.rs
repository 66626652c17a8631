//! Storage encoding and nearest-neighbour ranking for text embeddings.
//!
//! Vectors are held as the IEEE-754 bit patterns of their `f32` components,
//! and distances as the bit patterns of `f64` values, so that every decision
//! made here is made on integers.
pub mod codec;
pub mod embedding;
pub mod faq;
pub mod rank;

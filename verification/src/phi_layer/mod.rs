//! What the generation layer consumes: activation masks and their upkeep.

pub mod quantized_llm;
pub mod sparse_activation;

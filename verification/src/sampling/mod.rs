pub mod beam_search;
pub mod logits;
pub mod logprobs;
pub mod params;
pub mod sampler;
pub mod speculative;
pub mod structured;

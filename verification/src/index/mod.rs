//! Exact and ANN index sidecars for immutable units.

pub mod builder;
pub mod bytes;
pub mod codec;
pub mod codec_facts;
pub mod complete;
pub mod construction;
pub mod descent;
pub mod error;
pub mod exact;
pub mod flat;
pub mod graph;
pub mod layer;
pub mod layer_facts;
pub mod layout;
pub mod ranking;
pub mod reach;
pub mod results;
pub mod retention;
pub mod score;
pub mod search;
pub mod search_facts;
pub mod steps;
pub mod summaries;
pub mod tidiness;
pub mod validity;

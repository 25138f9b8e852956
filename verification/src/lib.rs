pub mod common;
pub mod data_structures;
pub mod metadata;
pub mod session;
pub mod stats;
pub mod traits;
pub mod gemini;
pub mod bookkeeper;
pub mod ws;
pub mod utils;
pub mod ontology;

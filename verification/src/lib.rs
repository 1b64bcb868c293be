//! Statistics over Hydra evaluations of nix-ros-overlay.

pub mod analyzer;
pub mod cli;
pub mod deps;
pub mod eval;
pub mod fetch;
pub mod group;
pub mod inputs;
pub mod jobset;
pub mod json;
pub mod laws;
pub mod nix;
pub mod outcomes;
pub mod stats;
pub mod status;
pub mod summary;
pub mod table;
pub mod text;

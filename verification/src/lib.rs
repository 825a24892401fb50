//! Schema analysis, HOP parsing and plan translation for a linear-algebra optimizer.
pub mod dims;
pub mod schema;
pub mod text;
pub mod math;
pub mod analysis;
pub mod hop;
pub mod dag;
pub mod show;
pub mod laws;
pub mod rules;
pub mod fused;
pub mod saturate;

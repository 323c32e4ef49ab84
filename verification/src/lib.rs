//! Trademark-clearance risk scoring: text normalization, phonetic and fuzzy
//! comparison, structural feature extraction, and risk-ranked reranking of
//! retrieval candidates.
//!
//! Scores, weights and severities are fixed-point fractions of
//! [`model::SCORE_UNIT`]: that value stands for 1.0.

pub mod backend;
pub mod distance;
pub mod features;
pub mod model;
pub mod phonetic;
pub mod query;
pub mod rerank;
pub mod text;

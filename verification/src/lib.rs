//! Builds adversarial training and evaluation splits for SQuAD-style
//! question-answering corpora.
//!
//! The library models a corpus as a mapping from example ids to examples and
//! offers four partition rules (clean, append, twoway, challenge) that derive
//! training splits from it, together with a loader from the nested source
//! JSON schema and a flattener to the parallel-array output schema.

pub mod ids;
pub mod record;
pub mod corpus;
pub mod text;
pub mod sample;
pub mod rules;
pub mod jsonio;
pub mod output;

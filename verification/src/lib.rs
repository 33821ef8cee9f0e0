//! An intent-resolution pipeline: a free-text utterance is turned into a
//! structured intent, the best-matching registered endpoint is selected by a
//! pairwise tournament, the intent's fields are mapped onto the endpoint's
//! declared parameters, and a confirmation message is produced.
//!
//! The generative text service that extraction, comparison, mapping and
//! confirmation delegate to is reached over the network by the surrounding
//! program; this library holds the data model, the prompt construction, the
//! interpretation of every response, and the catalog of endpoints.

pub mod json;
pub mod models;
pub mod gateway;
pub mod intent;
pub mod resolve;
pub mod mapper;
pub mod confirm;
pub mod store;
pub mod catalog;

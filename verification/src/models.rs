//! The data model: registered endpoints with their parameters, the
//! configuration document, the structured intent, the request and response
//! envelopes of the generative service, and the error taxonomy.

use vstd::prelude::*;

verus! {

/// A named input an endpoint accepts.
#[derive(Debug, Clone)]
pub struct Parameter {
    pub name: String,
    pub description: String,
    pub required: bool,
    /// Alternate names treated as equivalent to `name` when mapping fields.
    pub alternatives: Vec<String>,
}

/// A registered action: the unit the resolver selects among.
#[derive(Debug, Clone)]
pub struct Endpoint {
    pub id: String,
    pub text: String,
    pub description: String,
    pub parameters: Vec<Parameter>,
}

/// The parsed configuration document: the endpoints to register.
#[derive(Debug)]
pub struct ConfigFile {
    pub endpoints: Vec<Endpoint>,
}

/// One candidate action extracted from an utterance: a description and the
/// extracted fields, each value kept in its textual form.
#[derive(Debug)]
pub struct IntentAction {
    pub description: String,
    pub fields: Vec<(String, String)>,
}

/// The structured output of intent extraction. The pipeline acts on the
/// first action; an empty sequence is rejected at extraction.
#[derive(Debug)]
pub struct StructuredIntent {
    pub actions: Vec<IntentAction>,
}

/// The request document posted to the generative service.
#[derive(Debug)]
pub struct GenerateRequest {
    pub model: String,
    pub prompt: String,
    pub stream: bool,
    pub format: Option<String>,
}

/// The response envelope of the generative service: the model's raw text.
#[derive(Debug)]
pub struct OllamaResponse {
    pub response: String,
}

/// A failure of the generative service gateway.
#[derive(Debug)]
pub enum GatewayError {
    /// The service could not be reached, or its reply left the expected
    /// envelope; the carried text describes the failure.
    Transport(String),
    /// The service replied, but its text is not parseable as structured
    /// data; the raw text is retained unaltered for diagnostics.
    MalformedResponse(String),
}

/// A failure while loading the configuration into the catalog.
#[derive(Debug, PartialEq, Eq, Structural)]
pub enum LoadError {
    /// The configuration document is malformed.
    ConfigParse,
    /// The backing store could not be cleared or written.
    Storage,
}

/// A failure of intent extraction.
#[derive(Debug)]
pub enum ExtractError {
    Gateway(GatewayError),
    /// The returned structure lacks the expected non-empty array of actions.
    Shape,
}

/// A failure of endpoint resolution.
#[derive(Debug)]
pub enum ResolveError {
    Gateway(GatewayError),
}

/// A failure of field mapping.
#[derive(Debug)]
pub enum MapError {
    Gateway(GatewayError),
}

/// A failure of confirmation generation.
#[derive(Debug)]
pub enum ConfirmError {
    Gateway(GatewayError),
}

} // verus!

//! The generative service gateway: building the request document, reading
//! the response envelope, and interpreting the raw reply as structured data.
//!
//! The one outbound network call per invocation is made by the surrounding
//! program; everything around it — what is posted and how the reply is
//! read — is here.

use vstd::prelude::*;
use crate::json::{
    spec_escape, spec_trim, append_escaped, json_parse, parse_json_text, trim_text, JsonValue,
};
use crate::models::{GatewayError, GenerateRequest, OllamaResponse};

verus! {

/// The body of a generation request: a single non-streaming request for
/// output constrained to syntactically valid structured text.
pub open spec fn spec_request_body(model: Seq<char>, prompt: Seq<char>) -> Seq<char> {
    "{\"model\":\""@ + spec_escape(model) + "\",\"prompt\":\""@ + spec_escape(prompt)
        + "\",\"stream\":false,\"format\":\"json\"}"@
}

impl GenerateRequest {
    /// A non-streaming request for structured output from `model`.
    pub fn new(model: String, prompt: String) -> (r: GenerateRequest)
        ensures
            r.model == model,
            r.prompt == prompt,
            r.stream == false,
            r.format matches Some(f) && f@ == "json"@,
    {
        GenerateRequest { model, prompt, stream: false, format: Some("json".to_owned()) }
    }

    /// The textual form of this request, as it is posted.
    pub fn body_text(&self) -> (r: String)
        ensures
            r@ == spec_request_body(self.model@, self.prompt@),
    {
        let mut out = String::new();
        out.append("{\"model\":\"");
        append_escaped(&mut out, self.model.as_str());
        out.append("\",\"prompt\":\"");
        append_escaped(&mut out, self.prompt.as_str());
        out.append("\",\"stream\":false,\"format\":\"json\"}");
        proof {
            assert(out@ =~= spec_request_body(self.model@, self.prompt@));
        }
        out
    }
}

impl OllamaResponse {
    /// The model's raw text with its surrounding whitespace removed: the
    /// form the reply is expected to parse in.
    pub fn trimmed(&self) -> (r: String)
        ensures
            r@ == spec_trim(self.response@),
    {
        trim_text(self.response.as_str())
    }
}

/// Reads the service's response envelope: an object binding `response` to
/// the model's raw text. Any other shape is a transport-level divergence.
pub fn read_envelope(body: &str) -> (r: Option<OllamaResponse>)
    ensures
        match r {
            Some(o) => json_parse(body@) matches Some(v) && v.spec_get_text("response"@)
                == Some(o.response@),
            None => !(json_parse(body@) matches Some(v) && v.spec_get_text("response"@) is Some),
        },
{
    match parse_json_text(body) {
        Some(v) => match v.get("response") {
            Some(x) => match x.as_text() {
                Some(s) => Some(OllamaResponse { response: s.clone() }),
                None => None,
            },
            None => None,
        },
        None => None,
    }
}

/// Interprets the raw text the service returned as structured data. A text
/// that does not parse is a malformed response, and the error retains the
/// offending raw text unaltered.
pub fn interpret_response(raw: String) -> (r: Result<JsonValue, GatewayError>)
    ensures
        json_parse(raw@) matches Some(v) ==> r == Ok::<JsonValue, GatewayError>(v),
        json_parse(raw@) is None ==> (r matches Err(e) && e == GatewayError::MalformedResponse(
            raw,
        )),
{
    match parse_json_text(raw.as_str()) {
        Some(v) => Ok(v),
        None => Err(GatewayError::MalformedResponse(raw)),
    }
}

} // verus!

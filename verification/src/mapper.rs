//! Field mapping: the prompt that asks the generative service to map the
//! intent's extracted fields onto the resolved endpoint's declared
//! parameters, and the verbatim reading of its reply.

use vstd::prelude::*;
use crate::json::JsonValue;
use crate::intent::spec_flat_fields;
use crate::models::{Endpoint, GatewayError, MapError, Parameter, StructuredIntent};

verus! {

/// One declared parameter as a prompt line: `name: description`.
pub open spec fn spec_param_entry(p: Parameter) -> Seq<char> {
    p.name@ + ": "@ + p.description@
}

/// The declared parameters, one line each.
pub open spec fn spec_param_lines(params: Seq<Parameter>) -> Seq<char>
    decreases params.len(),
{
    if params.len() == 0 {
        Seq::empty()
    } else if params.len() == 1 {
        spec_param_entry(params[0])
    } else {
        spec_param_entry(params[0]) + "\n"@ + spec_param_lines(params.drop_first())
    }
}

pub proof fn lemma_param_lines_push(params: Seq<Parameter>, p: Parameter)
    requires
        params.len() > 0,
    ensures
        spec_param_lines(params.push(p)) == spec_param_lines(params) + "\n"@ + spec_param_entry(
            p,
        ),
    decreases params.len(),
{
    if params.len() == 1 {
        assert(params.push(p)[0] == params[0]);
        assert(params.push(p).drop_first() =~= seq![p]);
        assert(params.push(p).drop_first()[0] == p);
        assert(spec_param_lines(seq![p]) == spec_param_entry(p));
        assert(params.push(p).len() == 2);
        assert(spec_param_lines(params.push(p)) == spec_param_entry(params[0]) + "\n"@
            + spec_param_entry(p));
    } else {
        assert(params.push(p)[0] == params[0]);
        assert(params.push(p).drop_first() =~= params.drop_first().push(p));
        lemma_param_lines_push(params.drop_first(), p);
        assert(spec_param_lines(params.push(p)) == spec_param_entry(params[0]) + "\n"@
            + (spec_param_lines(params.drop_first()) + "\n"@ + spec_param_entry(p)));
        assert(spec_param_entry(params[0]) + "\n"@ + (spec_param_lines(params.drop_first())
            + "\n"@ + spec_param_entry(p)) =~= (spec_param_entry(params[0]) + "\n"@
            + spec_param_lines(params.drop_first())) + "\n"@ + spec_param_entry(p));
    }
}

/// Renders the declared parameters of an endpoint, one `name: description`
/// line each.
pub fn parameters_text(params: &Vec<Parameter>) -> (r: String)
    ensures
        r@ == spec_param_lines(params@),
{
    let mut out = String::new();
    let n = params.len();
    let mut i: usize = 0;
    proof {
        assert(params@.take(0) =~= Seq::<Parameter>::empty());
    }
    while i < n
        invariant
            n == params@.len(),
            i <= n,
            out@ == spec_param_lines(params@.take(i as int)),
        decreases n - i,
    {
        let ghost out0 = out@;
        if i > 0 {
            out.append("\n");
        }
        out.append(params[i].name.as_str());
        out.append(": ");
        out.append(params[i].description.as_str());
        proof {
            assert(params@.take(i as int).push(params@[i as int]) =~= params@.take(i + 1));
            if i > 0 {
                assert(out@ =~= out0 + "\n"@ + spec_param_entry(params@[i as int]));
                lemma_param_lines_push(params@.take(i as int), params@[i as int]);
            } else {
                assert(out@ =~= spec_param_entry(params@[i as int]));
                assert(params@.take(1)[0] == params@[0]);
                assert(spec_param_lines(params@.take(1)) == spec_param_entry(params@[0]));
            }
            assert(out@ =~= spec_param_lines(params@.take(i + 1)));
        }
        i = i + 1;
    }
    proof {
        assert(params@.take(n as int) =~= params@);
    }
    out
}

/// The prompt of one field-mapping request.
pub open spec fn spec_mapping_prompt(input_fields: Seq<char>, param_lines: Seq<char>) -> Seq<
    char,
> {
    "Map these input fields to endpoint parameters:\nInput: "@ + input_fields + "\nParameters:\n"@
        + param_lines + "\nReturn only a JSON with parameter names as keys and matched values"@
}

/// Builds the prompt that maps the intent's first action's fields onto the
/// resolved endpoint's declared parameters.
pub fn match_fields_prompt(intent: &StructuredIntent, endpoint: &Endpoint) -> (r: String)
    requires
        intent.actions@.len() > 0,
    ensures
        r@ == spec_mapping_prompt(
            spec_flat_fields(intent.actions@[0].fields@),
            spec_param_lines(endpoint.parameters@),
        ),
{
    let input_fields = intent.primary_fields_text();
    let params = parameters_text(&endpoint.parameters);
    let mut out = String::new();
    out.append("Map these input fields to endpoint parameters:\nInput: ");
    out.append(input_fields.as_str());
    out.append("\nParameters:\n");
    out.append(params.as_str());
    out.append("\nReturn only a JSON with parameter names as keys and matched values");
    proof {
        assert(out@ =~= spec_mapping_prompt(
            spec_flat_fields(intent.actions@[0].fields@),
            spec_param_lines(endpoint.parameters@),
        ));
    }
    out
}

/// Lifts a gateway outcome to mapped fields: any gateway failure
/// propagates; a reply that parsed is the mapping, verbatim and unchanged.
pub fn mapped_from_response(r: Result<JsonValue, GatewayError>) -> (out: Result<
    JsonValue,
    MapError,
>)
    ensures
        r matches Ok(v) ==> out == Ok::<JsonValue, MapError>(v),
        r matches Err(e) ==> out == Err::<JsonValue, MapError>(MapError::Gateway(e)),
{
    match r {
        Ok(v) => Ok(v),
        Err(e) => Err(MapError::Gateway(e)),
    }
}

} // verus!

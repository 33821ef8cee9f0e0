//! Confirmation generation: the prompt that asks the generative service to
//! phrase a user-facing confirmation question over the mapped fields, and
//! the verbatim reading of its raw text reply.

use vstd::prelude::*;
use crate::json::{spec_render, JsonValue};
use crate::models::{ConfirmError, Endpoint, GatewayError};

verus! {

/// One mapped field as a table row: `| field | value |`.
pub open spec fn spec_row(p: (String, JsonValue)) -> Seq<char> {
    "| "@ + p.0@ + " | "@ + spec_render(p.1) + " |"@
}

/// The mapped fields as table rows, one per line.
pub open spec fn spec_rows(pairs: Seq<(String, JsonValue)>) -> Seq<char>
    decreases pairs.len(),
{
    if pairs.len() == 0 {
        Seq::empty()
    } else if pairs.len() == 1 {
        spec_row(pairs[0])
    } else {
        spec_row(pairs[0]) + "\n"@ + spec_rows(pairs.drop_first())
    }
}

pub proof fn lemma_rows_push(pairs: Seq<(String, JsonValue)>, p: (String, JsonValue))
    requires
        pairs.len() > 0,
    ensures
        spec_rows(pairs.push(p)) == spec_rows(pairs) + "\n"@ + spec_row(p),
    decreases pairs.len(),
{
    if pairs.len() == 1 {
        assert(pairs.push(p)[0] == pairs[0]);
        assert(pairs.push(p).drop_first() =~= seq![p]);
        assert(pairs.push(p).drop_first()[0] == p);
        assert(spec_rows(seq![p]) == spec_row(p));
        assert(pairs.push(p).len() == 2);
        assert(spec_rows(pairs.push(p)) == spec_row(pairs[0]) + "\n"@ + spec_row(p));
    } else {
        assert(pairs.push(p)[0] == pairs[0]);
        assert(pairs.push(p).drop_first() =~= pairs.drop_first().push(p));
        lemma_rows_push(pairs.drop_first(), p);
        assert(spec_rows(pairs.push(p)) == spec_row(pairs[0]) + "\n"@ + (spec_rows(
            pairs.drop_first(),
        ) + "\n"@ + spec_row(p)));
        assert(spec_row(pairs[0]) + "\n"@ + (spec_rows(pairs.drop_first()) + "\n"@ + spec_row(p))
            =~= (spec_row(pairs[0]) + "\n"@ + spec_rows(pairs.drop_first())) + "\n"@ + spec_row(
            p,
        ));
    }
}

/// The table rows a mapped-fields value yields: its pairs when it is an
/// object, and nothing otherwise.
pub open spec fn spec_mapped_rows(v: JsonValue) -> Seq<char> {
    match v {
        JsonValue::Object(pairs) => spec_rows(pairs@),
        _ => Seq::empty(),
    }
}

/// Renders the mapped fields as table rows.
fn mapped_rows_text(mapped: &JsonValue) -> (r: String)
    ensures
        r@ == spec_mapped_rows(*mapped),
{
    match mapped {
        JsonValue::Object(pairs) => {
            let mut out = String::new();
            let n = pairs.len();
            let mut i: usize = 0;
            proof {
                assert(pairs@.take(0) =~= Seq::<(String, JsonValue)>::empty());
            }
            while i < n
                invariant
                    mapped is Object && mapped->Object_0 == *pairs,
                    n == pairs@.len(),
                    i <= n,
                    out@ == spec_rows(pairs@.take(i as int)),
                decreases n - i,
            {
                let ghost out0 = out@;
                if i > 0 {
                    out.append("\n");
                }
                out.append("| ");
                out.append(pairs[i].0.as_str());
                out.append(" | ");
                let rendered = pairs[i].1.render();
                out.append(rendered.as_str());
                out.append(" |");
                proof {
                    assert(pairs@.take(i as int).push(pairs@[i as int]) =~= pairs@.take(i + 1));
                    if i > 0 {
                        assert(out@ =~= out0 + "\n"@ + spec_row(pairs@[i as int]));
                        lemma_rows_push(pairs@.take(i as int), pairs@[i as int]);
                    } else {
                        assert(out@ =~= spec_row(pairs@[i as int]));
                        assert(pairs@.take(1)[0] == pairs@[0]);
                        assert(spec_rows(pairs@.take(1)) == spec_row(pairs@[0]));
                    }
                    assert(out@ =~= spec_rows(pairs@.take(i + 1)));
                }
                i = i + 1;
            }
            proof {
                assert(pairs@.take(n as int) =~= pairs@);
            }
            out
        },
        _ => String::new(),
    }
}

/// The prompt of one confirmation request.
pub open spec fn spec_confirmation_prompt(action: Seq<char>, rows: Seq<char>) -> Seq<char> {
    "Generate a question asking for user confirmation:\nAction: "@ + action
        + "\nParameters:\n| Field | Value |\n|-------|-------|\n"@ + rows
        + "\nReturn the complete confirmation question directly, no JSON wrapper, but explicitly explaining shortly every field value"@
}

/// Builds the prompt that asks for a confirmation question over the mapped
/// fields of the resolved endpoint.
pub fn generate_confirmation_prompt(mapped: &JsonValue, endpoint: &Endpoint) -> (r: String)
    ensures
        r@ == spec_confirmation_prompt(endpoint.description@, spec_mapped_rows(*mapped)),
{
    let rows = mapped_rows_text(mapped);
    let mut out = String::new();
    out.append("Generate a question asking for user confirmation:\nAction: ");
    out.append(endpoint.description.as_str());
    out.append("\nParameters:\n| Field | Value |\n|-------|-------|\n");
    out.append(rows.as_str());
    out.append(
        "\nReturn the complete confirmation question directly, no JSON wrapper, but explicitly explaining shortly every field value",
    );
    proof {
        assert(out@ =~= spec_confirmation_prompt(
            endpoint.description@,
            spec_mapped_rows(*mapped),
        ));
    }
    out
}

/// Lifts a gateway outcome to a confirmation: any gateway failure
/// propagates; the service's raw text is the confirmation, unaltered.
pub fn confirmation_from_response(r: Result<String, GatewayError>) -> (out: Result<
    String,
    ConfirmError,
>)
    ensures
        r matches Ok(s) ==> out == Ok::<String, ConfirmError>(s),
        r matches Err(e) ==> out == Err::<String, ConfirmError>(ConfirmError::Gateway(e)),
{
    match r {
        Ok(s) => Ok(s),
        Err(e) => Err(ConfirmError::Gateway(e)),
    }
}

} // verus!

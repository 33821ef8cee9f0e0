//! Intent extraction: the prompt that asks the generative service for a
//! structured intent, and the reading of its reply into `StructuredIntent`.

use vstd::prelude::*;
use crate::json::{spec_render, JsonValue};
use crate::models::{ExtractError, GatewayError, IntentAction, StructuredIntent};

verus! {

/// One flattened field: `name: value`, the value in its textual form.
pub open spec fn spec_field_entry(p: (String, String)) -> Seq<char> {
    p.0@ + ": "@ + p.1@
}

/// Fields flattened into one descriptive line: `name: value, name: value`,
/// in the order the fields were extracted.
pub open spec fn spec_flat_fields(fields: Seq<(String, String)>) -> Seq<char>
    decreases fields.len(),
{
    if fields.len() == 0 {
        Seq::empty()
    } else if fields.len() == 1 {
        spec_field_entry(fields[0])
    } else {
        spec_field_entry(fields[0]) + ", "@ + spec_flat_fields(fields.drop_first())
    }
}

pub proof fn lemma_flat_fields_push(fields: Seq<(String, String)>, p: (String, String))
    requires
        fields.len() > 0,
    ensures
        spec_flat_fields(fields.push(p)) == spec_flat_fields(fields) + ", "@ + spec_field_entry(
            p,
        ),
    decreases fields.len(),
{
    if fields.len() == 1 {
        assert(fields.push(p)[0] == fields[0]);
        assert(fields.push(p).drop_first() =~= seq![p]);
        assert(fields.push(p).drop_first()[0] == p);
        assert(spec_flat_fields(seq![p]) == spec_field_entry(p));
        assert(fields.push(p).len() == 2);
        assert(spec_flat_fields(fields.push(p)) == spec_field_entry(fields[0]) + ", "@
            + spec_field_entry(p));
    } else {
        assert(fields.push(p)[0] == fields[0]);
        assert(fields.push(p).drop_first() =~= fields.drop_first().push(p));
        lemma_flat_fields_push(fields.drop_first(), p);
        assert(spec_flat_fields(fields.push(p)) == spec_field_entry(fields[0]) + ", "@
            + (spec_flat_fields(fields.drop_first()) + ", "@ + spec_field_entry(p)));
        assert(spec_field_entry(fields[0]) + ", "@ + (spec_flat_fields(fields.drop_first())
            + ", "@ + spec_field_entry(p)) =~= (spec_field_entry(fields[0]) + ", "@
            + spec_flat_fields(fields.drop_first())) + ", "@ + spec_field_entry(p));
    }
}

/// Flattens extracted fields into the single descriptive line the
/// comparison and mapping prompts embed.
pub fn flatten_fields(fields: &Vec<(String, String)>) -> (r: String)
    ensures
        r@ == spec_flat_fields(fields@),
{
    let mut out = String::new();
    let n = fields.len();
    let mut i: usize = 0;
    proof {
        assert(fields@.take(0) =~= Seq::<(String, String)>::empty());
    }
    while i < n
        invariant
            n == fields@.len(),
            i <= n,
            out@ == spec_flat_fields(fields@.take(i as int)),
        decreases n - i,
    {
        let ghost out0 = out@;
        if i > 0 {
            out.append(", ");
        }
        out.append(fields[i].0.as_str());
        out.append(": ");
        out.append(fields[i].1.as_str());
        proof {
            assert(fields@.take(i as int).push(fields@[i as int]) =~= fields@.take(i + 1));
            if i > 0 {
                assert(out@ =~= out0 + ", "@ + spec_field_entry(fields@[i as int]));
                lemma_flat_fields_push(fields@.take(i as int), fields@[i as int]);
            } else {
                assert(out@ =~= spec_field_entry(fields@[i as int]));
                assert(fields@.take(1)[0] == fields@[0]);
                assert(spec_flat_fields(fields@.take(1)) == spec_field_entry(fields@[0]));
            }
            assert(out@ =~= spec_flat_fields(fields@.take(i + 1)));
        }
        i = i + 1;
    }
    proof {
        assert(fields@.take(n as int) =~= fields@);
    }
    out
}

/// The description an extracted action carries, or nothing when the entry
/// lacks one.
pub open spec fn spec_action_description(item: JsonValue) -> Seq<char> {
    match item.spec_get_text("description"@) {
        Some(s) => s,
        None => Seq::empty(),
    }
}

/// The field pairs an extracted action carries, or none when the entry
/// lacks a fields object.
pub open spec fn spec_action_fields(item: JsonValue) -> Seq<(String, JsonValue)> {
    match item.spec_get("fields"@) {
        Some(JsonValue::Object(ps)) => ps@,
        _ => Seq::empty(),
    }
}

/// Whether flattened fields are exactly the given pairs, each value in its
/// textual form.
pub open spec fn spec_fields_match(flat: Seq<(String, String)>, ps: Seq<(String, JsonValue)>) -> bool {
    &&& flat.len() == ps.len()
    &&& forall|i: int|
        0 <= i < ps.len() ==> #[trigger] flat[i].0 == ps[i].0 && flat[i].1@ == spec_render(
            ps[i].1,
        )
}

/// Whether an action is the faithful reading of one extracted entry.
pub open spec fn spec_action_matches(a: IntentAction, item: JsonValue) -> bool {
    &&& a.description@ == spec_action_description(item)
    &&& spec_fields_match(a.fields@, spec_action_fields(item))
}

/// Reads one entry of the extracted `endpoints` array: a missing or
/// non-text description becomes empty, a missing or non-object fields
/// entry becomes no fields; values are kept in their textual form.
fn action_from_item(item: &JsonValue) -> (a: IntentAction)
    ensures
        spec_action_matches(a, *item),
{
    let description: String = match item.get("description") {
        Some(d) => match d.as_text() {
            Some(s) => s.clone(),
            None => String::new(),
        },
        None => String::new(),
    };
    let mut fields: Vec<(String, String)> = Vec::new();
    match item.get("fields") {
        Some(f) => match f {
            JsonValue::Object(ps) => {
                let n = ps.len();
                let mut i: usize = 0;
                while i < n
                    invariant
                        f is Object && f->Object_0 == *ps,
                        item.spec_get("fields"@) == Some(*f),
                        n == ps@.len(),
                        i <= n,
                        spec_fields_match(fields@, ps@.take(i as int)),
                    decreases n - i,
                {
                    let rendered = ps[i].1.render();
                    fields.push((ps[i].0.clone(), rendered));
                    proof {
                        assert(ps@.take(i as int).push(ps@[i as int]) =~= ps@.take(i + 1));
                    }
                    i = i + 1;
                }
                proof {
                    assert(ps@.take(n as int) =~= ps@);
                }
            },
            _ => {},
        },
        None => {},
    }
    IntentAction { description, fields }
}

impl StructuredIntent {
    /// The description of the action the pipeline acts on: the first one.
    pub fn primary_description<'a>(&'a self) -> (r: &'a String)
        requires
            self.actions@.len() > 0,
        ensures
            *r == self.actions@[0].description,
    {
        &self.actions[0].description
    }

    /// The first action's fields, flattened into one descriptive line.
    pub fn primary_fields_text(&self) -> (r: String)
        requires
            self.actions@.len() > 0,
        ensures
            r@ == spec_flat_fields(self.actions@[0].fields@),
    {
        flatten_fields(&self.actions[0].fields)
    }
}

/// Whether an extraction reply has the expected shape: an object whose
/// `endpoints` key holds a non-empty array.
pub open spec fn spec_intent_shape_ok(v: JsonValue) -> bool {
    match v.spec_get("endpoints"@) {
        Some(JsonValue::Array(items)) => items@.len() > 0,
        _ => false,
    }
}

/// The entries of the extracted `endpoints` array.
pub open spec fn spec_intent_items(v: JsonValue) -> Seq<JsonValue> {
    match v.spec_get("endpoints"@) {
        Some(JsonValue::Array(items)) => items@,
        _ => Seq::empty(),
    }
}

/// Reads an extraction reply into a structured intent. A reply without a
/// non-empty `endpoints` array is rejected: later stages assume at least
/// one candidate action exists.
pub fn intent_from_value(v: &JsonValue) -> (r: Result<StructuredIntent, ExtractError>)
    ensures
        r is Ok <==> spec_intent_shape_ok(*v),
        r matches Ok(si) ==> si.actions@.len() == spec_intent_items(*v).len() && (forall|i: int|
            0 <= i < si.actions@.len() ==> spec_action_matches(
                #[trigger] si.actions@[i],
                spec_intent_items(*v)[i],
            )),
        r matches Err(e) ==> e == ExtractError::Shape,
{
    match v.get("endpoints") {
        Some(arr) => match arr {
            JsonValue::Array(items) => {
                if items.len() == 0 {
                    return Err(ExtractError::Shape);
                }
                let mut actions: Vec<IntentAction> = Vec::new();
                let n = items.len();
                let mut i: usize = 0;
                while i < n
                    invariant
                        arr is Array && arr->Array_0 == *items,
                        v.spec_get("endpoints"@) == Some(*arr),
                        n == items@.len(),
                        i <= n,
                        actions@.len() == i,
                        forall|j: int|
                            0 <= j < i ==> spec_action_matches(
                                #[trigger] actions@[j],
                                items@[j],
                            ),
                    decreases n - i,
                {
                    let a = action_from_item(&items[i]);
                    actions.push(a);
                    i = i + 1;
                }
                Ok(StructuredIntent { actions })
            },
            _ => Err(ExtractError::Shape),
        },
        None => Err(ExtractError::Shape),
    }
}

/// Lifts a gateway outcome to an intent: any gateway failure propagates
/// unchanged; a reply that parsed is read as by `intent_from_value`.
pub fn intent_from_response(r: Result<JsonValue, GatewayError>) -> (out: Result<
    StructuredIntent,
    ExtractError,
>)
    ensures
        r matches Ok(v) ==> {
            &&& out is Ok <==> spec_intent_shape_ok(v)
            &&& out matches Ok(si) ==> si.actions@.len() == spec_intent_items(v).len() && (forall|
                i: int,
            |
                0 <= i < si.actions@.len() ==> spec_action_matches(
                    #[trigger] si.actions@[i],
                    spec_intent_items(v)[i],
                ))
            &&& out matches Err(e) ==> e == ExtractError::Shape
        },
        r matches Err(e) ==> out == Err::<StructuredIntent, ExtractError>(ExtractError::Gateway(
            e,
        )),
{
    match r {
        Ok(v) => intent_from_value(&v),
        Err(e) => Err(ExtractError::Gateway(e)),
    }
}

/// The prompt that asks the generative service to turn an utterance into a
/// structured intent: a minimal object with an `endpoints` array whose
/// entries carry a description and exact field values from the utterance.
pub open spec fn spec_extraction_prompt(sentence: Seq<char>) -> Seq<char> {
    "Sentence: "@ + sentence
        + "\n\nTask: Generate a precise, minimal JSON structure based strictly on the sentence.\n\nRules:\n1. Create an 'endpoints' array with exactly the details from the sentence.\n2. Each endpoint must have:\n   - Precise 'description' matching the sentence\n   - 'fields' object where EACH key has its EXACT value from the sentence\n3. Do NOT invent additional endpoints or fields\n4. Generate only plain field with its value and not a value a field value as field and a boolean nested in\n5. Use the EXACT values found in the sentence for each field\n\nExample input: 'Send email to Alice at alice@example.com'\nExample output:\n{\n  \"endpoints\": [\n    {\n      \"description\": \"Send email\",\n      \"fields\": {\n        \"recipient\": \"Alice\",\n        \"email\": \"alice@example.com\"\n      }\n    }\n  ]\n}\n\nNow for your sentence: "@
        + sentence
}

/// Builds the extraction prompt for one utterance.
pub fn extraction_prompt(sentence: &str) -> (r: String)
    ensures
        r@ == spec_extraction_prompt(sentence@),
{
    let mut out = String::new();
    out.append("Sentence: ");
    out.append(sentence);
    out.append(
        "\n\nTask: Generate a precise, minimal JSON structure based strictly on the sentence.\n\nRules:\n1. Create an 'endpoints' array with exactly the details from the sentence.\n2. Each endpoint must have:\n   - Precise 'description' matching the sentence\n   - 'fields' object where EACH key has its EXACT value from the sentence\n3. Do NOT invent additional endpoints or fields\n4. Generate only plain field with its value and not a value a field value as field and a boolean nested in\n5. Use the EXACT values found in the sentence for each field\n\nExample input: 'Send email to Alice at alice@example.com'\nExample output:\n{\n  \"endpoints\": [\n    {\n      \"description\": \"Send email\",\n      \"fields\": {\n        \"recipient\": \"Alice\",\n        \"email\": \"alice@example.com\"\n      }\n    }\n  ]\n}\n\nNow for your sentence: ",
    );
    out.append(sentence);
    proof {
        assert(out@ =~= spec_extraction_prompt(sentence@));
    }
    out
}

} // verus!

//! The endpoint catalog: a read-only (at resolution time) collection of
//! registered endpoints over the backing store, populated once from a
//! configuration document.
//!
//! Endpoint records are stored as structured text under the endpoint's id;
//! the record format is the renderer's and is no compatibility surface.

use vstd::prelude::*;
use crate::json::{
    append_escaped, json_parse, parse_json_text, parse_yaml_text, push_char, spec_escape,
    yaml_parse, JsonValue,
};
use crate::models::{ConfigFile, Endpoint, LoadError, Parameter};
use crate::store::{store_entries, Store};

verus! {

/// A quoted, escaped string as it stands in a stored record.
pub open spec fn spec_quoted(s: Seq<char>) -> Seq<char> {
    seq!['"'] + spec_escape(s) + seq!['"']
}

/// The alternative names of a parameter, quoted and comma-separated.
pub open spec fn spec_encode_alts(alts: Seq<String>) -> Seq<char>
    decreases alts.len(),
{
    if alts.len() == 0 {
        Seq::empty()
    } else if alts.len() == 1 {
        spec_quoted(alts[0]@)
    } else {
        spec_quoted(alts[0]@) + seq![','] + spec_encode_alts(alts.drop_first())
    }
}

pub proof fn lemma_encode_alts_push(alts: Seq<String>, a: String)
    requires
        alts.len() > 0,
    ensures
        spec_encode_alts(alts.push(a)) == spec_encode_alts(alts) + seq![','] + spec_quoted(a@),
    decreases alts.len(),
{
    if alts.len() == 1 {
        assert(alts.push(a)[0] == alts[0]);
        assert(alts.push(a).drop_first() =~= seq![a]);
        assert(alts.push(a).drop_first()[0] == a);
        assert(spec_encode_alts(seq![a]) == spec_quoted(a@));
        assert(alts.push(a).len() == 2);
        assert(spec_encode_alts(alts.push(a)) == spec_quoted(alts[0]@) + seq![','] + spec_quoted(
            a@,
        ));
    } else {
        assert(alts.push(a)[0] == alts[0]);
        assert(alts.push(a).drop_first() =~= alts.drop_first().push(a));
        lemma_encode_alts_push(alts.drop_first(), a);
        assert(spec_encode_alts(alts.push(a)) == spec_quoted(alts[0]@) + seq![',']
            + (spec_encode_alts(alts.drop_first()) + seq![','] + spec_quoted(a@)));
        assert(spec_quoted(alts[0]@) + seq![','] + (spec_encode_alts(alts.drop_first())
            + seq![','] + spec_quoted(a@)) =~= (spec_quoted(alts[0]@) + seq![',']
            + spec_encode_alts(alts.drop_first())) + seq![','] + spec_quoted(a@));
    }
}

/// One parameter as it stands in a stored record.
pub open spec fn spec_encode_param(p: Parameter) -> Seq<char> {
    "{\"name\":"@ + spec_quoted(p.name@) + ",\"description\":"@ + spec_quoted(p.description@)
        + ",\"required\":"@ + (if p.required {
        "true"@
    } else {
        "false"@
    }) + ",\"alternatives\":["@ + spec_encode_alts(p.alternatives@) + "]}"@
}

/// The parameters of an endpoint, comma-separated.
pub open spec fn spec_encode_params(params: Seq<Parameter>) -> Seq<char>
    decreases params.len(),
{
    if params.len() == 0 {
        Seq::empty()
    } else if params.len() == 1 {
        spec_encode_param(params[0])
    } else {
        spec_encode_param(params[0]) + seq![','] + spec_encode_params(params.drop_first())
    }
}

pub proof fn lemma_encode_params_push(params: Seq<Parameter>, p: Parameter)
    requires
        params.len() > 0,
    ensures
        spec_encode_params(params.push(p)) == spec_encode_params(params) + seq![',']
            + spec_encode_param(p),
    decreases params.len(),
{
    if params.len() == 1 {
        assert(params.push(p)[0] == params[0]);
        assert(params.push(p).drop_first() =~= seq![p]);
        assert(params.push(p).drop_first()[0] == p);
        assert(spec_encode_params(seq![p]) == spec_encode_param(p));
        assert(params.push(p).len() == 2);
        assert(spec_encode_params(params.push(p)) == spec_encode_param(params[0]) + seq![',']
            + spec_encode_param(p));
    } else {
        assert(params.push(p)[0] == params[0]);
        assert(params.push(p).drop_first() =~= params.drop_first().push(p));
        lemma_encode_params_push(params.drop_first(), p);
        assert(spec_encode_params(params.push(p)) == spec_encode_param(params[0]) + seq![',']
            + (spec_encode_params(params.drop_first()) + seq![','] + spec_encode_param(p)));
        assert(spec_encode_param(params[0]) + seq![','] + (spec_encode_params(params.drop_first())
            + seq![','] + spec_encode_param(p)) =~= (spec_encode_param(params[0]) + seq![',']
            + spec_encode_params(params.drop_first())) + seq![','] + spec_encode_param(p));
    }
}

/// One endpoint as it stands in the store.
pub open spec fn spec_encode_endpoint(e: Endpoint) -> Seq<char> {
    "{\"id\":"@ + spec_quoted(e.id@) + ",\"text\":"@ + spec_quoted(e.text@) + ",\"description\":"@
        + spec_quoted(e.description@) + ",\"parameters\":["@ + spec_encode_params(e.parameters@)
        + "]}"@
}

/// Appends a quoted, escaped string.
fn append_quoted(out: &mut String, s: &str)
    ensures
        final(out)@ == old(out)@ + spec_quoted(s@),
{
    push_char(out, '"');
    append_escaped(out, s);
    push_char(out, '"');
    proof {
        assert(out@ =~= old(out)@ + spec_quoted(s@));
    }
}

/// Encodes one parameter of a stored record.
fn encode_param(p: &Parameter) -> (r: String)
    ensures
        r@ == spec_encode_param(*p),
{
    let mut out = String::new();
    out.append("{\"name\":");
    append_quoted(&mut out, p.name.as_str());
    out.append(",\"description\":");
    append_quoted(&mut out, p.description.as_str());
    out.append(",\"required\":");
    if p.required {
        out.append("true");
    } else {
        out.append("false");
    }
    out.append(",\"alternatives\":[");
    let ghost mid = out@;
    let n = p.alternatives.len();
    let mut i: usize = 0;
    proof {
        assert(p.alternatives@.take(0) =~= Seq::<String>::empty());
    }
    while i < n
        invariant
            n == p.alternatives@.len(),
            i <= n,
            out@ == mid + spec_encode_alts(p.alternatives@.take(i as int)),
        decreases n - i,
    {
        let ghost out0 = out@;
        if i > 0 {
            push_char(&mut out, ',');
        }
        append_quoted(&mut out, p.alternatives[i].as_str());
        proof {
            assert(p.alternatives@.take(i as int).push(p.alternatives@[i as int])
                =~= p.alternatives@.take(i + 1));
            if i > 0 {
                assert(out@ =~= out0 + seq![','] + spec_quoted(p.alternatives@[i as int]@));
                lemma_encode_alts_push(p.alternatives@.take(i as int), p.alternatives@[i as int]);
            } else {
                assert(out@ =~= mid + spec_quoted(p.alternatives@[i as int]@));
                assert(p.alternatives@.take(1)[0] == p.alternatives@[0]);
                assert(spec_encode_alts(p.alternatives@.take(1)) == spec_quoted(
                    p.alternatives@[0]@,
                ));
            }
            assert(out@ =~= mid + spec_encode_alts(p.alternatives@.take(i + 1)));
        }
        i = i + 1;
    }
    out.append("]}");
    proof {
        assert(p.alternatives@.take(n as int) =~= p.alternatives@);
        assert(out@ =~= spec_encode_param(*p));
    }
    out
}

/// Encodes one endpoint as the record the store holds under its id.
pub fn encode_endpoint(e: &Endpoint) -> (r: String)
    ensures
        r@ == spec_encode_endpoint(*e),
{
    let mut out = String::new();
    out.append("{\"id\":");
    append_quoted(&mut out, e.id.as_str());
    out.append(",\"text\":");
    append_quoted(&mut out, e.text.as_str());
    out.append(",\"description\":");
    append_quoted(&mut out, e.description.as_str());
    out.append(",\"parameters\":[");
    let ghost mid = out@;
    let n = e.parameters.len();
    let mut i: usize = 0;
    proof {
        assert(e.parameters@.take(0) =~= Seq::<Parameter>::empty());
    }
    while i < n
        invariant
            n == e.parameters@.len(),
            i <= n,
            out@ == mid + spec_encode_params(e.parameters@.take(i as int)),
        decreases n - i,
    {
        let ghost out0 = out@;
        if i > 0 {
            push_char(&mut out, ',');
        }
        let piece = encode_param(&e.parameters[i]);
        out.append(piece.as_str());
        proof {
            assert(e.parameters@.take(i as int).push(e.parameters@[i as int]) =~= e.parameters@
                .take(i + 1));
            if i > 0 {
                assert(out@ =~= out0 + seq![','] + spec_encode_param(e.parameters@[i as int]));
                lemma_encode_params_push(e.parameters@.take(i as int), e.parameters@[i as int]);
            } else {
                assert(out@ =~= mid + spec_encode_param(e.parameters@[i as int]));
                assert(e.parameters@.take(1)[0] == e.parameters@[0]);
                assert(spec_encode_params(e.parameters@.take(1)) == spec_encode_param(
                    e.parameters@[0],
                ));
            }
            assert(out@ =~= mid + spec_encode_params(e.parameters@.take(i + 1)));
        }
        i = i + 1;
    }
    out.append("]}");
    proof {
        assert(e.parameters@.take(n as int) =~= e.parameters@);
        assert(out@ =~= spec_encode_endpoint(*e));
    }
    out
}

/// Whether a parsed value has the shape of a stored parameter.
pub open spec fn spec_param_shape_ok(v: JsonValue) -> bool {
    &&& v.spec_get_text("name"@) is Some
    &&& v.spec_get_text("description"@) is Some
    &&& v.spec_get("required"@) matches Some(JsonValue::Bool(_))
    &&& v.spec_get("alternatives"@) matches Some(JsonValue::Array(items)) && (forall|i: int|
        0 <= i < items@.len() ==> (#[trigger] items@[i]) is Text)
}

/// Whether a parameter is the faithful reading of a parsed value.
pub open spec fn spec_param_matches(p: Parameter, v: JsonValue) -> bool {
    &&& v.spec_get_text("name"@) == Some(p.name@)
    &&& v.spec_get_text("description"@) == Some(p.description@)
    &&& v.spec_get("required"@) == Some(JsonValue::Bool(p.required))
    &&& v.spec_get("alternatives"@) matches Some(JsonValue::Array(items)) && p.alternatives@.len()
        == items@.len() && (forall|i: int|
        0 <= i < items@.len() ==> ((#[trigger] items@[i]) matches JsonValue::Text(s)
            && p.alternatives@[i]@ == s@))
}

/// Reads one parameter out of a parsed record value.
fn param_from_value(v: &JsonValue) -> (r: Option<Parameter>)
    ensures
        r is Some <==> spec_param_shape_ok(*v),
        r matches Some(p) ==> spec_param_matches(p, *v),
{
    let name: String = match v.get("name") {
        Some(x) => match x.as_text() {
            Some(s) => s.clone(),
            None => {
                return None;
            },
        },
        None => {
            return None;
        },
    };
    let description: String = match v.get("description") {
        Some(x) => match x.as_text() {
            Some(s) => s.clone(),
            None => {
                return None;
            },
        },
        None => {
            return None;
        },
    };
    let required: bool = match v.get("required") {
        Some(x) => match x {
            JsonValue::Bool(b) => *b,
            _ => {
                return None;
            },
        },
        None => {
            return None;
        },
    };
    let mut alternatives: Vec<String> = Vec::new();
    match v.get("alternatives") {
        Some(x) => match x {
            JsonValue::Array(items) => {
                let n = items.len();
                let mut i: usize = 0;
                while i < n
                    invariant
                        x is Array && x->Array_0 == *items,
                        v.spec_get("alternatives"@) == Some(*x),
                        n == items@.len(),
                        i <= n,
                        alternatives@.len() == i,
                        forall|j: int|
                            0 <= j < i ==> ((#[trigger] items@[j]) matches JsonValue::Text(s)
                                && alternatives@[j]@ == s@),
                    decreases n - i,
                {
                    match items[i].as_text() {
                        Some(s) => {
                            alternatives.push(s.clone());
                        },
                        None => {
                            return None;
                        },
                    }
                    i = i + 1;
                }
            },
            _ => {
                return None;
            },
        },
        None => {
            return None;
        },
    }
    Some(Parameter { name, description, required, alternatives })
}

/// Whether a parsed value has the shape of a stored endpoint record.
pub open spec fn spec_endpoint_shape_ok(v: JsonValue) -> bool {
    &&& v.spec_get_text("id"@) is Some
    &&& v.spec_get_text("text"@) is Some
    &&& v.spec_get_text("description"@) is Some
    &&& v.spec_get("parameters"@) matches Some(JsonValue::Array(items)) && (forall|i: int|
        0 <= i < items@.len() ==> spec_param_shape_ok(#[trigger] items@[i]))
}

/// Whether an endpoint is the faithful reading of a parsed record value.
pub open spec fn spec_endpoint_matches(e: Endpoint, v: JsonValue) -> bool {
    &&& v.spec_get_text("id"@) == Some(e.id@)
    &&& v.spec_get_text("text"@) == Some(e.text@)
    &&& v.spec_get_text("description"@) == Some(e.description@)
    &&& v.spec_get("parameters"@) matches Some(JsonValue::Array(items)) && e.parameters@.len()
        == items@.len() && (forall|i: int|
        0 <= i < items@.len() ==> spec_param_matches(e.parameters@[i], #[trigger] items@[i]))
}

/// Reads one endpoint out of a parsed record value; a record of any other
/// shape reads as nothing.
pub fn endpoint_from_value(v: &JsonValue) -> (r: Option<Endpoint>)
    ensures
        r is Some <==> spec_endpoint_shape_ok(*v),
        r matches Some(e) ==> spec_endpoint_matches(e, *v),
{
    let id: String = match v.get("id") {
        Some(x) => match x.as_text() {
            Some(s) => s.clone(),
            None => {
                return None;
            },
        },
        None => {
            return None;
        },
    };
    let text: String = match v.get("text") {
        Some(x) => match x.as_text() {
            Some(s) => s.clone(),
            None => {
                return None;
            },
        },
        None => {
            return None;
        },
    };
    let description: String = match v.get("description") {
        Some(x) => match x.as_text() {
            Some(s) => s.clone(),
            None => {
                return None;
            },
        },
        None => {
            return None;
        },
    };
    let mut parameters: Vec<Parameter> = Vec::new();
    match v.get("parameters") {
        Some(x) => match x {
            JsonValue::Array(items) => {
                let n = items.len();
                let mut i: usize = 0;
                while i < n
                    invariant
                        x is Array && x->Array_0 == *items,
                        v.spec_get("parameters"@) == Some(*x),
                        n == items@.len(),
                        i <= n,
                        parameters@.len() == i,
                        forall|j: int|
                            0 <= j < i ==> spec_param_shape_ok(#[trigger] items@[j])
                                && spec_param_matches(parameters@[j], items@[j]),
                    decreases n - i,
                {
                    match param_from_value(&items[i]) {
                        Some(p) => {
                            parameters.push(p);
                        },
                        None => {
                            return None;
                        },
                    }
                    i = i + 1;
                }
            },
            _ => {
                return None;
            },
        },
        None => {
            return None;
        },
    }
    Some(Endpoint { id, text, description, parameters })
}

/// The entries after writing each endpoint in turn over `base`, keyed by
/// id: a later endpoint with the same id overwrites an earlier one.
pub open spec fn spec_loaded(base: Map<Seq<char>, Seq<char>>, eps: Seq<Endpoint>) -> Map<
    Seq<char>,
    Seq<char>,
>
    decreases eps.len(),
{
    if eps.len() == 0 {
        base
    } else {
        spec_loaded(base.insert(eps[0].id@, spec_encode_endpoint(eps[0])), eps.drop_first())
    }
}

pub proof fn lemma_loaded_push(base: Map<Seq<char>, Seq<char>>, eps: Seq<Endpoint>, e: Endpoint)
    ensures
        spec_loaded(base, eps.push(e)) == spec_loaded(base, eps).insert(
            e.id@,
            spec_encode_endpoint(e),
        ),
    decreases eps.len(),
{
    if eps.len() == 0 {
        assert(eps.push(e)[0] == e);
        assert(eps.push(e).drop_first() =~= Seq::<Endpoint>::empty());
        assert(spec_loaded(base.insert(e.id@, spec_encode_endpoint(e)), Seq::<Endpoint>::empty())
            == base.insert(e.id@, spec_encode_endpoint(e)));
        assert(spec_loaded(base, eps.push(e)) == base.insert(e.id@, spec_encode_endpoint(e)));
    } else {
        assert(eps.push(e)[0] == eps[0]);
        assert(eps.push(e).drop_first() =~= eps.drop_first().push(e));
        lemma_loaded_push(
            base.insert(eps[0].id@, spec_encode_endpoint(eps[0])),
            eps.drop_first(),
            e,
        );
    }
}

/// Loads endpoints into the store. With `force` every prior entry is
/// discarded first; without it a populated store is left untouched — the
/// load is a no-op that succeeds, so repeating a load changes nothing.
/// Only the backing store can fail here.
pub fn load_endpoints(store: &mut Store, endpoints: &Vec<Endpoint>, force: bool) -> (r: Result<
    (),
    LoadError,
>)
    ensures
        r matches Err(e) ==> e == LoadError::Storage,
        !force && store_entries(*old(store)) != Map::<Seq<char>, Seq<char>>::empty() ==> r is Ok
            && store_entries(*final(store)) == store_entries(*old(store)),
        (force || store_entries(*old(store)) == Map::<Seq<char>, Seq<char>>::empty()) && r is Ok
            ==> store_entries(*final(store)) == spec_loaded(
            Map::<Seq<char>, Seq<char>>::empty(),
            endpoints@,
        ),
{
    if force {
        match store.clear() {
            Ok(()) => {},
            Err(()) => {
                return Err(LoadError::Storage);
            },
        }
        proof {
            assert(store_entries(*store) =~= Map::<Seq<char>, Seq<char>>::empty());
        }
    }
    if force || store.is_empty() {
        let n = endpoints.len();
        let mut i: usize = 0;
        proof {
            assert(endpoints@.take(0) =~= Seq::<Endpoint>::empty());
        }
        while i < n
            invariant
                n == endpoints@.len(),
                i <= n,
                force || store_entries(*old(store)) == Map::<Seq<char>, Seq<char>>::empty(),
                store_entries(*store) == spec_loaded(
                    Map::<Seq<char>, Seq<char>>::empty(),
                    endpoints@.take(i as int),
                ),
            decreases n - i,
        {
            let encoded = encode_endpoint(&endpoints[i]);
            match store.put(endpoints[i].id.as_str(), encoded.as_str()) {
                Ok(()) => {},
                Err(()) => {
                    return Err(LoadError::Storage);
                },
            }
            proof {
                assert(endpoints@.take(i as int).push(endpoints@[i as int]) =~= endpoints@.take(
                    i + 1,
                ));
                lemma_loaded_push(
                    Map::<Seq<char>, Seq<char>>::empty(),
                    endpoints@.take(i as int),
                    endpoints@[i as int],
                );
            }
            i = i + 1;
        }
        match store.flush() {
            Ok(()) => {},
            Err(()) => {
                return Err(LoadError::Storage);
            },
        }
        proof {
            assert(endpoints@.take(n as int) =~= endpoints@);
        }
        Ok(())
    } else {
        Ok(())
    }
}

/// A load of at least one endpoint populates the store; by the contract of
/// `load_endpoints`, a repeated load without `force` is then a no-op that
/// leaves the entries unchanged.
pub proof fn lemma_load_idempotent(eps: Seq<Endpoint>)
    requires
        eps.len() > 0,
    ensures
        spec_loaded(Map::<Seq<char>, Seq<char>>::empty(), eps) != Map::<
            Seq<char>,
            Seq<char>,
        >::empty(),
{
    lemma_loaded_contains(Map::<Seq<char>, Seq<char>>::empty(), eps, eps[0].id@);
    assert(exists|i: int| 0 <= i < eps.len() && (#[trigger] eps[i].id@) == eps[0].id@);
    assert(spec_loaded(Map::<Seq<char>, Seq<char>>::empty(), eps).contains_key(eps[0].id@));
    assert(!Map::<Seq<char>, Seq<char>>::empty().contains_key(eps[0].id@));
}

/// A key stands in the loaded entries exactly when it stood in the base or
/// is the id of one of the loaded endpoints.
pub proof fn lemma_loaded_contains(
    base: Map<Seq<char>, Seq<char>>,
    eps: Seq<Endpoint>,
    k: Seq<char>,
)
    ensures
        spec_loaded(base, eps).contains_key(k) <==> (base.contains_key(k) || exists|i: int|
            0 <= i < eps.len() && eps[i].id@ == k),
    decreases eps.len(),
{
    if eps.len() == 0 {
    } else {
        let base1 = base.insert(eps[0].id@, spec_encode_endpoint(eps[0]));
        lemma_loaded_contains(base1, eps.drop_first(), k);
        if spec_loaded(base, eps).contains_key(k) {
            if base1.contains_key(k) && !base.contains_key(k) {
                assert(eps[0].id@ == k);
            }
            if !base1.contains_key(k) {
                let i = choose|i: int|
                    0 <= i < eps.drop_first().len() && eps.drop_first()[i].id@ == k;
                assert(eps[i + 1].id@ == k);
            }
        } else {
            assert(!base1.contains_key(k));
            assert(eps[0].id@ != k);
            if exists|i: int| 0 <= i < eps.len() && eps[i].id@ == k {
                let i = choose|i: int| 0 <= i < eps.len() && eps[i].id@ == k;
                assert(i > 0);
                assert(eps.drop_first()[i - 1].id@ == k);
            }
        }
    }
}

/// Entries under keys that no loaded endpoint uses are untouched.
pub proof fn lemma_loaded_frame(base: Map<Seq<char>, Seq<char>>, eps: Seq<Endpoint>, k: Seq<char>)
    requires
        forall|i: int| 0 <= i < eps.len() ==> (#[trigger] eps[i].id@) != k,
    ensures
        spec_loaded(base, eps).contains_key(k) == base.contains_key(k),
        base.contains_key(k) ==> spec_loaded(base, eps)[k] == base[k],
    decreases eps.len(),
{
    if eps.len() == 0 {
    } else {
        assert(eps[0].id@ != k);
        let base1 = base.insert(eps[0].id@, spec_encode_endpoint(eps[0]));
        assert(forall|i: int|
            0 <= i < eps.drop_first().len() ==> (#[trigger] eps.drop_first()[i].id@) != k);
        lemma_loaded_frame(base1, eps.drop_first(), k);
    }
}

/// Each endpoint whose id no later endpoint reuses stands in the loaded
/// entries under its id, as its encoded record.
pub proof fn lemma_loaded_value(base: Map<Seq<char>, Seq<char>>, eps: Seq<Endpoint>, i: int)
    requires
        0 <= i < eps.len(),
        forall|j: int| i < j < eps.len() ==> (#[trigger] eps[j].id@) != eps[i].id@,
    ensures
        spec_loaded(base, eps).contains_key(eps[i].id@),
        spec_loaded(base, eps)[eps[i].id@] == spec_encode_endpoint(eps[i]),
    decreases eps.len(),
{
    let base1 = base.insert(eps[0].id@, spec_encode_endpoint(eps[0]));
    if i == 0 {
        assert(forall|j: int|
            0 <= j < eps.drop_first().len() ==> (#[trigger] eps.drop_first()[j].id@)
                != eps[0].id@);
        lemma_loaded_frame(base1, eps.drop_first(), eps[0].id@);
    } else {
        assert(forall|j: int|
            i - 1 < j < eps.drop_first().len() ==> (#[trigger] eps.drop_first()[j].id@)
                != eps.drop_first()[i - 1].id@) by {
            assert(forall|j: int|
                i - 1 < j < eps.drop_first().len() ==> eps.drop_first()[j] == eps[j + 1]);
        }
        lemma_loaded_value(base1, eps.drop_first(), i - 1);
        assert(eps.drop_first()[i - 1] == eps[i]);
    }
}

/// After a forced load the store holds exactly the configured endpoints:
/// each endpoint's record under its id, and nothing else. Ids are unique
/// across a catalog.
pub proof fn lemma_forced_load_exact(eps: Seq<Endpoint>)
    requires
        forall|i: int, j: int|
            0 <= i < j < eps.len() ==> (#[trigger] eps[i].id@) != (#[trigger] eps[j].id@),
    ensures
        forall|i: int|
            0 <= i < eps.len() ==> spec_loaded(
                Map::<Seq<char>, Seq<char>>::empty(),
                eps,
            ).contains_key(#[trigger] eps[i].id@) && spec_loaded(
                Map::<Seq<char>, Seq<char>>::empty(),
                eps,
            )[eps[i].id@] == spec_encode_endpoint(eps[i]),
        forall|k: Seq<char>|
            spec_loaded(Map::<Seq<char>, Seq<char>>::empty(), eps).contains_key(k)
                ==> exists|i: int| 0 <= i < eps.len() && (#[trigger] eps[i].id@) == k,
{
    assert forall|i: int| 0 <= i < eps.len() implies spec_loaded(
        Map::<Seq<char>, Seq<char>>::empty(),
        eps,
    ).contains_key(#[trigger] eps[i].id@) && spec_loaded(
        Map::<Seq<char>, Seq<char>>::empty(),
        eps,
    )[eps[i].id@] == spec_encode_endpoint(eps[i]) by {
        lemma_loaded_value(Map::<Seq<char>, Seq<char>>::empty(), eps, i);
    }
    assert forall|k: Seq<char>|
        spec_loaded(Map::<Seq<char>, Seq<char>>::empty(), eps).contains_key(k) implies exists|
        i: int,
    | 0 <= i < eps.len() && (#[trigger] eps[i].id@) == k by {
        lemma_loaded_contains(Map::<Seq<char>, Seq<char>>::empty(), eps, k);
    }
}

/// Whether a parsed document has the shape of a configuration: an
/// `endpoints` key holding an array of well-shaped endpoint entries.
pub open spec fn spec_config_shape_ok(v: JsonValue) -> bool {
    v.spec_get("endpoints"@) matches Some(JsonValue::Array(items)) && (forall|i: int|
        0 <= i < items@.len() ==> spec_endpoint_shape_ok(#[trigger] items@[i]))
}

/// Whether endpoints are the faithful reading of a parsed configuration.
pub open spec fn spec_config_matches(eps: Seq<Endpoint>, v: JsonValue) -> bool {
    v.spec_get("endpoints"@) matches Some(JsonValue::Array(items)) && eps.len() == items@.len()
        && (forall|i: int|
        0 <= i < items@.len() ==> spec_endpoint_matches(eps[i], #[trigger] items@[i]))
}

/// Reads a parsed configuration document into the configured endpoints.
fn config_from_value(v: &JsonValue) -> (r: Option<ConfigFile>)
    ensures
        r is Some <==> spec_config_shape_ok(*v),
        r matches Some(c) ==> spec_config_matches(c.endpoints@, *v),
{
    let mut endpoints: Vec<Endpoint> = Vec::new();
    match v.get("endpoints") {
        Some(x) => match x {
            JsonValue::Array(items) => {
                let n = items.len();
                let mut i: usize = 0;
                while i < n
                    invariant
                        x is Array && x->Array_0 == *items,
                        v.spec_get("endpoints"@) == Some(*x),
                        n == items@.len(),
                        i <= n,
                        endpoints@.len() == i,
                        forall|j: int|
                            0 <= j < i ==> spec_endpoint_shape_ok(#[trigger] items@[j])
                                && spec_endpoint_matches(endpoints@[j], items@[j]),
                    decreases n - i,
                {
                    match endpoint_from_value(&items[i]) {
                        Some(e) => {
                            endpoints.push(e);
                        },
                        None => {
                            return None;
                        },
                    }
                    i = i + 1;
                }
                Some(ConfigFile { endpoints })
            },
            _ => None,
        },
        None => None,
    }
}

/// Parses a configuration document. A malformed document — one that is not
/// well-formed YAML, or whose shape is not a configuration — is rejected.
pub fn parse_config(text: &str) -> (r: Result<ConfigFile, LoadError>)
    ensures
        r is Ok <==> (yaml_parse(text@) matches Some(v) && spec_config_shape_ok(v)),
        r matches Ok(c) ==> spec_config_matches(c.endpoints@, yaml_parse(text@)->Some_0),
        r matches Err(e) ==> e == LoadError::ConfigParse,
{
    match parse_yaml_text(text) {
        Some(v) => match config_from_value(&v) {
            Some(c) => Ok(c),
            None => Err(LoadError::ConfigParse),
        },
        None => Err(LoadError::ConfigParse),
    }
}

/// Parses a configuration document and loads it into the store: the whole
/// catalog load. A malformed document fails before anything is written; a
/// populated store without `force` is left untouched; with `force` the
/// prior contents are discarded and exactly the configured endpoints are
/// written.
pub fn load_config(store: &mut Store, config_text: &str, force: bool) -> (r: Result<
    (),
    LoadError,
>)
    ensures
        r == Err::<(), LoadError>(LoadError::ConfigParse) <==> !(yaml_parse(config_text@) matches
        Some(v) && spec_config_shape_ok(v)),
        r == Err::<(), LoadError>(LoadError::ConfigParse) ==> store_entries(*final(store))
            == store_entries(*old(store)),
        r matches Err(e) ==> e == LoadError::ConfigParse || e == LoadError::Storage,
        (yaml_parse(config_text@) matches Some(v) && spec_config_shape_ok(v)) && !force
            && store_entries(*old(store)) != Map::<Seq<char>, Seq<char>>::empty() ==> r is Ok
            && store_entries(*final(store)) == store_entries(*old(store)),
        r is Ok && (force || store_entries(*old(store)) == Map::<Seq<char>, Seq<char>>::empty())
            ==> exists|eps: Seq<Endpoint>|
            spec_config_matches(eps, yaml_parse(config_text@)->Some_0) && store_entries(
                *final(store),
            ) == spec_loaded(Map::<Seq<char>, Seq<char>>::empty(), eps),
{
    let cfg = match parse_config(config_text) {
        Ok(c) => c,
        Err(e) => {
            return Err(e);
        },
    };
    let r = load_endpoints(store, &cfg.endpoints, force);
    proof {
        if r is Ok && (force || store_entries(*old(store)) == Map::<Seq<char>, Seq<char>>::empty())
        {
            let eps = cfg.endpoints@;
            assert(spec_config_matches(eps, yaml_parse(config_text@)->Some_0) && store_entries(
                *store,
            ) == spec_loaded(Map::<Seq<char>, Seq<char>>::empty(), eps));
        }
    }
    r
}

/// Point lookup by id; absence is not an error. A record that does not
/// read back as an endpoint is treated as absent.
pub fn get_endpoint(store: &Store, endpoint_id: &str) -> (r: Option<Endpoint>)
    ensures
        r matches Some(e) ==> store_entries(*store).contains_key(endpoint_id@) && (json_parse(
            store_entries(*store)[endpoint_id@],
        ) matches Some(v) && spec_endpoint_matches(e, v)),
        !store_entries(*store).contains_key(endpoint_id@) ==> r is None,
        store_entries(*store).contains_key(endpoint_id@) && !(json_parse(
            store_entries(*store)[endpoint_id@],
        ) matches Some(v) && spec_endpoint_shape_ok(v)) ==> r is None,
{
    match store.get(endpoint_id) {
        Some(text) => match parse_json_text(text.as_str()) {
            Some(v) => endpoint_from_value(&v),
            None => None,
        },
        None => None,
    }
}

/// Whether an endpoint is the faithful reading of one of the store's
/// entries.
pub open spec fn spec_listed_from(entries: Map<Seq<char>, Seq<char>>, e: Endpoint) -> bool {
    exists|k: Seq<char>|
        entries.contains_key(k) && ((#[trigger] json_parse(entries[k])) matches Some(v)
            && spec_endpoint_matches(e, v))
}

/// Whether a fetched pair's value reads back as an endpoint record.
pub open spec fn spec_decodable(p: (String, String)) -> bool {
    json_parse(p.1@) matches Some(v) && spec_endpoint_shape_ok(v)
}

/// The parsed record values of exactly the decodable pairs, in order.
pub open spec fn spec_decoded_values(pairs: Seq<(String, String)>) -> Seq<JsonValue>
    decreases pairs.len(),
{
    if pairs.len() == 0 {
        Seq::empty()
    } else if spec_decodable(pairs[0]) {
        seq![json_parse(pairs[0].1@)->Some_0] + spec_decoded_values(pairs.drop_first())
    } else {
        spec_decoded_values(pairs.drop_first())
    }
}

pub proof fn lemma_decoded_values_push(pairs: Seq<(String, String)>, p: (String, String))
    ensures
        spec_decoded_values(pairs.push(p)) == spec_decoded_values(pairs) + (
        if spec_decodable(p) {
            seq![json_parse(p.1@)->Some_0]
        } else {
            Seq::<JsonValue>::empty()
        }),
    decreases pairs.len(),
{
    if pairs.len() == 0 {
        assert(pairs.push(p)[0] == p);
        assert(pairs.push(p).drop_first() =~= Seq::<(String, String)>::empty());
        assert(spec_decoded_values(Seq::<(String, String)>::empty()) == Seq::<JsonValue>::empty());
        assert(spec_decoded_values(pairs) == Seq::<JsonValue>::empty());
        if spec_decodable(p) {
            assert(spec_decoded_values(pairs.push(p)) == seq![json_parse(p.1@)->Some_0]
                + spec_decoded_values(pairs.push(p).drop_first()));
            assert(seq![json_parse(p.1@)->Some_0] + Seq::<JsonValue>::empty()
                =~= spec_decoded_values(pairs) + seq![json_parse(p.1@)->Some_0]);
        } else {
            assert(spec_decoded_values(pairs.push(p)) == spec_decoded_values(
                pairs.push(p).drop_first(),
            ));
            assert(spec_decoded_values(pairs.push(p)) =~= spec_decoded_values(pairs)
                + Seq::<JsonValue>::empty());
        }
    } else {
        assert(pairs.push(p)[0] == pairs[0]);
        assert(pairs.push(p).drop_first() =~= pairs.drop_first().push(p));
        lemma_decoded_values_push(pairs.drop_first(), p);
        if spec_decodable(pairs[0]) {
            assert(spec_decoded_values(pairs.push(p)) =~= spec_decoded_values(pairs) + (
            if spec_decodable(p) {
                seq![json_parse(p.1@)->Some_0]
            } else {
                Seq::<JsonValue>::empty()
            }));
        }
    }
}

/// Each decoded value comes from one of the pairs.
pub proof fn lemma_decoded_values_membership(pairs: Seq<(String, String)>, j: int)
    requires
        0 <= j < spec_decoded_values(pairs).len(),
    ensures
        exists|idx: int|
            0 <= idx < pairs.len() && spec_decodable(#[trigger] pairs[idx])
                && spec_decoded_values(pairs)[j] == json_parse(pairs[idx].1@)->Some_0,
    decreases pairs.len(),
{
    if spec_decodable(pairs[0]) && j == 0 {
        assert(spec_decoded_values(pairs)[0] == json_parse(pairs[0].1@)->Some_0);
    } else {
        let j1 = if spec_decodable(pairs[0]) {
            j - 1
        } else {
            j
        };
        lemma_decoded_values_membership(pairs.drop_first(), j1);
        let idx = choose|idx: int|
            0 <= idx < pairs.drop_first().len() && spec_decodable(
                #[trigger] pairs.drop_first()[idx],
            ) && spec_decoded_values(pairs.drop_first())[j1] == json_parse(
                pairs.drop_first()[idx].1@,
            )->Some_0;
        assert(pairs[idx + 1] == pairs.drop_first()[idx]);
        assert(spec_decoded_values(pairs)[j] == spec_decoded_values(pairs.drop_first())[j1]);
    }
}

/// Reads fetched key/value pairs back into endpoints: exactly the pairs
/// whose value parses as a well-shaped endpoint record are kept, in order,
/// each read faithfully; every other pair is skipped as corrupt.
pub fn endpoints_from_pairs(pairs: &Vec<(String, String)>) -> (r: Vec<Endpoint>)
    ensures
        r@.len() == spec_decoded_values(pairs@).len(),
        forall|j: int|
            0 <= j < r@.len() ==> spec_endpoint_matches(
                #[trigger] r@[j],
                spec_decoded_values(pairs@)[j],
            ),
{
    let mut out: Vec<Endpoint> = Vec::new();
    let n = pairs.len();
    let mut i: usize = 0;
    proof {
        assert(pairs@.take(0) =~= Seq::<(String, String)>::empty());
    }
    while i < n
        invariant
            n == pairs@.len(),
            i <= n,
            out@.len() == spec_decoded_values(pairs@.take(i as int)).len(),
            forall|j: int|
                0 <= j < out@.len() ==> spec_endpoint_matches(
                    #[trigger] out@[j],
                    spec_decoded_values(pairs@.take(i as int))[j],
                ),
        decreases n - i,
    {
        let ghost taken = pairs@.take(i as int);
        proof {
            assert(taken.push(pairs@[i as int]) =~= pairs@.take(i + 1));
            lemma_decoded_values_push(taken, pairs@[i as int]);
        }
        match parse_json_text(pairs[i].1.as_str()) {
            Some(v) => match endpoint_from_value(&v) {
                Some(e) => {
                    proof {
                        assert(spec_decodable(pairs@[i as int]));
                        assert(spec_decoded_values(pairs@.take(i + 1)) =~= spec_decoded_values(
                            taken,
                        ).push(v));
                    }
                    out.push(e);
                },
                None => {
                    proof {
                        assert(!spec_decodable(pairs@[i as int]));
                        assert(spec_decoded_values(pairs@.take(i + 1)) =~= spec_decoded_values(
                            taken,
                        ));
                    }
                },
            },
            None => {
                proof {
                    assert(!spec_decodable(pairs@[i as int]));
                    assert(spec_decoded_values(pairs@.take(i + 1)) =~= spec_decoded_values(
                        taken,
                    ));
                }
            },
        }
        i = i + 1;
    }
    proof {
        assert(pairs@.take(n as int) =~= pairs@);
    }
    out
}

/// Every registered endpoint, in the store's iteration order: exactly the
/// fetched records that read back as endpoints, through
/// `endpoints_from_pairs`. A record that fails to read back is skipped,
/// not an error; each returned endpoint is the faithful reading of one
/// stored record.
pub fn list_all(store: &Store) -> (r: Vec<Endpoint>)
    ensures
        forall|i: int|
            0 <= i < r@.len() ==> spec_listed_from(store_entries(*store), #[trigger] r@[i]),
{
    let pairs = store.iter_all();
    let out = endpoints_from_pairs(&pairs);
    proof {
        assert forall|i: int|
            0 <= i < out@.len() implies spec_listed_from(
            store_entries(*store),
            #[trigger] out@[i],
        ) by {
            lemma_decoded_values_membership(pairs@, i);
            let idx = choose|idx: int|
                0 <= idx < pairs@.len() && spec_decodable(#[trigger] pairs@[idx])
                    && spec_decoded_values(pairs@)[i] == json_parse(pairs@[idx].1@)->Some_0;
            let k = pairs@[idx].0@;
            assert(store_entries(*store).contains_key(k));
            assert(store_entries(*store)[k] == pairs@[idx].1@);
            assert(json_parse(store_entries(*store)[k]) matches Some(w)
                && spec_endpoint_matches(out@[i], w));
        }
    }
    out
}

} // verus!

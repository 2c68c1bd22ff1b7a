//! Hiding secrets and device-bound values in exported settings, and taking
//! hidden values back from the existing settings on import.

use vstd::prelude::*;
use crate::config::json;
use crate::config::json::{Json, JsonModel};
use crate::order;
use crate::text;

verus! {

/// What stands in an export in place of a hidden value.
pub const REDACTED_MARKER: &'static str = "__SNOWAPP_REDACTED__";

/// A hidden value.
pub open spec fn marker() -> JsonModel {
    JsonModel::Str(REDACTED_MARKER@)
}

/// Whether a field of this name holds a secret.
pub open spec fn secret_key(key: Seq<char>) -> bool {
    let k = text::ascii_lower(key);
    ||| text::occurs(k, "api_key"@)
    ||| text::finishes(k, "token"@)
    ||| text::occurs(k, "password"@)
    ||| text::occurs(k, "secret"@)
    ||| text::occurs(k, "authorization"@)
    ||| text::occurs(k, "cookie"@)
    ||| k == "env"@
    ||| k == "headers"@
}

/// Whether a field of this name has a meaning on this device alone.
pub open spec fn device_key(key: Seq<char>) -> bool {
    let k = text::ascii_lower(key);
    ||| k == "path"@
    ||| text::finishes(k, "path"@)
    ||| text::occurs(k, "workspace"@)
    ||| text::occurs(k, "ssh"@)
    ||| text::occurs(k, "credential"@)
}

/// Whether a field of this name holds a secret.
pub fn key_is_secret(key: &str) -> (r: bool)
    ensures
        r == secret_key(key@),
{
    let lower = text::to_ascii_lower(text::chars_of(key).as_slice());
    let k = lower.as_slice();
    text::contains_str(k, "api_key") || text::ends_with(k, "token") || text::contains_str(
        k,
        "password",
    ) || text::contains_str(k, "secret") || text::contains_str(k, "authorization")
        || text::contains_str(k, "cookie") || text::equals(k, "env") || text::equals(k, "headers")
}

/// Whether a field of this name has a meaning on this device alone.
pub fn key_is_device_only(key: &str) -> (r: bool)
    ensures
        r == device_key(key@),
{
    let lower = text::to_ascii_lower(text::chars_of(key).as_slice());
    let k = lower.as_slice();
    text::equals(k, "path") || text::ends_with(k, "path") || text::contains_str(k, "workspace")
        || text::contains_str(k, "ssh") || text::contains_str(k, "credential")
}

/// Whether a value under this name is hidden.
pub open spec fn hidden(key: Option<Seq<char>>, include_secrets: bool) -> bool {
    match key {
        Some(k) => device_key(k) || (secret_key(k) && !include_secrets),
        None => false,
    }
}

// ---------------------------------------------------------------------
// Hiding
// ---------------------------------------------------------------------

/// A value with what must not leave the device hidden, at every depth.
pub open spec fn sanitized(v: JsonModel, key: Option<Seq<char>>, include_secrets: bool) -> JsonModel
    decreases v,
{
    if hidden(key, include_secrets) {
        marker()
    } else {
        match v {
            JsonModel::Object(fields) => JsonModel::Object(
                sanitized_fields(fields, include_secrets),
            ),
            JsonModel::Array(items) => JsonModel::Array(sanitized_items(items, include_secrets)),
            other => other,
        }
    }
}

/// The fields of an object after hiding.
pub open spec fn sanitized_fields(
    fields: Seq<(Seq<char>, JsonModel)>,
    include_secrets: bool,
) -> Seq<(Seq<char>, JsonModel)>
    decreases fields,
{
    if fields.len() == 0 {
        Seq::empty()
    } else {
        sanitized_fields(fields.drop_last(), include_secrets).push(
            (
                fields.last().0,
                sanitized(fields.last().1, Some(fields.last().0), include_secrets),
            ),
        )
    }
}

/// The items of a list after hiding.
pub open spec fn sanitized_items(items: Seq<JsonModel>, include_secrets: bool) -> Seq<JsonModel>
    decreases items,
{
    if items.len() == 0 {
        Seq::empty()
    } else {
        sanitized_items(items.drop_last(), include_secrets).push(
            sanitized(items.last(), None, include_secrets),
        )
    }
}

/// The marker as a value.
fn marker_value() -> (r: Json)
    ensures
        r.model() == marker(),
{
    Json::Str(REDACTED_MARKER.to_string())
}

/// Whether a value under this name is hidden.
fn is_hidden(key: &Option<String>, include_secrets: bool) -> (r: bool)
    ensures
        r == hidden(key.deep_view(), include_secrets),
{
    match key {
        Some(k) => key_is_device_only(k.as_str()) || (key_is_secret(k.as_str())
            && !include_secrets),
        None => false,
    }
}

/// Hides what must not leave the device. Device-bound values are always
/// hidden, secrets unless they are asked for.
pub fn sanitize_json(value: &Json, key: &Option<String>, include_secrets: bool) -> (out: Json)
    ensures
        out.model() == sanitized(value.model(), key.deep_view(), include_secrets),
    decreases value,
{
    if is_hidden(key, include_secrets) {
        return marker_value();
    }
    match value {
        Json::Object(fields) => {
            let mut out: Vec<(String, Json)> = Vec::new();
            let mut i: usize = 0;
            while i < fields.len()
                invariant
                    i <= fields@.len(),
                    json::field_models(out@) == sanitized_fields(
                        json::field_models(fields@.take(i as int)),
                        include_secrets,
                    ),
                    decreases_to!(value => fields),
                decreases fields@.len() - i,
            {
                proof {
                    assert(fields@.take(i + 1).drop_last() =~= fields@.take(i as int));
                    json::lemma_field_models(fields@.take(i + 1));
                    assert(json::field_models(fields@.take(i + 1)).drop_last()
                        =~= json::field_models(fields@.take(i as int)));
                    assert(decreases_to!(fields => fields@));
                    assert(decreases_to!(fields@ => fields@[i as int]));
                    assert(decreases_to!(fields@[i as int] => fields@[i as int].1));
                }
                let name = fields[i].0.clone();
                let item = sanitize_json(&fields[i].1, &Some(fields[i].0.clone()), include_secrets);
                let ghost before = out@;
                out.push((name, item));
                proof {
                    assert(out@.drop_last() =~= before);
                }
                i += 1;
            }
            proof {
                assert(fields@.take(i as int) =~= fields@);
            }
            Json::Object(out)
        },
        Json::Array(items) => {
            let mut out: Vec<Json> = Vec::new();
            let mut i: usize = 0;
            while i < items.len()
                invariant
                    i <= items@.len(),
                    json::item_models(out@) == sanitized_items(
                        json::item_models(items@.take(i as int)),
                        include_secrets,
                    ),
                    decreases_to!(value => items),
                decreases items@.len() - i,
            {
                proof {
                    assert(items@.take(i + 1).drop_last() =~= items@.take(i as int));
                    json::lemma_item_models(items@.take(i + 1));
                    assert(json::item_models(items@.take(i + 1)).drop_last()
                        =~= json::item_models(items@.take(i as int)));
                    assert(decreases_to!(items => items@));
                    assert(decreases_to!(items@ => items@[i as int]));
                }
                let item = sanitize_json(&items[i], &None, include_secrets);
                let ghost before = out@;
                out.push(item);
                proof {
                    assert(out@.drop_last() =~= before);
                }
                i += 1;
            }
            proof {
                assert(items@.take(i as int) =~= items@);
            }
            Json::Array(out)
        },
        _ => json::duplicate(value),
    }
}

/// Whether every field whose name is hidden holds the marker, at every
/// depth.
pub open spec fn clean(v: JsonModel, include_secrets: bool) -> bool
    decreases v,
{
    match v {
        JsonModel::Object(fields) => clean_fields(fields, include_secrets),
        JsonModel::Array(items) => clean_items(items, include_secrets),
        _ => true,
    }
}

/// Whether nothing that is to be hidden shows in fields.
pub open spec fn clean_fields(fields: Seq<(Seq<char>, JsonModel)>, include_secrets: bool) -> bool
    decreases fields,
{
    fields.len() == 0 || {
        &&& clean_fields(fields.drop_last(), include_secrets)
        &&& clean(fields.last().1, include_secrets)
        &&& hidden(Some(fields.last().0), include_secrets) ==> fields.last().1 == marker()
    }
}

/// Whether nothing that is to be hidden shows in items.
pub open spec fn clean_items(items: Seq<JsonModel>, include_secrets: bool) -> bool
    decreases items,
{
    items.len() == 0 || {
        &&& clean_items(items.drop_last(), include_secrets)
        &&& clean(items.last(), include_secrets)
    }
}

/// An export never shows a hidden value: after hiding, every field with the
/// name of a device-bound value holds the marker, and so does every field
/// with the name of a secret unless secrets were asked for.
pub proof fn law_sanitized_is_clean(v: JsonModel, key: Option<Seq<char>>, include_secrets: bool)
    ensures
        clean(sanitized(v, key, include_secrets), include_secrets),
    decreases v,
{
    if !hidden(key, include_secrets) {
        match v {
            JsonModel::Object(fields) => lemma_fields_clean(fields, include_secrets),
            JsonModel::Array(items) => lemma_items_clean(items, include_secrets),
            _ => {},
        }
    }
}

proof fn lemma_fields_clean(fields: Seq<(Seq<char>, JsonModel)>, include_secrets: bool)
    ensures
        clean_fields(sanitized_fields(fields, include_secrets), include_secrets),
    decreases fields,
{
    if fields.len() > 0 {
        lemma_fields_clean(fields.drop_last(), include_secrets);
        law_sanitized_is_clean(fields.last().1, Some(fields.last().0), include_secrets);
        let out = sanitized_fields(fields, include_secrets);
        assert(out.drop_last() =~= sanitized_fields(fields.drop_last(), include_secrets));
    }
}

proof fn lemma_items_clean(items: Seq<JsonModel>, include_secrets: bool)
    ensures
        clean_items(sanitized_items(items, include_secrets), include_secrets),
    decreases items,
{
    if items.len() > 0 {
        lemma_items_clean(items.drop_last(), include_secrets);
        law_sanitized_is_clean(items.last(), None, include_secrets);
        let out = sanitized_items(items, include_secrets);
        assert(out.drop_last() =~= sanitized_items(items.drop_last(), include_secrets));
    }
}

/// Hiding twice is hiding once.
pub proof fn law_sanitizing_is_idempotent(
    v: JsonModel,
    key: Option<Seq<char>>,
    include_secrets: bool,
)
    ensures
        sanitized(sanitized(v, key, include_secrets), key, include_secrets) == sanitized(
            v,
            key,
            include_secrets,
        ),
    decreases v,
{
    if !hidden(key, include_secrets) {
        match v {
            JsonModel::Object(fields) => lemma_fields_idempotent(fields, include_secrets),
            JsonModel::Array(items) => lemma_items_idempotent(items, include_secrets),
            _ => {},
        }
    }
}

proof fn lemma_fields_idempotent(fields: Seq<(Seq<char>, JsonModel)>, include_secrets: bool)
    ensures
        sanitized_fields(sanitized_fields(fields, include_secrets), include_secrets)
            == sanitized_fields(fields, include_secrets),
    decreases fields,
{
    if fields.len() > 0 {
        lemma_fields_idempotent(fields.drop_last(), include_secrets);
        law_sanitizing_is_idempotent(fields.last().1, Some(fields.last().0), include_secrets);
        let out = sanitized_fields(fields, include_secrets);
        assert(out.drop_last() =~= sanitized_fields(fields.drop_last(), include_secrets));
    }
}

proof fn lemma_items_idempotent(items: Seq<JsonModel>, include_secrets: bool)
    ensures
        sanitized_items(sanitized_items(items, include_secrets), include_secrets)
            == sanitized_items(items, include_secrets),
    decreases items,
{
    if items.len() > 0 {
        lemma_items_idempotent(items.drop_last(), include_secrets);
        law_sanitizing_is_idempotent(items.last(), None, include_secrets);
        let out = sanitized_items(items, include_secrets);
        assert(out.drop_last() =~= sanitized_items(items.drop_last(), include_secrets));
    }
}

// ---------------------------------------------------------------------
// Finding hidden values
// ---------------------------------------------------------------------

/// Whether a value is hidden, or holds a hidden value at any depth.
pub open spec fn redacted_in(v: JsonModel) -> bool
    decreases v,
{
    match v {
        JsonModel::Str(s) => s == REDACTED_MARKER@,
        JsonModel::Array(items) => redacted_in_items(items),
        JsonModel::Object(fields) => redacted_in_fields(fields),
        _ => false,
    }
}

/// Whether the marker stands somewhere in items.
pub open spec fn redacted_in_items(items: Seq<JsonModel>) -> bool
    decreases items,
{
    items.len() > 0 && (redacted_in_items(items.drop_last()) || redacted_in(items.last()))
}

/// Whether the marker stands somewhere in fields.
pub open spec fn redacted_in_fields(fields: Seq<(Seq<char>, JsonModel)>) -> bool
    decreases fields,
{
    fields.len() > 0 && (redacted_in_fields(fields.drop_last()) || redacted_in(fields.last().1))
}

/// Whether a value is the marker.
pub fn is_marker(value: &Json) -> (r: bool)
    ensures
        r == (value.model() == marker()),
{
    match value {
        Json::Str(s) => text::equals(text::chars_of(s.as_str()).as_slice(), REDACTED_MARKER),
        _ => false,
    }
}

/// Whether a value is hidden, or holds a hidden value at any depth.
pub fn contains_redacted(value: &Json) -> (r: bool)
    ensures
        r == redacted_in(value.model()),
    decreases value,
{
    match value {
        Json::Str(s) => text::equals(text::chars_of(s.as_str()).as_slice(), REDACTED_MARKER),
        Json::Array(items) => {
            let mut found = false;
            let mut i: usize = 0;
            while i < items.len()
                invariant
                    i <= items@.len(),
                    found == redacted_in_items(json::item_models(items@.take(i as int))),
                    decreases_to!(value => items),
                decreases items@.len() - i,
            {
                proof {
                    assert(items@.take(i + 1).drop_last() =~= items@.take(i as int));
                    json::lemma_item_models(items@.take(i + 1));
                    assert(json::item_models(items@.take(i + 1)).drop_last()
                        =~= json::item_models(items@.take(i as int)));
                    assert(decreases_to!(items => items@));
                    assert(decreases_to!(items@ => items@[i as int]));
                }
                let here = contains_redacted(&items[i]);
                found = found || here;
                i += 1;
            }
            proof {
                assert(items@.take(i as int) =~= items@);
            }
            found
        },
        Json::Object(fields) => {
            let mut found = false;
            let mut i: usize = 0;
            while i < fields.len()
                invariant
                    i <= fields@.len(),
                    found == redacted_in_fields(json::field_models(fields@.take(i as int))),
                    decreases_to!(value => fields),
                decreases fields@.len() - i,
            {
                proof {
                    assert(fields@.take(i + 1).drop_last() =~= fields@.take(i as int));
                    json::lemma_field_models(fields@.take(i + 1));
                    assert(json::field_models(fields@.take(i + 1)).drop_last()
                        =~= json::field_models(fields@.take(i as int)));
                    assert(decreases_to!(fields => fields@));
                    assert(decreases_to!(fields@ => fields@[i as int]));
                    assert(decreases_to!(fields@[i as int] => fields@[i as int].1));
                }
                let here = contains_redacted(&fields[i].1);
                found = found || here;
                i += 1;
            }
            proof {
                assert(fields@.take(i as int) =~= fields@);
            }
            found
        },
        _ => false,
    }
}

// ---------------------------------------------------------------------
// Taking hidden values back
// ---------------------------------------------------------------------

/// An incoming value with what is hidden in it taken from the existing
/// value. Objects are merged field by field; anything else is taken as it
/// comes.
pub open spec fn merged(existing: JsonModel, incoming: JsonModel) -> JsonModel
    decreases incoming,
{
    if incoming == marker() {
        existing
    } else {
        match (existing, incoming) {
            (JsonModel::Object(old_fields), JsonModel::Object(new_fields)) => JsonModel::Object(
                merged_fields(old_fields, new_fields),
            ),
            _ => incoming,
        }
    }
}

/// Fields with others merged into them.
pub open spec fn merged_fields(
    existing: Seq<(Seq<char>, JsonModel)>,
    incoming: Seq<(Seq<char>, JsonModel)>,
) -> Seq<(Seq<char>, JsonModel)>
    decreases incoming,
{
    if incoming.len() == 0 {
        existing
    } else {
        let so_far = merged_fields(existing, incoming.drop_last());
        let name = incoming.last().0;
        let value = incoming.last().1;
        if value == marker() {
            so_far
        } else {
            json::put(
                so_far,
                name,
                match json::lookup(so_far, name) {
                    Some(before) => merged(before, value),
                    None => value,
                },
            )
        }
    }
}

/// Merges an incoming value into the existing one.
pub fn merge_redacted(existing: &Json, incoming: &Json) -> (out: Json)
    ensures
        out.model() == merged(existing.model(), incoming.model()),
    decreases incoming,
{
    if is_marker(incoming) {
        return json::duplicate(existing);
    }
    match (existing, incoming) {
        (Json::Object(_), Json::Object(fields)) => {
            let mut out: Vec<(String, Json)> = match json::duplicate(existing) {
                Json::Object(copy) => copy,
                _ => Vec::new(),
            };
            let ghost old_fields = json::field_models(out@);
            let mut i: usize = 0;
            while i < fields.len()
                invariant
                    i <= fields@.len(),
                    json::field_models(out@) == merged_fields(
                        old_fields,
                        json::field_models(fields@.take(i as int)),
                    ),
                    decreases_to!(incoming => fields),
                decreases fields@.len() - i,
            {
                proof {
                    assert(fields@.take(i + 1).drop_last() =~= fields@.take(i as int));
                    json::lemma_field_models(fields@.take(i + 1));
                    assert(json::field_models(fields@.take(i + 1)).drop_last()
                        =~= json::field_models(fields@.take(i as int)));
                    assert(decreases_to!(fields => fields@));
                    assert(decreases_to!(fields@ => fields@[i as int]));
                    assert(decreases_to!(fields@[i as int] => fields@[i as int].1));
                }
                if !is_marker(&fields[i].1) {
                    let value = match json::get(&out, fields[i].0.as_str()) {
                        Some(before) => merge_redacted(before, &fields[i].1),
                        None => json::duplicate(&fields[i].1),
                    };
                    json::set(&mut out, fields[i].0.clone(), value);
                }
                i += 1;
            }
            proof {
                assert(fields@.take(i as int) =~= fields@);
            }
            Json::Object(out)
        },
        _ => json::duplicate(incoming),
    }
}

/// Whether the objects of a value have their fields in order, at every
/// depth outside arrays.
pub open spec fn in_order(v: JsonModel) -> bool
    decreases v,
{
    match v {
        JsonModel::Object(fields) => json::names_in_order(fields) && fields_in_order(fields),
        _ => true,
    }
}

/// Whether the values of fields have their fields in order.
pub open spec fn fields_in_order(fields: Seq<(Seq<char>, JsonModel)>) -> bool
    decreases fields,
{
    fields.len() == 0 || (fields_in_order(fields.drop_last()) && in_order(fields.last().1))
}

/// Whether hiding changes nothing inside the arrays of a value.
pub open spec fn arrays_kept(v: JsonModel, include_secrets: bool) -> bool
    decreases v,
{
    match v {
        JsonModel::Object(fields) => arrays_kept_in(fields, include_secrets),
        JsonModel::Array(items) => sanitized_items(items, include_secrets) == items,
        _ => true,
    }
}

/// Whether hiding changes nothing inside the arrays of fields.
pub open spec fn arrays_kept_in(fields: Seq<(Seq<char>, JsonModel)>, include_secrets: bool) -> bool
    decreases fields,
{
    fields.len() == 0 || (arrays_kept_in(fields.drop_last(), include_secrets) && arrays_kept(
        fields.last().1,
        include_secrets,
    ))
}

/// Importing an export over the settings it was made from changes nothing:
/// what was hidden is taken back. Hidden values inside arrays are left out,
/// because arrays are taken as they come.
pub proof fn law_merge_restores_hidden(v: JsonModel, include_secrets: bool)
    requires
        in_order(v),
        arrays_kept(v, include_secrets),
    ensures
        merged(v, sanitized(v, None, include_secrets)) == v,
    decreases v,
{
    match v {
        JsonModel::Object(fields) => {
            lemma_fields_restored(fields, fields.len() as int, include_secrets);
            assert(fields.take(fields.len() as int) =~= fields);
        },
        _ => {},
    }
}

proof fn lemma_fields_restored(
    fields: Seq<(Seq<char>, JsonModel)>,
    n: int,
    include_secrets: bool,
)
    requires
        0 <= n <= fields.len(),
        json::names_in_order(fields),
        fields_in_order(fields),
        arrays_kept_in(fields, include_secrets),
    ensures
        merged_fields(fields, sanitized_fields(fields.take(n), include_secrets)) == fields,
    decreases fields, n,
{
    if n > 0 {
        let front = fields.take(n);
        assert(front.drop_last() =~= fields.take(n - 1));
        lemma_fields_restored(fields, n - 1, include_secrets);
        let out = sanitized_fields(front, include_secrets);
        assert(out.drop_last() =~= sanitized_fields(front.drop_last(), include_secrets));
        let name = fields[n - 1].0;
        let value = fields[n - 1].1;
        assert(front.last() == fields[n - 1]);
        assert(out.last() == (name, sanitized(value, Some(name), include_secrets)));
        assert(hidden(Some(name), include_secrets) ==> out.last().1 == marker());
        assert(!hidden(Some(name), include_secrets) ==> out.last().1 == sanitized(
            value,
            None,
            include_secrets,
        ));
        json::lemma_lookup_at(fields, n - 1);
        lemma_field_properties(fields, n - 1, include_secrets);
        if out.last().1 != marker() {
            assert(!hidden(Some(name), include_secrets));
            assert(decreases_to!(fields => fields[n - 1]));
            assert(decreases_to!(fields[n - 1] => fields[n - 1].1));
            law_merge_restores_hidden(value, include_secrets);
            assert(out.last().1 == sanitized(value, None, include_secrets));
            lemma_put_same(fields, n - 1);
        }
    } else {
        assert(fields.take(0) =~= Seq::<(Seq<char>, JsonModel)>::empty());
    }
}

proof fn lemma_field_properties(
    fields: Seq<(Seq<char>, JsonModel)>,
    i: int,
    include_secrets: bool,
)
    requires
        0 <= i < fields.len(),
        fields_in_order(fields),
        arrays_kept_in(fields, include_secrets),
    ensures
        in_order(fields[i].1),
        arrays_kept(fields[i].1, include_secrets),
    decreases fields.len(),
{
    if i < fields.len() - 1 {
        assert(fields.drop_last()[i] == fields[i]);
        lemma_field_properties(fields.drop_last(), i, include_secrets);
    }
}

proof fn lemma_put_same(fields: Seq<(Seq<char>, JsonModel)>, i: int)
    requires
        json::names_in_order(fields),
        0 <= i < fields.len(),
    ensures
        json::put(fields, fields[i].0, fields[i].1) == fields,
    decreases fields.len(),
{
    let last = fields.last();
    order::lemma_before_total(last.0, fields[i].0);
    if i == fields.len() - 1 {
        assert(fields.drop_last().push((last.0, last.1)) =~= fields);
    } else {
        assert(order::before(fields[i].0, fields[fields.len() - 1].0));
        assert(fields.drop_last()[i] == fields[i]);
        lemma_put_same(fields.drop_last(), i);
        assert(fields.drop_last().push(last) =~= fields);
    }
}

/// A hidden value is the existing value; what is not hidden and no object
/// replaces the existing value.
pub proof fn law_merge_cases(existing: JsonModel, incoming: JsonModel)
    ensures
        merged(existing, marker()) == existing,
        incoming != marker() && !(incoming is Object) ==> merged(existing, incoming) == incoming,
        incoming is Object && !(existing is Object) ==> merged(existing, incoming) == incoming,
{
}

} // verus!

//! Exporting the configuration.

use vstd::prelude::*;
use crate::config;
use crate::config::json;
use crate::config::json::{Json, JsonModel};
use crate::config::redact;
use crate::config::sql;
use crate::config::sql::{SqlModel, SqlValue};
use crate::error;
use crate::error::{ErrorModel, StorageError};
use crate::order;
use crate::order::Ranking;
use crate::text;

verus! {

/// The fields of an object.
pub type FieldsModel = Seq<(Seq<char>, JsonModel)>;

/// The text of a JSON text after hiding. A text that is no JSON, and one
/// whose value cannot be written, stays as it is.
pub open spec fn hidden_text(raw: Seq<char>, include_secrets: bool) -> Seq<char> {
    match json::parsed(raw) {
        Ok(v) => match json::printed(redact::sanitized(v, None, include_secrets)) {
            Ok(t) => t,
            Err(_) => raw,
        },
        Err(_) => raw,
    }
}

/// Hides what must not leave the device in a JSON text.
pub fn hide_in_text(raw: &String, include_secrets: bool) -> (r: String)
    ensures
        r@ == hidden_text(raw@, include_secrets),
{
    match json::parse(raw.as_str()) {
        Ok(v) => {
            let clean = redact::sanitize_json(&v, &None, include_secrets);
            match json::print(&clean) {
                Ok(t) => t,
                Err(_) => raw.clone(),
            }
        },
        Err(_) => raw.clone(),
    }
}

/// Whether a column holds JSON text.
pub open spec fn json_column(table: Seq<char>, column: Seq<char>) -> bool {
    (table == "system_settings"@ && column == "setting_value"@) || text::finishes(column, "_json"@)
}

/// Whether a system setting names a directory of this device.
pub open spec fn directory_setting(table: Seq<char>, column: Seq<char>, code: Seq<char>) -> bool {
    table == "system_settings"@ && column == "setting_value"@ && text::finishes(code, "_dir"@)
}

/// What is exported of a value. Device-bound columns are left out, and so
/// are secret ones unless secrets are asked for; settings that name a
/// directory are hidden; JSON text is cleaned.
pub open spec fn exported_value(
    table: Seq<char>,
    column: Seq<char>,
    value: JsonModel,
    code: Seq<char>,
    include_secrets: bool,
) -> Option<JsonModel> {
    if config::device_column(column) || (config::sensitive_column(column) && !include_secrets) {
        None
    } else if directory_setting(table, column, code) {
        Some(redact::marker())
    } else {
        match value {
            JsonModel::Str(raw) if json_column(table, column) => Some(
                JsonModel::Str(hidden_text(raw, include_secrets)),
            ),
            _ => Some(value),
        }
    }
}

/// Decides what is exported of a value. `setting_code` is the code of the
/// setting in whose row the value stands.
pub fn value_for_export(
    table: &str,
    column: &str,
    value: &Json,
    setting_code: &str,
    include_secrets: bool,
) -> (r: Option<Json>)
    ensures
        r.deep_view() == exported_value(
            table@,
            column@,
            value.model(),
            setting_code@,
            include_secrets,
        ),
{
    if config::is_device_only_column(column) {
        return None;
    }
    if config::is_sensitive_column(column) && !include_secrets {
        return None;
    }
    let table_chars = text::chars_of(table);
    let column_chars = text::chars_of(column);
    let code = text::chars_of(setting_code);
    let setting_value = text::equals(table_chars.as_slice(), "system_settings") && text::equals(
        column_chars.as_slice(),
        "setting_value",
    );
    if setting_value && text::ends_with(code.as_slice(), "_dir") {
        return Some(Json::Str(redact::REDACTED_MARKER.to_string()));
    }
    if setting_value || text::ends_with(column_chars.as_slice(), "_json") {
        if let Json::Str(raw) = value {
            return Some(Json::Str(hide_in_text(raw, include_secrets)));
        }
    }
    Some(json::duplicate(value))
}

// ---------------------------------------------------------------------
// Rows
// ---------------------------------------------------------------------

/// A row of a table as an object, with the columns in order.
pub open spec fn row_object(row: Seq<(Seq<char>, SqlModel)>) -> FieldsModel
    decreases row.len(),
{
    if row.len() == 0 {
        Seq::empty()
    } else {
        json::put(row_object(row.drop_last()), row.last().0, sql::json_form(row.last().1))
    }
}

/// The exported fields of a row.
pub open spec fn exported_fields(
    table: Seq<char>,
    fields: FieldsModel,
    code: Seq<char>,
    include_secrets: bool,
) -> FieldsModel {
    fields.filter_map(
        |f: (Seq<char>, JsonModel)|
            match exported_value(table, f.0, f.1, code, include_secrets) {
                Some(v) => Some((f.0, v)),
                None => None,
            },
    )
}

/// What is exported of a row. A system setting of a section that is not
/// chosen is left out.
pub open spec fn exported_row(
    table: Seq<char>,
    sections: Seq<Seq<char>>,
    include_secrets: bool,
    row: Seq<(Seq<char>, SqlModel)>,
) -> Option<JsonModel> {
    let fields = row_object(row);
    let code = json::text_field(fields, "setting_code"@);
    if table == "system_settings"@ && !sections.contains(config::section_of(code)) {
        None
    } else {
        Some(JsonModel::Object(exported_fields(table, fields, code, include_secrets)))
    }
}

/// What is exported of the rows of a table.
pub open spec fn exported_rows(
    table: Seq<char>,
    sections: Seq<Seq<char>>,
    include_secrets: bool,
    rows: Seq<Seq<(Seq<char>, SqlModel)>>,
) -> Seq<JsonModel> {
    rows.filter_map(
        |row: Seq<(Seq<char>, SqlModel)>| exported_row(table, sections, include_secrets, row),
    )
}

/// Whether the blobs of a row can be written.
pub open spec fn row_encodable(row: Seq<(Seq<char>, SqlModel)>) -> bool {
    forall|i: int| 0 <= i < row.len() ==> sql::encodable((#[trigger] row[i]).1)
}

/// Turns a row into an object.
pub fn object_of_row(row: &Vec<(String, SqlValue)>) -> (fields: Vec<(String, Json)>)
    requires
        row_encodable(row.deep_view()),
    ensures
        json::field_models(fields@) == row_object(row.deep_view()),
{
    let mut fields: Vec<(String, Json)> = Vec::new();
    let ghost all = row.deep_view();
    let mut i: usize = 0;
    while i < row.len()
        invariant
            i <= row@.len(),
            all == row.deep_view(),
            row_encodable(all),
            json::field_models(fields@) == row_object(all.take(i as int)),
        decreases row@.len() - i,
    {
        proof {
            assert(all.take(i + 1).drop_last() =~= all.take(i as int));
            assert(all.take(i + 1).last() == all[i as int]);
            assert(all[i as int] == (row@[i as int].0@, row@[i as int].1.deep_view()));
            assert(sql::encodable(all[i as int].1));
        }
        let value = sql::sql_value_to_json(&row[i].1);
        json::set(&mut fields, row[i].0.clone(), value);
        i += 1;
    }
    proof {
        assert(all.take(i as int) =~= all);
    }
    fields
}

/// Exports the fields of a row.
fn export_fields(
    table: &str,
    fields: &Vec<(String, Json)>,
    code: &str,
    include_secrets: bool,
) -> (out: Vec<(String, Json)>)
    ensures
        json::field_models(out@) == exported_fields(
            table@,
            json::field_models(fields@),
            code@,
            include_secrets,
        ),
{
    let ghost all = json::field_models(fields@);
    let ghost f = |f: (Seq<char>, JsonModel)|
        match exported_value(table@, f.0, f.1, code@, include_secrets) {
            Some(v) => Some((f.0, v)),
            None => None,
        };
    let mut out: Vec<(String, Json)> = Vec::new();
    proof {
        json::lemma_field_models(fields@);
        assert(json::field_models(out@) =~= all.take(0).filter_map(f));
    }
    let mut i: usize = 0;
    while i < fields.len()
        invariant
            i <= fields@.len(),
            all == json::field_models(fields@),
            all.len() == fields@.len(),
            forall|j: int|
                0 <= j < fields@.len() ==> #[trigger] all[j] == (
                    fields@[j].0@,
                    fields@[j].1.model(),
                ),
            f == (|f: (Seq<char>, JsonModel)|
                match exported_value(table@, f.0, f.1, code@, include_secrets) {
                    Some(v) => Some((f.0, v)),
                    None => None,
                }),
            json::field_models(out@) == all.take(i as int).filter_map(f),
        decreases fields@.len() - i,
    {
        let ghost before = out@;
        proof {
            all.lemma_filter_map_take_succ(f, i as int);
        }
        match value_for_export(table, fields[i].0.as_str(), &fields[i].1, code, include_secrets) {
            Some(v) => {
                out.push((fields[i].0.clone(), v));
                proof {
                    assert(out@.drop_last() =~= before);
                    assert(json::field_models(out@) =~= json::field_models(before) + seq![
                        (fields@[i as int].0@, v.model()),
                    ]);
                }
            },
            None => {
                assert(json::field_models(before) + Seq::empty() =~= json::field_models(before));
            },
        }
        i += 1;
    }
    proof {
        assert(all.take(i as int) =~= all);
    }
    out
}

/// Exports a row.
pub fn export_row(
    table: &str,
    sections: &Vec<String>,
    include_secrets: bool,
    row: &Vec<(String, SqlValue)>,
) -> (r: Option<Json>)
    requires
        row_encodable(row.deep_view()),
    ensures
        r.deep_view() == exported_row(
            table@,
            sections.deep_view(),
            include_secrets,
            row.deep_view(),
        ),
{
    let fields = object_of_row(row);
    let code = json::get_text(&fields, "setting_code");
    if text::equals(text::chars_of(table).as_slice(), "system_settings") && !config::has_name(
        sections,
        config::setting_section(code.as_str()),
    ) {
        return None;
    }
    Some(Json::Object(export_fields(table, &fields, code.as_str(), include_secrets)))
}

/// What is exported of a table. More rows than a package may hold are an
/// error.
pub open spec fn exported_table(
    table: Seq<char>,
    sections: Seq<Seq<char>>,
    include_secrets: bool,
    rows: Seq<Seq<(Seq<char>, SqlModel)>>,
) -> Result<Seq<JsonModel>, ErrorModel> {
    let out = exported_rows(table, sections, include_secrets, rows);
    if out.len() > config::MAX_CONFIG_ROWS {
        Err(error::failure("Configuration export exceeds the row limit"@))
    } else {
        Ok(out)
    }
}

/// Exports the rows of a table. More rows than a package may hold are an
/// error.
pub fn read_table_rows(
    table: &str,
    sections: &Vec<String>,
    include_secrets: bool,
    rows: &Vec<Vec<(String, SqlValue)>>,
) -> (r: Result<Vec<Json>, StorageError>)
    requires
        forall|i: int|
            0 <= i < rows@.len() ==> row_encodable(#[trigger] rows.deep_view()[i]),
    ensures
        error::result_view(r) == exported_table(
            table@,
            sections.deep_view(),
            include_secrets,
            rows.deep_view(),
        ),
{
    let ghost all = rows.deep_view();
    let ghost f = |row: Seq<(Seq<char>, SqlModel)>|
        exported_row(table@, sections.deep_view(), include_secrets, row);
    let mut out: Vec<Json> = Vec::new();
    proof {
        assert(out.deep_view() =~= all.take(0).filter_map(f));
    }
    let mut i: usize = 0;
    while i < rows.len()
        invariant
            i <= rows@.len(),
            all == rows.deep_view(),
            forall|j: int| 0 <= j < rows@.len() ==> row_encodable(#[trigger] all[j]),
            f == (|row: Seq<(Seq<char>, SqlModel)>|
                exported_row(table@, sections.deep_view(), include_secrets, row)),
            out.deep_view() == all.take(i as int).filter_map(f),
            out@.len() <= config::MAX_CONFIG_ROWS,
        decreases rows@.len() - i,
    {
        let ghost before = out.deep_view();
        proof {
            all.lemma_filter_map_take_succ(f, i as int);
            assert(all[i as int] == rows@[i as int].deep_view());
        }
        match export_row(table, sections, include_secrets, &rows[i]) {
            Some(v) => {
                out.push(v);
                proof {
                    assert(out.deep_view() =~= before + seq![v.deep_view()]);
                }
                if out.len() > config::MAX_CONFIG_ROWS {
                    proof {
                        lemma_filter_map_grows(all, f, i + 1);
                    }
                    return Err(
                        StorageError::from_reason("Configuration export exceeds the row limit"),
                    );
                }
            },
            None => {
                assert(before + Seq::empty() =~= before);
            },
        }
        i += 1;
    }
    proof {
        assert(all.take(i as int) =~= all);
    }
    Ok(out)
}

proof fn lemma_filter_map_grows<A, B>(s: Seq<A>, f: spec_fn(A) -> Option<B>, i: int)
    requires
        0 <= i <= s.len(),
    ensures
        s.take(i).filter_map(f).len() <= s.filter_map(f).len(),
    decreases s.len() - i,
{
    if i < s.len() {
        s.lemma_filter_map_take_succ(f, i);
        lemma_filter_map_grows(s, f, i + 1);
    } else {
        assert(s.take(i) =~= s);
    }
}

// ---------------------------------------------------------------------
// The package
// ---------------------------------------------------------------------

/// A configuration package. Its tables are ordered by name.
pub struct ConfigBundle {
    pub format_version: i64,
    pub schema_version: i64,
    pub sections: Vec<String>,
    pub contains_secrets: bool,
    pub tables: Vec<(String, Vec<Json>)>,
}

/// The mathematical form of a package.
pub struct ConfigBundleModel {
    pub format_version: i64,
    pub schema_version: i64,
    pub sections: Seq<Seq<char>>,
    pub contains_secrets: bool,
    pub tables: Seq<(Seq<char>, Seq<JsonModel>)>,
}

impl DeepView for ConfigBundle {
    type V = ConfigBundleModel;

    open spec fn deep_view(&self) -> ConfigBundleModel {
        ConfigBundleModel {
            format_version: self.format_version,
            schema_version: self.schema_version,
            sections: self.sections.deep_view(),
            contains_secrets: self.contains_secrets,
            tables: self.tables.deep_view(),
        }
    }
}

/// Tables in the order of their names.
pub open spec fn by_name() -> spec_fn(
    (Seq<char>, Seq<JsonModel>),
    (Seq<char>, Seq<JsonModel>),
) -> bool {
    |a: (Seq<char>, Seq<JsonModel>), b: (Seq<char>, Seq<JsonModel>)| order::not_after(a.0, b.0)
}

/// Orders tables by name.
pub struct ByName;

impl Ranking<(String, Vec<Json>)> for ByName {
    open spec fn order() -> spec_fn((String, Vec<Json>), (String, Vec<Json>)) -> bool {
        |a: (String, Vec<Json>), b: (String, Vec<Json>)| order::not_after(a.0@, b.0@)
    }

    proof fn laws() {
        let le = Self::order();
        assert forall|a: (String, Vec<Json>), b: (String, Vec<Json>)| #[trigger]
            le(a, b) || le(b, a) by {
            order::lemma_before_total(a.0@, b.0@);
        }
        assert forall|a: (String, Vec<Json>), b: (String, Vec<Json>), c: (String, Vec<Json>)|
            #[trigger] le(a, b) && #[trigger] le(b, c) implies le(a, c) by {
            order::lemma_not_after_transitive(a.0@, b.0@, c.0@);
        }
    }

    fn in_order(a: &(String, Vec<Json>), b: &(String, Vec<Json>)) -> (r: bool) {
        let left = text::chars_of(a.0.as_str());
        let right = text::chars_of(b.0.as_str());
        !order::comes_before(right.as_slice(), left.as_slice())
    }
}

/// What is exported of the first tables of the sections, each under its
/// name. A table without rows is part of it, so that an import can tell an
/// empty table from one that was not exported. `stored` holds the rows of
/// each table.
pub open spec fn exported_tables(
    sections: Seq<Seq<char>>,
    include_secrets: bool,
    stored: Seq<Seq<Seq<(Seq<char>, SqlModel)>>>,
    n: int,
) -> Result<Seq<(Seq<char>, Seq<JsonModel>)>, ErrorModel>
    decreases n,
{
    if n <= 0 {
        Ok(Seq::empty())
    } else {
        match exported_tables(sections, include_secrets, stored, n - 1) {
            Err(e) => Err(e),
            Ok(front) => {
                let table = config::tables_of(sections)[n - 1];
                match exported_table(table, sections, include_secrets, stored[n - 1]) {
                    Err(e) => Err(e),
                    Ok(rows) => Ok(front.push((table, rows))),
                }
            },
        }
    }
}

/// The package of the given sections: exactly the tables that take part,
/// ordered by name.
pub open spec fn bundle_of(
    schema_version: i64,
    sections: Seq<Seq<char>>,
    include_secrets: bool,
    stored: Seq<Seq<Seq<(Seq<char>, SqlModel)>>>,
) -> Result<ConfigBundleModel, ErrorModel> {
    match exported_tables(
        sections,
        include_secrets,
        stored,
        config::tables_of(sections).len() as int,
    ) {
        Err(e) => Err(e),
        Ok(tables) => Ok(
            ConfigBundleModel {
                format_version: config::CONFIG_FORMAT_VERSION,
                schema_version,
                sections,
                contains_secrets: include_secrets,
                tables: order::sorted(tables, by_name()),
            },
        ),
    }
}

/// Whether the blobs of all rows can be written.
pub open spec fn all_encodable(stored: Seq<Seq<Seq<(Seq<char>, SqlModel)>>>) -> bool {
    forall|t: int, i: int|
        0 <= t < stored.len() && 0 <= i < stored[t].len() ==> row_encodable(
            #[trigger] stored[t][i],
        )
}

proof fn lemma_export_fails(
    sections: Seq<Seq<char>>,
    include_secrets: bool,
    stored: Seq<Seq<Seq<(Seq<char>, SqlModel)>>>,
    i: int,
    n: int,
)
    requires
        0 <= i <= n,
        exported_tables(sections, include_secrets, stored, i) is Err,
    ensures
        exported_tables(sections, include_secrets, stored, n) == exported_tables(
            sections,
            include_secrets,
            stored,
            i,
        ),
    decreases n - i,
{
    if i < n {
        lemma_export_fails(sections, include_secrets, stored, i, n - 1);
    }
}

/// Tables can be ordered by name.
proof fn lemma_by_name()
    ensures
        order::is_order(by_name()),
{
    let le = by_name();
    assert forall|a: (Seq<char>, Seq<JsonModel>), b: (Seq<char>, Seq<JsonModel>)| #[trigger]
        le(a, b) || le(b, a) by {
        order::lemma_before_total(a.0, b.0);
    }
    assert forall|
        a: (Seq<char>, Seq<JsonModel>),
        b: (Seq<char>, Seq<JsonModel>),
        c: (Seq<char>, Seq<JsonModel>),
    | #[trigger] le(a, b) && #[trigger] le(b, c) implies le(a, c) by {
        order::lemma_not_after_transitive(a.0, b.0, c.0);
    }
}

/// Puts the package of the given sections together from the rows of the
/// tables that take part, in the order in which `table_names` gives them.
pub fn make_bundle(
    schema_version: i64,
    sections: Vec<String>,
    include_secrets: bool,
    stored: &Vec<Vec<Vec<(String, SqlValue)>>>,
) -> (r: Result<ConfigBundle, StorageError>)
    requires
        stored@.len() == config::tables_of(sections.deep_view()).len(),
        all_encodable(stored.deep_view()),
    ensures
        error::result_view(r) == bundle_of(
            schema_version,
            sections.deep_view(),
            include_secrets,
            stored.deep_view(),
        ),
{
    let names = config::table_names(&sections);
    let ghost chosen = sections.deep_view();
    let ghost all = stored.deep_view();
    let mut tables: Vec<(String, Vec<Json>)> = Vec::new();
    let total: usize = names.len();
    let mut i: usize = 0;
    proof {
        assert(names.deep_view().len() == names@.len());
        assert(tables.deep_view() =~= Seq::empty());
    }
    while i < total
        invariant
            i <= total == names@.len() == stored@.len(),
            chosen == sections.deep_view(),
            all == stored.deep_view(),
            all_encodable(all),
            names.deep_view() == config::tables_of(chosen),
            exported_tables(chosen, include_secrets, all, i as int) == Ok::<
                Seq<(Seq<char>, Seq<JsonModel>)>,
                ErrorModel,
            >(tables.deep_view()),
        decreases total - i,
    {
        proof {
            assert(names.deep_view()[i as int] == names@[i as int]@);
            assert(all[i as int] == stored@[i as int].deep_view());
            assert forall|k: int| 0 <= k < stored@[i as int]@.len() implies row_encodable(
                #[trigger] stored@[i as int].deep_view()[k],
            ) by {
                assert(row_encodable(all[i as int][k]));
            }
        }
        match read_table_rows(names[i].as_str(), &sections, include_secrets, &stored[i]) {
            Err(e) => {
                proof {
                    lemma_export_fails(chosen, include_secrets, all, i + 1, total as int);
                }
                return Err(e);
            },
            Ok(rows) => {
                let ghost before = tables.deep_view();
                let table = (names[i].clone(), rows);
                tables.push(table);
                proof {
                    assert(tables.deep_view() =~= before.push(table.deep_view()));
                }
            },
        }
        i += 1;
    }
    let ghost f = |t: (String, Vec<Json>)| t.deep_view();
    proof {
        assert(tables.deep_view() =~= tables@.map_values(f));
        order::lemma_sorted_map(tables@, ByName::order(), f, by_name());
    }
    let in_order = order::sort::<(String, Vec<Json>), ByName>(tables);
    proof {
        assert(in_order.deep_view() =~= in_order@.map_values(f));
    }
    Ok(
        ConfigBundle {
            format_version: config::CONFIG_FORMAT_VERSION,
            schema_version,
            sections,
            contains_secrets: include_secrets,
            tables: in_order,
        },
    )
}

/// A list of names as a value.
pub open spec fn names_value(names: Seq<Seq<char>>) -> JsonModel {
    JsonModel::Array(names.map_values(|name: Seq<char>| JsonModel::Str(name)))
}

/// Tables as a value.
pub open spec fn tables_value(tables: Seq<(Seq<char>, Seq<JsonModel>)>) -> JsonModel {
    JsonModel::Object(
        tables.map_values(
            |t: (Seq<char>, Seq<JsonModel>)| (t.0, JsonModel::Array(t.1)),
        ),
    )
}

/// The text of a package: a JSON object with its fields in order, or the
/// message of the error with which a value cannot be written.
pub open spec fn bundle_text(b: ConfigBundleModel) -> Result<Seq<char>, Seq<char>> {
    match (json::printed(names_value(b.sections)), json::printed(tables_value(b.tables))) {
        (Ok(sections), Ok(tables)) => Ok(
            "{\"formatVersion\":"@ + text::signed_decimal(b.format_version as int)
                + ",\"schemaVersion\":"@ + text::signed_decimal(b.schema_version as int)
                + ",\"sections\":"@ + sections + ",\"containsSecrets\":"@ + (
            if b.contains_secrets {
                "true"@
            } else {
                "false"@
            }) + ",\"tables\":"@ + tables + "}"@,
        ),
        (Err(e), _) => Err(e),
        (_, Err(e)) => Err(e),
    }
}

/// Makes a value of a list of names.
fn value_of_names(names: &Vec<String>) -> (v: Json)
    ensures
        v.model() == names_value(names.deep_view()),
{
    let ghost f = |name: Seq<char>| JsonModel::Str(name);
    let ghost all = names.deep_view();
    let mut items: Vec<Json> = Vec::new();
    let mut i: usize = 0;
    while i < names.len()
        invariant
            i <= names@.len(),
            all == names.deep_view(),
            f == (|name: Seq<char>| JsonModel::Str(name)),
            items@.len() == i,
            forall|j: int| 0 <= j < i ==> (#[trigger] items@[j]).model() == f(all[j]),
        decreases names@.len() - i,
    {
        let item = Json::Str(names[i].clone());
        proof {
            assert(all[i as int] == names@[i as int]@);
            assert(item.model() == f(all[i as int]));
        }
        items.push(item);
        i += 1;
    }
    proof {
        json::lemma_item_models(items@);
        assert(json::item_models(items@) =~= all.map_values(f));
    }
    Json::Array(items)
}

/// Makes a value of tables.
fn value_of_tables(tables: Vec<(String, Vec<Json>)>) -> (v: Json)
    ensures
        v.model() == tables_value(tables.deep_view()),
{
    let ghost f = |t: (Seq<char>, Seq<JsonModel>)| (t.0, JsonModel::Array(t.1));
    let ghost all = tables.deep_view();
    let mut rest = tables;
    let mut fields: Vec<(String, Json)> = Vec::new();
    let total: usize = rest.len();
    let mut i: usize = 0;
    while i < total
        invariant
            i <= total == all.len(),
            rest@.len() == total - i,
            forall|j: int| 0 <= j < rest@.len() ==> (#[trigger] rest@[j]).deep_view() == all[i + j],
            f == (|t: (Seq<char>, Seq<JsonModel>)| (t.0, JsonModel::Array(t.1))),
            fields@.len() == i,
            forall|j: int|
                0 <= j < i ==> ((#[trigger] fields@[j]).0@, fields@[j].1.model()) == f(all[j]),
        decreases total - i,
    {
        let ghost before = rest@;
        let table = rest.remove(0);
        proof {
            assert(before[0].deep_view() == all[i + 0]);
            assert forall|j: int| 0 <= j < rest@.len() implies (#[trigger] rest@[j]).deep_view()
                == all[i + 1 + j] by {
                assert(before[j + 1].deep_view() == all[i + (j + 1)]);
            }
        }
        let (name, rows) = table;
        let ghost shown = rows.deep_view();
        let value = Json::Array(rows);
        proof {
            json::lemma_item_models(rows@);
            assert(json::item_models(rows@) =~= shown);
            assert((name@, value.model()) == f(all[i as int]));
        }
        fields.push((name, value));
        i += 1;
    }
    proof {
        json::lemma_field_models(fields@);
        assert(json::field_models(fields@) =~= all.map_values(f));
    }
    Json::Object(fields)
}

/// Writes a package as JSON text.
pub fn write_bundle(bundle: ConfigBundle) -> (r: Result<String, String>)
    ensures
        error::result_view(r) == bundle_text(bundle.deep_view()),
{
    let ConfigBundle { format_version, schema_version, sections, contains_secrets, tables } = bundle;
    let sections_text = json::print(&value_of_names(&sections));
    let tables_text = json::print(&value_of_tables(tables));
    match (sections_text, tables_text) {
        (Ok(sections), Ok(tables)) => {
            let mut out = text::chars_of("{\"formatVersion\":");
            text::append(&mut out, text::write_i64(format_version).as_slice());
            text::append_str(&mut out, ",\"schemaVersion\":");
            text::append(&mut out, text::write_i64(schema_version).as_slice());
            text::append_str(&mut out, ",\"sections\":");
            text::append_str(&mut out, sections.as_str());
            text::append_str(&mut out, ",\"containsSecrets\":");
            let flag = if contains_secrets {
                "true"
            } else {
                "false"
            };
            text::append_str(&mut out, flag);
            text::append_str(&mut out, ",\"tables\":");
            text::append_str(&mut out, tables.as_str());
            text::append_str(&mut out, "}");
            Ok(text::string_of(out.as_slice()))
        },
        (Err(e), _) => Err(e),
        (_, Err(e)) => Err(e),
    }
}

/// What an export gives: the text of the package. One that is too large is
/// an error.
pub open spec fn exported(
    schema_version: i64,
    sections: Seq<Seq<char>>,
    include_secrets: bool,
    stored: Seq<Seq<Seq<(Seq<char>, SqlModel)>>>,
) -> Result<Seq<char>, ErrorModel> {
    match bundle_of(schema_version, sections, include_secrets, stored) {
        Err(e) => Err(e),
        Ok(bundle) => match bundle_text(bundle) {
            Err(why) => Err(error::failure("Failed to serialize configuration export: "@ + why)),
            Ok(encoded) => if text::byte_len(encoded) > config::MAX_CONFIG_BYTES {
                Err(error::failure("Configuration export exceeds the size limit"@))
            } else {
                Ok(encoded)
            },
        },
    }
}

/// Exports the given sections, given the rows of the tables that take part,
/// in the order in which `table_names` gives them.
pub fn export_config_data(
    schema_version: i64,
    sections: Vec<String>,
    include_secrets: bool,
    stored: &Vec<Vec<Vec<(String, SqlValue)>>>,
) -> (r: Result<String, StorageError>)
    requires
        stored@.len() == config::tables_of(sections.deep_view()).len(),
        all_encodable(stored.deep_view()),
    ensures
        error::result_view(r) == exported(
            schema_version,
            sections.deep_view(),
            include_secrets,
            stored.deep_view(),
        ),
{
    match make_bundle(schema_version, sections, include_secrets, stored) {
        Err(e) => Err(e),
        Ok(bundle) => match write_bundle(bundle) {
            Err(why) => {
                let mut reason = "Failed to serialize configuration export: ".to_string();
                reason.append(why.as_str());
                Err(StorageError::from_reason(reason.as_str()))
            },
            Ok(encoded) => {
                let chars = text::chars_of(encoded.as_str());
                if text::takes_bytes(chars.as_slice(), config::MAX_CONFIG_BYTES + 1) {
                    return Err(
                        StorageError::from_reason("Configuration export exceeds the size limit"),
                    );
                }
                Ok(encoded)
            },
        },
    }
}

/// The names of exported tables are those that take part.
proof fn lemma_exported_names(
    sections: Seq<Seq<char>>,
    include_secrets: bool,
    stored: Seq<Seq<Seq<(Seq<char>, SqlModel)>>>,
    n: int,
)
    requires
        0 <= n <= config::tables_of(sections).len(),
    ensures
        exported_tables(sections, include_secrets, stored, n) matches Ok(tables) ==> tables.len()
            == n && forall|i: int|
            0 <= i < n ==> (#[trigger] tables[i]).0 == config::tables_of(sections)[i] && tables[i].1
                == exported_rows(
                config::tables_of(sections)[i],
                sections,
                include_secrets,
                stored[i],
            ),
    decreases n,
{
    if n > 0 {
        lemma_exported_names(sections, include_secrets, stored, n - 1);
    }
}

/// A package holds exactly the tables that take part when its sections are
/// chosen, the empty ones too, each with the exported rows of the table.
pub proof fn law_package_holds_the_tables(
    schema_version: i64,
    sections: Seq<Seq<char>>,
    include_secrets: bool,
    stored: Seq<Seq<Seq<(Seq<char>, SqlModel)>>>,
    table: Seq<char>,
    rows: Seq<JsonModel>,
)
    requires
        bundle_of(schema_version, sections, include_secrets, stored) is Ok,
    ensures
        ({
            let bundle = bundle_of(schema_version, sections, include_secrets, stored)->Ok_0;
            &&& bundle.tables.contains((table, rows)) <==> exists|i: int|
                0 <= i < config::tables_of(sections).len() && #[trigger] config::tables_of(
                    sections,
                )[i] == table && rows == exported_rows(table, sections, include_secrets, stored[i])
            &&& (exists|r: Seq<JsonModel>| #[trigger] bundle.tables.contains((table, r)))
                <==> config::config_tables().contains(table) && config::allowed(table, sections)
        }),
{
    let names = config::tables_of(sections);
    let n = names.len() as int;
    lemma_exported_names(sections, include_secrets, stored, n);
    let tables = exported_tables(sections, include_secrets, stored, n)->Ok_0;
    let bundle = bundle_of(schema_version, sections, include_secrets, stored)->Ok_0;
    lemma_by_name();
    order::lemma_sorted(tables, by_name());
    assert forall|t: (Seq<char>, Seq<JsonModel>)|
        #[trigger] bundle.tables.contains(t) == tables.contains(t) by {
        broadcast use vstd::seq_lib::group_to_multiset_ensures;

        assert(bundle.tables.contains(t) == (bundle.tables.to_multiset().count(t) > 0));
        assert(tables.contains(t) == (tables.to_multiset().count(t) > 0));
    }
    if bundle.tables.contains((table, rows)) {
        let i = choose|i: int| 0 <= i < tables.len() && tables[i] == (table, rows);
        assert(names[i] == table);
    }
    if exists|i: int|
        0 <= i < names.len() && #[trigger] names[i] == table && rows == exported_rows(
            table,
            sections,
            include_secrets,
            stored[i],
        ) {
        let i = choose|i: int|
            0 <= i < names.len() && #[trigger] names[i] == table && rows == exported_rows(
                table,
                sections,
                include_secrets,
                stored[i],
            );
        assert(tables[i] == (table, rows));
    }
    assert(names.contains(table) <==> config::config_tables().contains(table) && config::allowed(
        table,
        sections,
    )) by {
        let p = |t: Seq<char>| config::allowed(t, sections);
        let all = config::config_tables();
        if names.contains(table) {
            let i = choose|i: int| 0 <= i < names.len() && names[i] == table;
            all.lemma_filter_pred(p, i);
        }
        if all.contains(table) && config::allowed(table, sections) {
            let i = choose|i: int| 0 <= i < all.len() && all[i] == table;
            all.lemma_filter_contains(p, i);
        }
    }
    if exists|r: Seq<JsonModel>| #[trigger] bundle.tables.contains((table, r)) {
        let r = choose|r: Seq<JsonModel>| #[trigger] bundle.tables.contains((table, r));
        let i = choose|i: int| 0 <= i < tables.len() && tables[i] == (table, r);
        assert(names[i] == table);
        assert(names.contains(table));
    }
    if names.contains(table) {
        let i = choose|i: int| 0 <= i < names.len() && names[i] == table;
        assert(tables[i].0 == table);
        assert(tables.contains((table, tables[i].1)));
        assert(bundle.tables.contains((table, tables[i].1)));
    }
}

/// An exported row shows no device-bound column, and no secret column
/// unless secrets were asked for.
pub proof fn law_export_leaves_out_columns(
    table: Seq<char>,
    fields: FieldsModel,
    code: Seq<char>,
    include_secrets: bool,
    i: int,
)
    requires
        0 <= i < exported_fields(table, fields, code, include_secrets).len(),
    ensures
        ({
            let f = exported_fields(table, fields, code, include_secrets)[i];
            !config::device_column(f.0) && (config::sensitive_column(f.0) ==> include_secrets)
        }),
{
    let g = |f: (Seq<char>, JsonModel)|
        match exported_value(table, f.0, f.1, code, include_secrets) {
            Some(v) => Some((f.0, v)),
            None => None,
        };
    let out = exported_fields(table, fields, code, include_secrets);
    assert(out =~= fields.filter_map(g));
    assert(fields.filter_map(g).contains(out[i]));
    fields.lemma_filter_map_contains(g, out[i]);
}

/// Whether a column is never part of an export.
pub open spec fn left_out(column: Seq<char>, include_secrets: bool) -> bool {
    config::device_column(column) || (config::sensitive_column(column) && !include_secrets)
}

/// Whether two rows differ at most in columns that are left out.
pub open spec fn alike_rows(
    a: Seq<(Seq<char>, SqlModel)>,
    b: Seq<(Seq<char>, SqlModel)>,
    include_secrets: bool,
) -> bool {
    a.len() == b.len() && forall|i: int|
        0 <= i < a.len() ==> (#[trigger] a[i]).0 == (#[trigger] b[i]).0 && (left_out(
            a[i].0,
            include_secrets,
        ) || a[i].1 == b[i].1)
}

/// Whether two sets of tables differ at most in columns that are left out.
pub open spec fn alike_tables(
    a: Seq<Seq<Seq<(Seq<char>, SqlModel)>>>,
    b: Seq<Seq<Seq<(Seq<char>, SqlModel)>>>,
    include_secrets: bool,
) -> bool {
    a.len() == b.len() && forall|t: int|
        0 <= t < a.len() ==> (#[trigger] a[t]).len() == (#[trigger] b[t]).len() && forall|i: int|
            0 <= i < a[t].len() ==> alike_rows(
                #[trigger] a[t][i],
                #[trigger] b[t][i],
                include_secrets,
            )
}

spec fn alike_fields(a: FieldsModel, b: FieldsModel, include_secrets: bool) -> bool {
    a.len() == b.len() && forall|i: int|
        0 <= i < a.len() ==> (#[trigger] a[i]).0 == (#[trigger] b[i]).0 && (left_out(
            a[i].0,
            include_secrets,
        ) || a[i].1 == b[i].1)
}

proof fn lemma_alike_put(
    a: FieldsModel,
    b: FieldsModel,
    name: Seq<char>,
    x: JsonModel,
    y: JsonModel,
    include_secrets: bool,
)
    requires
        alike_fields(a, b, include_secrets),
        left_out(name, include_secrets) || x == y,
    ensures
        alike_fields(json::put(a, name, x), json::put(b, name, y), include_secrets),
    decreases a.len(),
{
    if a.len() > 0 {
        let n = a.len() - 1;
        assert(a[n].0 == b[n].0);
        let front = a.drop_last();
        let other = b.drop_last();
        assert forall|i: int| 0 <= i < front.len() implies (#[trigger] front[i]).0 == (
        #[trigger] other[i]).0 && (left_out(front[i].0, include_secrets) || front[i].1
            == other[i].1) by {
            assert(a[i].0 == b[i].0);
        }
        lemma_alike_put(front, other, name, x, y, include_secrets);
    }
}

proof fn lemma_alike_objects(
    a: Seq<(Seq<char>, SqlModel)>,
    b: Seq<(Seq<char>, SqlModel)>,
    include_secrets: bool,
)
    requires
        alike_rows(a, b, include_secrets),
    ensures
        alike_fields(row_object(a), row_object(b), include_secrets),
    decreases a.len(),
{
    if a.len() > 0 {
        let n = a.len() - 1;
        assert(a[n].0 == b[n].0);
        assert forall|i: int| 0 <= i < n implies (#[trigger] a.drop_last()[i]).0 == (
        #[trigger] b.drop_last()[i]).0 && (left_out(a.drop_last()[i].0, include_secrets)
            || a.drop_last()[i].1 == b.drop_last()[i].1) by {
            assert(a[i].0 == b[i].0);
        }
        lemma_alike_objects(a.drop_last(), b.drop_last(), include_secrets);
        lemma_alike_put(
            row_object(a.drop_last()),
            row_object(b.drop_last()),
            a.last().0,
            sql::json_form(a.last().1),
            sql::json_form(b.last().1),
            include_secrets,
        );
    }
}

proof fn lemma_alike_lookup(a: FieldsModel, b: FieldsModel, name: Seq<char>, include_secrets: bool)
    requires
        alike_fields(a, b, include_secrets),
        !left_out(name, include_secrets),
    ensures
        json::lookup(a, name) == json::lookup(b, name),
    decreases a.len(),
{
    if a.len() > 0 {
        let n = a.len() - 1;
        assert(a[n].0 == b[n].0);
        assert forall|i: int| 0 <= i < n implies (#[trigger] a.drop_last()[i]).0 == (
        #[trigger] b.drop_last()[i]).0 && (left_out(a.drop_last()[i].0, include_secrets)
            || a.drop_last()[i].1 == b.drop_last()[i].1) by {
            assert(a[i].0 == b[i].0);
        }
        lemma_alike_lookup(a.drop_last(), b.drop_last(), name, include_secrets);
    }
}

/// Two lists give the same where each pair of values does.
proof fn lemma_same_results<A, B>(a: Seq<A>, b: Seq<A>, f: spec_fn(A) -> Option<B>)
    requires
        a.len() == b.len(),
        forall|i: int| 0 <= i < a.len() ==> f(#[trigger] a[i]) == f(#[trigger] b[i]),
    ensures
        a.filter_map(f) == b.filter_map(f),
    decreases a.len(),
{
    reveal(Seq::filter_map);
    if a.len() > 0 {
        let n = a.len() - 1;
        assert(f(a[n]) == f(b[n]));
        assert forall|i: int| 0 <= i < n implies f(#[trigger] a.drop_last()[i]) == f(
            #[trigger] b.drop_last()[i],
        ) by {
            assert(f(a[i]) == f(b[i]));
        }
        lemma_same_results(a.drop_last(), b.drop_last(), f);
    }
}

proof fn lemma_alike_row(
    table: Seq<char>,
    sections: Seq<Seq<char>>,
    include_secrets: bool,
    a: Seq<(Seq<char>, SqlModel)>,
    b: Seq<(Seq<char>, SqlModel)>,
)
    requires
        alike_rows(a, b, include_secrets),
    ensures
        exported_row(table, sections, include_secrets, a) == exported_row(
            table,
            sections,
            include_secrets,
            b,
        ),
{
    let x = row_object(a);
    let y = row_object(b);
    lemma_alike_objects(a, b, include_secrets);
    assert(!left_out("setting_code"@, include_secrets)) by {
        reveal_strlit("setting_code");
        reveal_strlit("api_key");
        reveal_strlit("vision_api_key");
        reveal_strlit("env_json");
        reveal_strlit("headers_json");
        reveal_strlit("source_path");
        reveal_strlit("manifest_path");
        reveal_strlit("cache_path");
        reveal_strlit("target_path");
        reveal_strlit("origin_path");
        reveal_strlit("path");
        assert("headers_json"@[0] != "setting_code"@[0]);
        assert("setting_code"@.len() == 12);
    }
    lemma_alike_lookup(x, y, "setting_code"@, include_secrets);
    let code = json::text_field(x, "setting_code"@);
    let g = |f: (Seq<char>, JsonModel)|
        match exported_value(table, f.0, f.1, code, include_secrets) {
            Some(v) => Some((f.0, v)),
            None => None,
        };
    assert forall|i: int| 0 <= i < x.len() implies g(#[trigger] x[i]) == g(#[trigger] y[i]) by {
        assert(x[i].0 == y[i].0);
    }
    lemma_same_results(x, y, g);
    assert(exported_fields(table, x, code, include_secrets) == x.filter_map(g));
    assert(exported_fields(table, y, code, include_secrets) == y.filter_map(g));
}

proof fn lemma_alike_exports(
    sections: Seq<Seq<char>>,
    include_secrets: bool,
    a: Seq<Seq<Seq<(Seq<char>, SqlModel)>>>,
    b: Seq<Seq<Seq<(Seq<char>, SqlModel)>>>,
    n: int,
)
    requires
        alike_tables(a, b, include_secrets),
        0 <= n <= a.len(),
    ensures
        exported_tables(sections, include_secrets, a, n) == exported_tables(
            sections,
            include_secrets,
            b,
            n,
        ),
    decreases n,
{
    if n > 0 {
        lemma_alike_exports(sections, include_secrets, a, b, n - 1);
        let table = config::tables_of(sections)[n - 1];
        let x = a[n - 1];
        let y = b[n - 1];
        let g = |row: Seq<(Seq<char>, SqlModel)>|
            exported_row(table, sections, include_secrets, row);
        assert(x.len() == y.len());
        assert forall|i: int| 0 <= i < x.len() implies g(#[trigger] x[i]) == g(#[trigger] y[i]) by {
            assert(alike_rows(a[n - 1][i], b[n - 1][i], include_secrets));
            lemma_alike_row(table, sections, include_secrets, x[i], y[i]);
        }
        lemma_same_results(x, y, g);
        assert(exported_rows(table, sections, include_secrets, x) == x.filter_map(g));
        assert(exported_rows(table, sections, include_secrets, y) == y.filter_map(g));
    }
}

/// An export does not depend on what it leaves out: databases that differ
/// only in device-bound columns, and in secret ones where secrets are not
/// asked for, give the same text.
pub proof fn law_export_shows_nothing_of_what_it_leaves_out(
    schema_version: i64,
    sections: Seq<Seq<char>>,
    include_secrets: bool,
    a: Seq<Seq<Seq<(Seq<char>, SqlModel)>>>,
    b: Seq<Seq<Seq<(Seq<char>, SqlModel)>>>,
)
    requires
        a.len() == config::tables_of(sections).len(),
        alike_tables(a, b, include_secrets),
    ensures
        exported(schema_version, sections, include_secrets, a) == exported(
            schema_version,
            sections,
            include_secrets,
            b,
        ),
{
    lemma_alike_exports(sections, include_secrets, a, b, a.len() as int);
}

} // verus!

//! The rules of an import: what a package must be, and what becomes of each
//! of its rows.

use vstd::prelude::*;
use crate::config;
use crate::config::export;
use crate::config::export::{ConfigBundle, ConfigBundleModel, FieldsModel};
use crate::config::invalid_with;
use crate::config::json;
use crate::config::json::{Json, JsonModel};
use crate::config::redact;
use crate::config::sql;
use crate::config::sql::{SqlModel, SqlValue};
use crate::error;
use crate::error::{ErrorModel, StorageError};
use crate::text;

verus! {

// ---------------------------------------------------------------------
// The package
// ---------------------------------------------------------------------

/// The first of the names that a set does not hold.
pub open spec fn first_missing(names: Seq<Seq<char>>, set: Seq<Seq<char>>) -> Option<Seq<char>>
    decreases names.len(),
{
    if names.len() == 0 {
        None
    } else if !set.contains(names[0]) {
        Some(names[0])
    } else {
        first_missing(names.skip(1), set)
    }
}

/// The number of rows of all tables.
pub open spec fn total_rows(tables: Seq<(Seq<char>, Seq<JsonModel>)>) -> nat
    decreases tables.len(),
{
    if tables.len() == 0 {
        0
    } else {
        total_rows(tables.drop_last()) + tables.last().1.len()
    }
}

/// Why a package cannot be imported, if it cannot: it has another format,
/// it has a section that is unknown, a section asked for is not in it, or
/// it has too many rows.
pub open spec fn bundle_error(bundle: ConfigBundleModel, requested: Seq<Seq<char>>) -> Option<
    ErrorModel,
> {
    let sections = config::name_set(bundle.sections);
    if bundle.format_version != config::CONFIG_FORMAT_VERSION {
        Some(
            error::invalid(
                "Unsupported configuration format version: "@ + text::signed_decimal(
                    bundle.format_version as int,
                ),
            ),
        )
    } else if config::first_unknown(sections) is Some {
        Some(
            error::invalid(
                "Unknown configuration section: "@ + config::first_unknown(sections)->0,
            ),
        )
    } else if first_missing(requested, sections) is Some {
        Some(
            error::invalid(
                "Configuration package does not contain selected section: "@ + first_missing(
                    requested,
                    sections,
                )->0,
            ),
        )
    } else if total_rows(bundle.tables) > config::MAX_CONFIG_ROWS {
        Some(error::invalid("Configuration package exceeds the row limit"@))
    } else {
        None
    }
}

/// Finds the first of the names that a set does not hold.
fn find_missing(names: &Vec<String>, set: &Vec<String>) -> (r: Option<usize>)
    ensures
        match r {
            Some(i) => i < names@.len() && first_missing(names.deep_view(), set.deep_view()) == Some(
                names@[i as int]@,
            ),
            None => first_missing(names.deep_view(), set.deep_view()) is None,
        },
{
    let ghost all = names.deep_view();
    proof {
        assert(all.skip(0) =~= all);
    }
    let mut i: usize = 0;
    while i < names.len()
        invariant
            i <= names@.len(),
            all == names.deep_view(),
            first_missing(all, set.deep_view()) == first_missing(
                all.skip(i as int),
                set.deep_view(),
            ),
        decreases names@.len() - i,
    {
        proof {
            assert(all.skip(i as int)[0] == names@[i as int]@);
            assert(all.skip(i as int).skip(1) =~= all.skip(i + 1));
        }
        if !config::has_name(set, names[i].as_str()) {
            return Some(i);
        }
        i += 1;
    }
    None
}

proof fn lemma_total_rows(tables: Seq<(Seq<char>, Seq<JsonModel>)>, i: int)
    requires
        0 <= i <= tables.len(),
    ensures
        total_rows(tables.take(i)) <= total_rows(tables),
    decreases tables.len(),
{
    if i < tables.len() {
        lemma_total_rows(tables.drop_last(), i);
        assert(tables.drop_last().take(i) =~= tables.take(i));
    } else {
        assert(tables.take(i) =~= tables);
    }
}

/// Whether the tables have more rows than a package may.
fn too_many_rows(tables: &Vec<(String, Vec<Json>)>) -> (r: bool)
    ensures
        r == (total_rows(tables.deep_view()) > config::MAX_CONFIG_ROWS),
{
    let ghost all = tables.deep_view();
    let mut total: usize = 0;
    let mut i: usize = 0;
    while i < tables.len()
        invariant
            i <= tables@.len(),
            all == tables.deep_view(),
            total == total_rows(all.take(i as int)),
            total <= config::MAX_CONFIG_ROWS,
        decreases tables@.len() - i,
    {
        let n: usize = tables[i].1.len();
        proof {
            assert(all.take(i + 1).drop_last() =~= all.take(i as int));
            assert(all.take(i + 1).last() == all[i as int]);
            assert(all[i as int] == tables@[i as int].deep_view());
            assert(all[i as int].1.len() == n);
            lemma_total_rows(all, i + 1);
        }
        if n > config::MAX_CONFIG_ROWS - total {
            return true;
        }
        total += n;
        i += 1;
    }
    proof {
        assert(all.take(i as int) =~= all);
    }
    false
}

/// Checks a package.
pub fn check_bundle(bundle: &ConfigBundle, requested: &Vec<String>) -> (r: Result<(), StorageError>)
    ensures
        match r {
            Ok(_) => bundle_error(bundle.deep_view(), requested.deep_view()) is None,
            Err(e) => bundle_error(bundle.deep_view(), requested.deep_view()) == Some(
                e.deep_view(),
            ),
        },
{
    if bundle.format_version != config::CONFIG_FORMAT_VERSION {
        let number = text::string_of(text::write_i64(bundle.format_version).as_slice());
        return Err(
            invalid_with("Unsupported configuration format version: ", number.as_str()),
        );
    }
    let sections = config::set_of_names(&bundle.sections);
    match config::find_unknown(&sections) {
        Some(i) => {
            return Err(invalid_with("Unknown configuration section: ", sections[i].as_str()));
        },
        None => {},
    }
    match find_missing(requested, &sections) {
        Some(i) => {
            return Err(
                invalid_with(
                    "Configuration package does not contain selected section: ",
                    requested[i].as_str(),
                ),
            );
        },
        None => {},
    }
    if too_many_rows(&bundle.tables) {
        return Err(StorageError::invalid_arg("Configuration package exceeds the row limit"));
    }
    Ok(())
}

/// Checks the size of a package before it is read.
pub fn check_import_size(config_json: &str) -> (r: Result<(), StorageError>)
    ensures
        match r {
            Ok(_) => text::byte_len(config_json@) <= config::MAX_CONFIG_BYTES,
            Err(e) => text::byte_len(config_json@) > config::MAX_CONFIG_BYTES && e.deep_view()
                == error::invalid("Configuration package is too large"@),
        },
{
    if text::takes_bytes(text::chars_of(config_json).as_slice(), config::MAX_CONFIG_BYTES + 1) {
        return Err(StorageError::invalid_arg("Configuration package is too large"));
    }
    Ok(())
}

/// The text of the error for a package of a newer database.
pub open spec fn newer_schema(package: i64, current: i64) -> Seq<char> {
    "Configuration package schema "@ + text::signed_decimal(package as int)
        + " is newer than supported schema "@ + text::signed_decimal(current as int)
}

/// Checks that a package was not made by a newer version of the database.
pub fn check_schema(package: i64, current: i64) -> (r: Result<(), StorageError>)
    ensures
        match r {
            Ok(_) => package <= current,
            Err(e) => package > current && e.deep_view() == error::invalid(
                newer_schema(package, current),
            ),
        },
{
    if package > current {
        let mut reason = text::chars_of("Configuration package schema ");
        text::append(&mut reason, text::write_i64(package).as_slice());
        text::append_str(&mut reason, " is newer than supported schema ");
        text::append(&mut reason, text::write_i64(current).as_slice());
        return Err(StorageError::invalid_arg(text::string_of(reason.as_slice()).as_str()));
    }
    Ok(())
}

// ---------------------------------------------------------------------
// Tables
// ---------------------------------------------------------------------

/// The first column that is part of the primary key.
pub open spec fn primary_of(info: Seq<(Seq<char>, i64)>) -> Seq<char>
    decreases info.len(),
{
    if info.len() == 0 {
        Seq::empty()
    } else {
        let found = primary_of(info.drop_last());
        if found.len() == 0 && info.last().1 > 0 {
            info.last().0
        } else {
            found
        }
    }
}

/// The names of the columns.
pub open spec fn column_names(info: Seq<(Seq<char>, i64)>) -> Seq<Seq<char>> {
    info.map_values(|c: (Seq<char>, i64)| c.0)
}

/// The columns and the primary key of a configuration table, from its
/// description.
pub open spec fn table_shape(table: Seq<char>, info: Seq<(Seq<char>, i64)>) -> Result<
    (Seq<Seq<char>>, Seq<char>),
    ErrorModel,
> {
    if !config::config_tables().contains(table) {
        Err(error::invalid("Configuration table is not allowed: "@ + table))
    } else if info.len() == 0 || primary_of(info).len() == 0 {
        Err(
            error::failure(
                "Configuration table "@ + table + " has no usable primary key"@,
            ),
        )
    } else {
        Ok((column_names(info), primary_of(info)))
    }
}

/// Whether a table belongs to the configuration.
fn is_config_table(table: &str) -> (r: bool)
    ensures
        r == config::config_tables().contains(table@),
{
    let list: [&str; 10] = [
        "api_configs",
        "system_settings",
        "system_prompts",
        "custom_header_schemes",
        "mcp_server_configs",
        "plugins",
        "plugin_marketplaces",
        "plugin_components",
        "sub_agent_configs",
        "sensitive_command_configs",
    ];
    proof {
        assert(Seq::new(list@.len(), |i: int| list@[i]@) =~= config::config_tables());
    }
    crate::git::discover::is_one_of(text::chars_of(table).as_slice(), list.as_slice())
}

/// Reads the description of a table.
pub fn table_columns(table: &str, info: &Vec<(String, i64)>) -> (r: Result<
    (Vec<String>, String),
    StorageError,
>)
    ensures
        match r {
            Ok((columns, primary)) => table_shape(table@, info.deep_view()) == Ok::<_, ErrorModel>(
                (columns.deep_view(), primary@),
            ),
            Err(e) => table_shape(table@, info.deep_view()) == Err::<
                (Seq<Seq<char>>, Seq<char>),
                _,
            >(e.deep_view()),
        },
{
    if !is_config_table(table) {
        return Err(invalid_with("Configuration table is not allowed: ", table));
    }
    let ghost all = info.deep_view();
    let mut columns: Vec<String> = Vec::new();
    let mut primary = String::new();
    proof {
        assert(columns.deep_view() =~= column_names(all.take(0)));
        assert(primary@ =~= primary_of(all.take(0)));
    }
    let mut i: usize = 0;
    while i < info.len()
        invariant
            i <= info@.len(),
            all == info.deep_view(),
            columns.deep_view() == column_names(all.take(i as int)),
            primary@ == primary_of(all.take(i as int)),
        decreases info@.len() - i,
    {
        let ghost before = columns.deep_view();
        proof {
            assert(all.take(i + 1).drop_last() =~= all.take(i as int));
            assert(all.take(i + 1).last() == all[i as int]);
            assert(all[i as int] == (info@[i as int].0@, info@[i as int].1));
        }
        if info[i].1 > 0 && primary.as_str().unicode_len() == 0 {
            primary = info[i].0.clone();
        }
        columns.push(info[i].0.clone());
        proof {
            assert(columns.deep_view() =~= before.push(info@[i as int].0@));
            assert(column_names(all.take(i + 1)) =~= before.push(info@[i as int].0@));
        }
        i += 1;
    }
    proof {
        assert(all.take(i as int) =~= all);
    }
    if columns.len() == 0 || primary.as_str().unicode_len() == 0 {
        let mut reason = "Configuration table ".to_string();
        reason.append(table);
        reason.append(" has no usable primary key");
        proof {
            assert(columns.deep_view().len() == columns@.len());
        }
        return Err(StorageError::from_reason(reason.as_str()));
    }
    Ok((columns, primary))
}

/// The column by which rows of a table are told apart.
pub open spec fn identity_column(table: Seq<char>, primary: Seq<char>) -> Seq<char> {
    if table == "system_settings"@ {
        "setting_code"@
    } else if table == "api_configs"@ {
        "profile_name"@
    } else if table == "system_prompts"@ {
        "prompt_id"@
    } else if table == "custom_header_schemes"@ {
        "scheme_id"@
    } else if table == "mcp_server_configs"@ {
        "server_id"@
    } else {
        primary
    }
}

/// Tells the column by which rows of a table are told apart.
pub fn conflict_column(table: &str, primary: &str) -> (r: String)
    ensures
        r@ == identity_column(table@, primary@),
{
    let chars = text::chars_of(table);
    let t = chars.as_slice();
    if text::equals(t, "system_settings") {
        "setting_code".to_string()
    } else if text::equals(t, "api_configs") {
        "profile_name".to_string()
    } else if text::equals(t, "system_prompts") {
        "prompt_id".to_string()
    } else if text::equals(t, "custom_header_schemes") {
        "scheme_id".to_string()
    } else if text::equals(t, "mcp_server_configs") {
        "server_id".to_string()
    } else {
        primary.to_string()
    }
}

// ---------------------------------------------------------------------
// Rows
// ---------------------------------------------------------------------

/// The value by which a row is found in the database, or `None` for a
/// system setting that was not asked for.
pub open spec fn row_identity(
    table: Seq<char>,
    row: JsonModel,
    primary: Seq<char>,
    package_sections: Seq<Seq<char>>,
    requested: Seq<Seq<char>>,
) -> Result<Option<SqlModel>, ErrorModel> {
    match row {
        JsonModel::Object(fields) => {
            let code = json::text_field(fields, "setting_code"@);
            let section = config::section_of(code);
            if table == "system_settings"@ && !package_sections.contains(section) {
                Err(
                    error::invalid("System setting is outside the package sections: "@ + code),
                )
            } else if table == "system_settings"@ && !requested.contains(section) {
                Ok(None)
            } else {
                match (
                    json::lookup(fields, identity_column(table, primary)),
                    json::lookup(fields, primary),
                ) {
                    (None, None) => Err(
                        error::invalid(
                            "Configuration row in "@ + table + " has no identity"@,
                        ),
                    ),
                    (Some(v), _) => match sql::sql_form(v) {
                        Ok(s) => Ok(Some(s)),
                        Err(e) => Err(e),
                    },
                    (None, Some(v)) => match sql::sql_form(v) {
                        Ok(s) => Ok(Some(s)),
                        Err(e) => Err(e),
                    },
                }
            }
        },
        _ => Err(
            error::invalid("Configuration row in "@ + table + " is not an object"@),
        ),
    }
}

/// An argument error with a text between two parts of its message.
fn invalid_between(first: &str, detail: &str, second: &str) -> (e: StorageError)
    ensures
        e.deep_view() == error::invalid(first@ + detail@ + second@),
{
    let mut reason = first.to_string();
    reason.append(detail);
    reason.append(second);
    StorageError::invalid_arg(reason.as_str())
}

/// Finds the value by which a row is found in the database.
pub fn find_identity(
    table: &str,
    row: &Json,
    primary: &str,
    package_sections: &Vec<String>,
    requested: &Vec<String>,
) -> (r: Result<Option<SqlValue>, StorageError>)
    ensures
        error::result_view(r) == row_identity(
            table@,
            row.model(),
            primary@,
            package_sections.deep_view(),
            requested.deep_view(),
        ),
{
    let fields = match row {
        Json::Object(fields) => fields,
        _ => {
            return Err(invalid_between("Configuration row in ", table, " is not an object"));
        },
    };
    if text::equals(text::chars_of(table).as_slice(), "system_settings") {
        let code = json::get_text(fields, "setting_code");
        let section = config::setting_section(code.as_str());
        if !config::has_name(package_sections, section) {
            return Err(
                invalid_with("System setting is outside the package sections: ", code.as_str()),
            );
        }
        if !config::has_name(requested, section) {
            return Ok(None);
        }
    }
    let column = conflict_column(table, primary);
    let found: Option<&Json> = match json::get(fields, column.as_str()) {
        Some(v) => Some(v),
        None => json::get(fields, primary),
    };
    match found {
        None => Err(invalid_between("Configuration row in ", table, " has no identity")),
        Some(v) => match sql::json_to_sql_value(v) {
            Ok(s) => Ok(Some(s)),
            Err(e) => Err(e),
        },
    }
}

/// What an incoming value becomes, given the row that is there already.
/// `None` leaves the column alone. A hidden value is merged into JSON text,
/// or else leaves the column alone; a system setting that is not there yet
/// becomes empty.
pub open spec fn incoming_value(
    table: Seq<char>,
    column: Seq<char>,
    incoming: JsonModel,
    current: Option<FieldsModel>,
) -> Result<Option<JsonModel>, ErrorModel> {
    if !redact::redacted_in(incoming) {
        Ok(Some(incoming))
    } else {
        match current_field(current, column) {
            Some(existing) => match (existing, incoming) {
                (JsonModel::Str(old_text), JsonModel::Str(new_text)) => match (
                    json::parsed(old_text),
                    json::parsed(new_text),
                ) {
                    (Ok(old_json), Ok(new_json)) => match json::printed(
                        redact::merged(old_json, new_json),
                    ) {
                        Ok(t) => Ok(Some(JsonModel::Str(t))),
                        Err(m) => Err(
                            error::failure("Failed to merge redacted configuration: "@ + m),
                        ),
                    },
                    _ => Ok(None),
                },
                _ => if incoming == redact::marker() {
                    Ok(None)
                } else {
                    Ok(Some(incoming))
                },
            },
            None => if incoming != redact::marker() {
                Ok(Some(incoming))
            } else if table == "system_settings"@ && column == "setting_value"@ {
                Ok(Some(JsonModel::Str(Seq::empty())))
            } else {
                Ok(None)
            },
        }
    }
}

/// The value that a column has in the row that is there already.
pub open spec fn current_field(current: Option<FieldsModel>, column: Seq<char>) -> Option<
    JsonModel,
> {
    match current {
        Some(fields) => json::lookup(fields, column),
        None => None,
    }
}

/// The mathematical form of the row that is there already.
pub open spec fn current_model(current: Option<Vec<(String, Json)>>) -> Option<FieldsModel> {
    match current {
        Some(fields) => Some(json::field_models(fields@)),
        None => None,
    }
}

/// Merges hidden values of one JSON text into another, once both are read.
/// `None` says that one of them is no JSON.
pub fn merge_texts(existing: &Result<Json, String>, incoming: &Result<Json, String>) -> (r: Result<
    Option<Json>,
    StorageError,
>)
    ensures
        error::result_view(r) == (match (*existing, *incoming) {
            (Ok(e), Ok(i)) => match json::printed(redact::merged(e.model(), i.model())) {
                Ok(t) => Ok(Some(JsonModel::Str(t))),
                Err(m) => Err(error::failure("Failed to merge redacted configuration: "@ + m)),
            },
            _ => Ok(None),
        }),
{
    match (existing, incoming) {
        (Ok(e), Ok(i)) => {
            let merged = redact::merge_redacted(e, i);
            match json::print(&merged) {
                Ok(t) => Ok(Some(Json::Str(t))),
                Err(m) => {
                    let mut reason = "Failed to merge redacted configuration: ".to_string();
                    reason.append(m.as_str());
                    Err(StorageError::from_reason(reason.as_str()))
                },
            }
        },
        _ => Ok(None),
    }
}

/// Decides what an incoming value becomes.
pub fn take_incoming(
    table: &str,
    column: &str,
    incoming: &Json,
    current: &Option<Vec<(String, Json)>>,
) -> (r: Result<Option<Json>, StorageError>)
    ensures
        error::result_view(r) == incoming_value(
            table@,
            column@,
            incoming.model(),
            current_model(*current),
        ),
{
    if !redact::contains_redacted(incoming) {
        return Ok(Some(json::duplicate(incoming)));
    }
    let existing: Option<&Json> = match current {
        Some(fields) => json::get(fields, column),
        None => None,
    };
    match existing {
        Some(Json::Str(old_text)) => {
            if let Json::Str(new_text) = incoming {
                let old_json = json::parse(old_text.as_str());
                let new_json = json::parse(new_text.as_str());
                return merge_texts(&old_json, &new_json);
            }
        },
        Some(_) => {},
        None => {
            if redact::is_marker(incoming) {
                if text::equals(text::chars_of(table).as_slice(), "system_settings")
                    && text::equals(text::chars_of(column).as_slice(), "setting_value") {
                    let none = String::new();
                    proof {
                        assert(none@ =~= Seq::<char>::empty());
                    }
                    return Ok(Some(Json::Str(none)));
                }
                return Ok(None);
            }
            return Ok(Some(json::duplicate(incoming)));
        },
    }
    if redact::is_marker(incoming) {
        return Ok(None);
    }
    Ok(Some(json::duplicate(incoming)))
}

/// A hidden value is never written as such: a value that stands for a
/// hidden one leaves the column alone or becomes empty, as long as the
/// marker itself is no JSON text.
pub proof fn law_marker_is_not_imported(
    table: Seq<char>,
    column: Seq<char>,
    current: Option<FieldsModel>,
)
    requires
        json::parsed(redact::REDACTED_MARKER@) is Err,
    ensures
        ({
            let r = incoming_value(table, column, redact::marker(), current);
            r == Ok::<Option<JsonModel>, ErrorModel>(None) || (r == Ok::<
                Option<JsonModel>,
                ErrorModel,
            >(Some(JsonModel::Str(Seq::empty()))) && table == "system_settings"@ && column
                == "setting_value"@ && current_field(current, column) is None)
        }),
{
}

/// What the marker becomes. It leaves the column alone, except that a
/// system setting that has no value yet becomes empty.
pub fn take_marker(table: &str, column: &str, current: &Option<Vec<(String, Json)>>) -> (r: Result<
    Option<Json>,
    StorageError,
>)
    ensures
        error::result_view(r) == (if table@ == "system_settings"@ && column@ == "setting_value"@
            && current_field(current_model(*current), column@) is None {
            Ok::<Option<JsonModel>, ErrorModel>(Some(JsonModel::Str(Seq::empty())))
        } else {
            Ok(None)
        }),
{
    proof {
        reveal_strlit("__SNOWAPP_REDACTED__");
    }
    let parsed = json::parse(redact::REDACTED_MARKER);
    proof {
        law_marker_is_not_imported(table@, column@, current_model(*current));
    }
    take_incoming(table, column, &Json::Str(redact::REDACTED_MARKER.to_string()), current)
}

/// Whether a value is exported as it is, and can be told from the form that
/// other values are exported in.
pub open spec fn is_plain(
    table: Seq<char>,
    column: Seq<char>,
    value: SqlModel,
    code: Seq<char>,
    include_secrets: bool,
) -> bool {
    &&& !config::device_column(column)
    &&& include_secrets || !config::sensitive_column(column)
    &&& !export::directory_setting(table, column, code)
    &&& match value {
        SqlModel::Text(s) => !export::json_column(table, column) && s != redact::REDACTED_MARKER@
            && !text::begins(s, "base64:"@),
        SqlModel::Blob(_) => !export::json_column(table, column),
        SqlModel::Real(t) => t is Some,
        _ => true,
    }
}

/// What becomes of a value that is exported and imported again.
pub open spec fn reimported(
    table: Seq<char>,
    column: Seq<char>,
    value: SqlModel,
    code: Seq<char>,
    include_secrets: bool,
    current: Option<FieldsModel>,
) -> Result<Option<SqlModel>, ErrorModel> {
    match export::exported_value(table, column, sql::json_form(value), code, include_secrets) {
        None => Ok(None),
        Some(v) => match incoming_value(table, column, v, current) {
            Err(e) => Err(e),
            Ok(None) => Ok(None),
            Ok(Some(taken)) => match sql::sql_form(taken) {
                Ok(s) => Ok(Some(s)),
                Err(e) => Err(e),
            },
        },
    }
}

/// A plain value that is exported is imported as it was, whatever the row
/// holds that is there already.
pub proof fn law_plain_value_is_imported(
    table: Seq<char>,
    column: Seq<char>,
    value: SqlModel,
    code: Seq<char>,
    include_secrets: bool,
    current: Option<FieldsModel>,
)
    requires
        is_plain(table, column, value, code, include_secrets),
        value matches SqlModel::Blob(b) ==> sql::reads_back(b),
    ensures
        reimported(table, column, value, code, include_secrets, current) == Ok::<
            Option<SqlModel>,
            ErrorModel,
        >(Some(value)),
{
    if let SqlModel::Blob(b) = value {
        sql::law_blob_reads_back(b);
        let s = "base64:"@ + sql::base64_text(b);
        reveal_strlit("base64:");
        reveal_strlit("__SNOWAPP_REDACTED__");
        assert(s[0] == 'b');
        assert(redact::REDACTED_MARKER@[0] == '_');
    }
}

/// Exports a value and imports it again.
pub fn reimport_value(
    table: &str,
    column: &str,
    value: &SqlValue,
    setting_code: &str,
    include_secrets: bool,
    current: &Option<Vec<(String, Json)>>,
) -> (r: Result<Option<SqlValue>, StorageError>)
    requires
        sql::encodable(value.deep_view()),
    ensures
        error::result_view(r) == reimported(
            table@,
            column@,
            value.deep_view(),
            setting_code@,
            include_secrets,
            current_model(*current),
        ),
        is_plain(table@, column@, value.deep_view(), setting_code@, include_secrets)
            ==> error::result_view(r) == Ok::<Option<SqlModel>, ErrorModel>(
            Some(value.deep_view()),
        ),
{
    let json = sql::sql_value_to_json(value);
    proof {
        if is_plain(table@, column@, value.deep_view(), setting_code@, include_secrets) {
            law_plain_value_is_imported(
                table@,
                column@,
                value.deep_view(),
                setting_code@,
                include_secrets,
                current_model(*current),
            );
        }
    }
    match export::value_for_export(table, column, &json, setting_code, include_secrets) {
        None => Ok(None),
        Some(v) => match take_incoming(table, column, &v, current) {
            Err(e) => Err(e),
            Ok(None) => Ok(None),
            Ok(Some(taken)) => match sql::json_to_sql_value(&taken) {
                Ok(s) => Ok(Some(s)),
                Err(e) => Err(e),
            },
        },
    }
}

/// The columns that a row sets, with their values.
pub open spec fn row_values(
    table: Seq<char>,
    fields: FieldsModel,
    columns: Seq<Seq<char>>,
    current: Option<FieldsModel>,
) -> Result<Seq<(Seq<char>, SqlModel)>, ErrorModel>
    decreases fields.len(),
{
    if fields.len() == 0 {
        Ok(Seq::empty())
    } else {
        match row_values(table, fields.drop_last(), columns, current) {
            Err(e) => Err(e),
            Ok(values) => {
                let column = fields.last().0;
                if !columns.contains(column) || config::device_column(column) {
                    Ok(values)
                } else {
                    match incoming_value(table, column, fields.last().1, current) {
                        Err(e) => Err(e),
                        Ok(None) => Ok(values),
                        Ok(Some(v)) => match sql::sql_form(v) {
                            Err(e) => Err(e),
                            Ok(s) => Ok(values.push((column, s))),
                        },
                    }
                }
            },
        }
    }
}

/// Collects the columns that a row sets.
pub fn collect_values(
    table: &str,
    fields: &Vec<(String, Json)>,
    columns: &Vec<String>,
    current: &Option<Vec<(String, Json)>>,
) -> (r: Result<Vec<(String, SqlValue)>, StorageError>)
    ensures
        error::result_view(r) == row_values(
            table@,
            json::field_models(fields@),
            columns.deep_view(),
            current_model(*current),
        ),
{
    let ghost all = json::field_models(fields@);
    let ghost now = current_model(*current);
    let mut values: Vec<(String, SqlValue)> = Vec::new();
    proof {
        json::lemma_field_models(fields@);
        assert(values.deep_view() =~= Seq::<(Seq<char>, SqlModel)>::empty());
        assert(all.take(0) =~= Seq::<(Seq<char>, JsonModel)>::empty());
    }
    let mut i: usize = 0;
    while i < fields.len()
        invariant
            i <= fields@.len(),
            all == json::field_models(fields@),
            now == current_model(*current),
            all.len() == fields@.len(),
            forall|j: int|
                0 <= j < fields@.len() ==> #[trigger] all[j] == (
                    fields@[j].0@,
                    fields@[j].1.model(),
                ),
            row_values(table@, all.take(i as int), columns.deep_view(), now) == Ok::<
                Seq<(Seq<char>, SqlModel)>,
                ErrorModel,
            >(values.deep_view()),
        decreases fields@.len() - i,
    {
        let column = fields[i].0.as_str();
        let ghost before = values.deep_view();
        proof {
            assert(all.take(i + 1).drop_last() =~= all.take(i as int));
            assert(all.take(i + 1).last() == all[i as int]);
        }
        if config::has_name(columns, column) && !config::is_device_only_column(column) {
            match take_incoming(table, column, &fields[i].1, current) {
                Err(e) => {
                    proof {
                        lemma_error_stays(table@, all, columns.deep_view(), now, i + 1);
                    }
                    return Err(e);
                },
                Ok(None) => {},
                Ok(Some(v)) => match sql::json_to_sql_value(&v) {
                    Err(e) => {
                        proof {
                            lemma_error_stays(table@, all, columns.deep_view(), now, i + 1);
                        }
                        return Err(e);
                    },
                    Ok(s) => {
                        let item = (fields[i].0.clone(), s);
                        values.push(item);
                        proof {
                            assert(values.deep_view() =~= before.push(item.deep_view()));
                        }
                    },
                },
            }
        }
        i += 1;
    }
    proof {
        assert(all.take(i as int) =~= all);
    }
    Ok(values)
}

proof fn lemma_error_stays(
    table: Seq<char>,
    fields: FieldsModel,
    columns: Seq<Seq<char>>,
    current: Option<FieldsModel>,
    i: int,
)
    requires
        0 <= i <= fields.len(),
        row_values(table, fields.take(i), columns, current) is Err,
    ensures
        row_values(table, fields, columns, current) == row_values(
            table,
            fields.take(i),
            columns,
            current,
        ),
    decreases fields.len() - i,
{
    if i < fields.len() {
        assert(fields.take(i + 1).drop_last() =~= fields.take(i));
        lemma_error_stays(table, fields, columns, current, i + 1);
    } else {
        assert(fields.take(i) =~= fields);
    }
}

/// Whether a column is set.
pub open spec fn sets(values: Seq<(Seq<char>, SqlModel)>, column: Seq<char>) -> bool {
    exists|i: int| 0 <= i < values.len() && (#[trigger] values[i]).0 == column
}

/// The values with a column set to the empty text where it is not set.
pub open spec fn with_default(
    values: Seq<(Seq<char>, SqlModel)>,
    column: Seq<char>,
) -> Seq<(Seq<char>, SqlModel)> {
    if sets(values, column) {
        values
    } else {
        values.push((column, SqlModel::Text(Seq::empty())))
    }
}

/// The values with the device-bound columns that a table demands.
pub open spec fn with_demanded(
    table: Seq<char>,
    values: Seq<(Seq<char>, SqlModel)>,
) -> Seq<(Seq<char>, SqlModel)> {
    if table == "plugins"@ || table == "plugin_marketplaces"@ {
        with_default(with_default(values, "source_path"@), "manifest_path"@)
    } else if table == "plugin_components"@ {
        with_default(values, "origin_path"@)
    } else {
        values
    }
}

/// Sets a column to the empty text where it is not set.
fn add_default(values: &mut Vec<(String, SqlValue)>, column: &str)
    ensures
        final(values).deep_view() == with_default(old(values).deep_view(), column@),
{
    let ghost before = values.deep_view();
    let mut i: usize = 0;
    while i < values.len()
        invariant
            i <= values@.len(),
            *values == *old(values),
            before == values.deep_view(),
            forall|j: int| 0 <= j < i ==> (#[trigger] before[j]).0 != column@,
        decreases values@.len() - i,
    {
        if text::equals(text::chars_of(values[i].0.as_str()).as_slice(), column) {
            proof {
                assert(before[i as int].0 == column@);
            }
            return;
        }
        i += 1;
    }
    let none = String::new();
    proof {
        assert(none@ =~= Seq::<char>::empty());
    }
    let item = (column.to_string(), SqlValue::Text(none));
    values.push(item);
    proof {
        assert(values.deep_view() =~= before.push(item.deep_view()));
    }
}

// ---------------------------------------------------------------------
// Statements
// ---------------------------------------------------------------------

/// A statement with its parameters.
pub struct Statement {
    pub sql: String,
    pub params: Vec<SqlValue>,
}

/// The mathematical form of a statement.
pub struct StatementModel {
    pub sql: Seq<char>,
    pub params: Seq<SqlModel>,
}

impl DeepView for Statement {
    type V = StatementModel;

    open spec fn deep_view(&self) -> StatementModel {
        StatementModel { sql: self.sql@, params: self.params.deep_view() }
    }
}

/// A name in double quotes.
pub open spec fn quoted_name(name: Seq<char>) -> Seq<char> {
    "\""@ + name + "\""@
}

/// The assignment that takes a column from the new row.
pub open spec fn taken_from_new(name: Seq<char>) -> Seq<char> {
    quoted_name(name) + " = excluded."@ + quoted_name(name)
}

/// As many question marks as asked for, separated by commas.
pub open spec fn placeholders(n: nat) -> Seq<char> {
    text::joined(Seq::new(n, |i: int| "?"@), ", "@)
}

/// The statement that inserts a row, or updates the row of the same
/// identity. Columns that were only filled in are not updated.
pub open spec fn upsert(
    table: Seq<char>,
    identity: Seq<char>,
    given: Seq<(Seq<char>, SqlModel)>,
) -> StatementModel {
    let all = with_demanded(table, given);
    StatementModel {
        sql: "INSERT INTO \""@ + table + "\" ("@ + text::joined(
            all.map_values(|v: (Seq<char>, SqlModel)| quoted_name(v.0)),
            ", "@,
        ) + ") VALUES ("@ + placeholders(all.len()) + ") ON CONFLICT(\""@ + identity
            + "\") DO UPDATE SET "@ + text::joined(
            given.map_values(|v: (Seq<char>, SqlModel)| taken_from_new(v.0)),
            ", "@,
        ),
        params: all.map_values(|v: (Seq<char>, SqlModel)| v.1),
    }
}

/// Writes a name in double quotes.
fn quote_name(name: &str) -> (r: Vec<char>)
    ensures
        r@ == quoted_name(name@),
{
    let mut r = text::chars_of("\"");
    text::append_str(&mut r, name);
    text::append_str(&mut r, "\"");
    r
}

/// Writes question marks.
pub(crate) fn question_marks(n: usize) -> (r: Vec<char>)
    ensures
        r@ == placeholders(n as nat),
{
    let mut parts: Vec<Vec<char>> = Vec::new();
    let mut i: usize = 0;
    while i < n
        invariant
            i <= n,
            parts@.len() == i,
            forall|j: int| 0 <= j < i ==> (#[trigger] parts@[j])@ == "?"@,
        decreases n - i,
    {
        parts.push(text::chars_of("?"));
        i += 1;
    }
    proof {
        assert(text::texts(parts@) =~= Seq::new(n as nat, |i: int| "?"@));
    }
    text::join(&parts, ", ")
}

/// Writes the statement that inserts or updates a row.
pub fn write_upsert(table: &str, identity: &str, given: Vec<(String, SqlValue)>) -> (r: Statement)
    ensures
        r.deep_view() == upsert(table@, identity@, given.deep_view()),
{
    let ghost first = given.deep_view();
    let ghost fu = |v: (Seq<char>, SqlModel)| taken_from_new(v.0);
    let ghost fq = |v: (Seq<char>, SqlModel)| quoted_name(v.0);
    let ghost fv = |v: (Seq<char>, SqlModel)| v.1;
    let mut updates: Vec<Vec<char>> = Vec::new();
    let mut i: usize = 0;
    while i < given.len()
        invariant
            i <= given@.len(),
            first == given.deep_view(),
            updates@.len() == i,
            forall|j: int| 0 <= j < i ==> (#[trigger] updates@[j])@ == taken_from_new(first[j].0),
        decreases given@.len() - i,
    {
        let name = given[i].0.as_str();
        proof {
            assert(first[i as int].0 == name@);
        }
        let mut part = quote_name(name);
        text::append_str(&mut part, " = excluded.");
        text::append(&mut part, quote_name(name).as_slice());
        updates.push(part);
        i += 1;
    }
    proof {
        assert(text::texts(updates@) =~= first.map_values(fu));
    }
    let mut all = given;
    let t = text::chars_of(table);
    if text::equals(t.as_slice(), "plugins") || text::equals(t.as_slice(), "plugin_marketplaces") {
        add_default(&mut all, "source_path");
        add_default(&mut all, "manifest_path");
    } else if text::equals(t.as_slice(), "plugin_components") {
        add_default(&mut all, "origin_path");
    }
    let ghost full = with_demanded(table@, first);
    assert(all.deep_view() == full);
    let mut names: Vec<Vec<char>> = Vec::new();
    let mut params: Vec<SqlValue> = Vec::new();
    let mut k: usize = 0;
    while k < all.len()
        invariant
            k <= all@.len(),
            full == all.deep_view(),
            names@.len() == k,
            params@.len() == k,
            forall|j: int| 0 <= j < k ==> (#[trigger] names@[j])@ == quoted_name(full[j].0),
            forall|j: int| 0 <= j < k ==> (#[trigger] params@[j]).deep_view() == full[j].1,
        decreases all@.len() - k,
    {
        proof {
            assert(full[k as int] == (all@[k as int].0@, all@[k as int].1.deep_view()));
        }
        names.push(quote_name(all[k].0.as_str()));
        params.push(sql::duplicate_sql(&all[k].1));
        k += 1;
    }
    proof {
        assert(text::texts(names@) =~= full.map_values(fq));
        assert(params.deep_view() =~= full.map_values(fv));
    }
    let mut out = text::chars_of("INSERT INTO \"");
    text::append_str(&mut out, table);
    text::append_str(&mut out, "\" (");
    text::append(&mut out, text::join(&names, ", ").as_slice());
    text::append_str(&mut out, ") VALUES (");
    text::append(&mut out, question_marks(all.len()).as_slice());
    text::append_str(&mut out, ") ON CONFLICT(\"");
    text::append_str(&mut out, identity);
    text::append_str(&mut out, "\") DO UPDATE SET ");
    text::append(&mut out, text::join(&updates, ", ").as_slice());
    Statement { sql: text::string_of(out.as_slice()), params }
}

/// The statement for a row, if there is anything to write.
pub open spec fn row_statement(
    table: Seq<char>,
    primary: Seq<char>,
    fields: FieldsModel,
    columns: Seq<Seq<char>>,
    current: Option<FieldsModel>,
) -> Result<Option<StatementModel>, ErrorModel> {
    match row_values(table, fields, columns, current) {
        Err(e) => Err(e),
        Ok(values) => if with_demanded(table, values).len() == 0 {
            Ok(None)
        } else {
            Ok(Some(upsert(table, identity_column(table, primary), values)))
        },
    }
}

/// Writes the statement for a row.
pub fn write_row(
    table: &str,
    primary: &str,
    fields: &Vec<(String, Json)>,
    columns: &Vec<String>,
    current: &Option<Vec<(String, Json)>>,
) -> (r: Result<Option<Statement>, StorageError>)
    ensures
        error::result_view(r) == row_statement(
            table@,
            primary@,
            json::field_models(fields@),
            columns.deep_view(),
            current_model(*current),
        ),
{
    match collect_values(table, fields, columns, current) {
        Err(e) => Err(e),
        Ok(values) => {
            let identity = conflict_column(table, primary);
            let statement = write_upsert(table, identity.as_str(), values);
            if statement.params.len() == 0 {
                proof {
                    assert(statement.params.deep_view().len() == 0);
                }
                return Ok(None);
            }
            proof {
                assert(statement.params.deep_view().len() > 0);
            }
            Ok(Some(statement))
        },
    }
}

/// The statement that reads the row of an identity.
pub open spec fn select_row(table: Seq<char>, identity: Seq<char>) -> Seq<char> {
    "SELECT * FROM \""@ + table + "\" WHERE \""@ + identity + "\" = ?1 LIMIT 1"@
}

/// Writes the statement that reads the row of an identity.
pub fn write_select(table: &str, identity: &str) -> (r: String)
    ensures
        r@ == select_row(table@, identity@),
{
    let mut out = "SELECT * FROM \"".to_string();
    out.append(table);
    out.append("\" WHERE \"");
    out.append(identity);
    out.append("\" = ?1 LIMIT 1");
    out
}

} // verus!

//! An import as a sequence of steps on the database.

use vstd::prelude::*;
use crate::config;
use crate::config::export;
use crate::config::export::{object_of_row, ConfigBundle, FieldsModel};
use crate::config::import;
use crate::config::import::{Statement, StatementModel};
use crate::config::invalid_with;
use crate::config::json;
use crate::config::json::{Json, JsonModel};
use crate::config::sql;
use crate::config::sql::{SqlModel, SqlValue};
use crate::error;
use crate::error::{ErrorModel, StorageError};
use crate::text;

verus! {

// ---------------------------------------------------------------------
// Removing rows that a package does not hold
// ---------------------------------------------------------------------

/// The value of a field of a row that is an object.
pub open spec fn field_of(row: JsonModel, name: Seq<char>) -> Option<JsonModel> {
    match row {
        JsonModel::Object(fields) => json::lookup(fields, name),
        _ => None,
    }
}

/// The values that a field has in the rows.
pub open spec fn field_values(rows: Seq<JsonModel>, name: Seq<char>) -> Seq<JsonModel> {
    rows.filter_map(|row: JsonModel| field_of(row, name))
}

/// The database values of JSON values, or the first error.
pub open spec fn sql_forms(values: Seq<JsonModel>) -> Result<Seq<SqlModel>, ErrorModel>
    decreases values.len(),
{
    if values.len() == 0 {
        Ok(Seq::empty())
    } else {
        match sql_forms(values.drop_last()) {
            Err(e) => Err(e),
            Ok(before) => match sql::sql_form(values.last()) {
                Err(e) => Err(e),
                Ok(s) => Ok(before.push(s)),
            },
        }
    }
}

/// The statement that removes the rows of a table that a package does not
/// hold.
pub open spec fn removal(table: Seq<char>, rows: Seq<JsonModel>, primary: Seq<char>) -> Result<
    StatementModel,
    ErrorModel,
> {
    let keys = field_values(rows, primary);
    if keys.len() == 0 {
        Ok(
            StatementModel {
                sql: "DELETE FROM \""@ + table + "\""@,
                params: Seq::empty(),
            },
        )
    } else {
        match sql_forms(keys) {
            Err(e) => Err(e),
            Ok(params) => Ok(
                StatementModel {
                    sql: "DELETE FROM \""@ + table + "\" WHERE \""@ + primary + "\" NOT IN ("@
                        + import::placeholders(keys.len()) + ")"@,
                    params,
                },
            ),
        }
    }
}

/// The codes of the system settings in a package.
pub open spec fn package_codes(rows: Seq<JsonModel>) -> Seq<Seq<char>> {
    rows.filter_map(|row: JsonModel| json::as_text(field_of(row, "setting_code"@)))
}

/// The system settings to remove: those of the sections asked for that a
/// package does not hold.
pub open spec fn codes_to_remove(
    existing: Seq<Seq<char>>,
    rows: Seq<JsonModel>,
    requested: Seq<Seq<char>>,
) -> Seq<Seq<char>> {
    existing.filter(
        |code: Seq<char>|
            requested.contains(config::section_of(code)) && !package_codes(rows).contains(code),
    )
}

fn find_field<'a>(row: &'a Json, name: &str) -> (r: Option<&'a Json>)
    ensures
        match r {
            Some(v) => field_of(row.model(), name@) == Some(v.model()),
            None => field_of(row.model(), name@) is None,
        },
{
    match row {
        Json::Object(fields) => json::get(fields, name),
        _ => None,
    }
}

proof fn lemma_sql_error_stays(values: Seq<JsonModel>, i: int)
    requires
        0 <= i <= values.len(),
        sql_forms(values.take(i)) is Err,
    ensures
        sql_forms(values) == sql_forms(values.take(i)),
    decreases values.len() - i,
{
    if i < values.len() {
        assert(values.take(i + 1).drop_last() =~= values.take(i));
        lemma_sql_error_stays(values, i + 1);
    } else {
        assert(values.take(i) =~= values);
    }
}

/// Writes the statement that removes the rows that a package does not hold.
pub fn delete_missing_rows(table: &str, rows: &Vec<Json>, primary: &str) -> (r: Result<
    Statement,
    StorageError,
>)
    ensures
        error::result_view(r) == removal(table@, rows.deep_view(), primary@),
{
    let ghost all = rows.deep_view();
    let ghost f = |row: JsonModel| field_of(row, primary@);
    let mut keys: Vec<Json> = Vec::new();
    proof {
        assert(keys.deep_view() =~= all.take(0).filter_map(f));
    }
    let mut i: usize = 0;
    while i < rows.len()
        invariant
            i <= rows@.len(),
            all == rows.deep_view(),
            f == (|row: JsonModel| field_of(row, primary@)),
            keys.deep_view() == all.take(i as int).filter_map(f),
        decreases rows@.len() - i,
    {
        let ghost before = keys.deep_view();
        proof {
            all.lemma_filter_map_take_succ(f, i as int);
            assert(all[i as int] == rows@[i as int].model());
        }
        match find_field(&rows[i], primary) {
            Some(v) => {
                let key = json::duplicate(v);
                keys.push(key);
                proof {
                    assert(keys.deep_view() =~= before + seq![key.deep_view()]);
                }
            },
            None => {
                assert(before + Seq::empty() =~= before);
            },
        }
        i += 1;
    }
    proof {
        assert(all.take(i as int) =~= all);
        assert(keys.deep_view() == field_values(all, primary@));
        assert(keys.deep_view().len() == keys@.len());
    }
    let mut out = text::chars_of("DELETE FROM \"");
    text::append_str(&mut out, table);
    let mut params: Vec<SqlValue> = Vec::new();
    proof {
        assert(params.deep_view() =~= Seq::<SqlModel>::empty());
    }
    if keys.len() == 0 {
        text::append_str(&mut out, "\"");
        return Ok(Statement { sql: text::string_of(out.as_slice()), params });
    }
    let ghost wanted = keys.deep_view();
    proof {
        assert(wanted.take(0) =~= Seq::<JsonModel>::empty());
    }
    let mut k: usize = 0;
    while k < keys.len()
        invariant
            k <= keys@.len(),
            wanted == keys.deep_view(),
            wanted == field_values(rows.deep_view(), primary@),
            wanted.len() > 0,
            sql_forms(wanted.take(k as int)) == Ok::<Seq<SqlModel>, ErrorModel>(
                params.deep_view(),
            ),
        decreases keys@.len() - k,
    {
        let ghost before = params.deep_view();
        proof {
            assert(wanted.take(k + 1).drop_last() =~= wanted.take(k as int));
            assert(wanted.take(k + 1).last() == keys@[k as int].model());
        }
        match sql::json_to_sql_value(&keys[k]) {
            Err(e) => {
                proof {
                    lemma_sql_error_stays(wanted, k + 1);
                }
                return Err(e);
            },
            Ok(s) => {
                params.push(s);
                proof {
                    assert(params.deep_view() =~= before.push(s.deep_view()));
                }
            },
        }
        k += 1;
    }
    proof {
        assert(wanted.take(k as int) =~= wanted);
    }
    text::append_str(&mut out, "\" WHERE \"");
    text::append_str(&mut out, primary);
    text::append_str(&mut out, "\" NOT IN (");
    text::append(&mut out, import::question_marks(keys.len()).as_slice());
    text::append_str(&mut out, ")");
    Ok(Statement { sql: text::string_of(out.as_slice()), params })
}

/// Lists the system settings to remove.
pub fn delete_missing_settings(
    existing: &Vec<String>,
    rows: &Vec<Json>,
    requested: &Vec<String>,
) -> (r: Vec<String>)
    ensures
        r.deep_view() == codes_to_remove(
            existing.deep_view(),
            rows.deep_view(),
            requested.deep_view(),
        ),
{
    let ghost all = rows.deep_view();
    let ghost f = |row: JsonModel| json::as_text(field_of(row, "setting_code"@));
    let mut incoming: Vec<String> = Vec::new();
    proof {
        assert(incoming.deep_view() =~= all.take(0).filter_map(f));
    }
    let mut i: usize = 0;
    while i < rows.len()
        invariant
            i <= rows@.len(),
            all == rows.deep_view(),
            f == (|row: JsonModel| json::as_text(field_of(row, "setting_code"@))),
            incoming.deep_view() == all.take(i as int).filter_map(f),
        decreases rows@.len() - i,
    {
        let ghost before = incoming.deep_view();
        proof {
            all.lemma_filter_map_take_succ(f, i as int);
            assert(all[i as int] == rows@[i as int].model());
        }
        match find_field(&rows[i], "setting_code") {
            Some(Json::Str(s)) => {
                let code = s.clone();
                incoming.push(code);
                proof {
                    assert(incoming.deep_view() =~= before + seq![code@]);
                }
            },
            _ => {
                assert(before + Seq::empty() =~= before);
            },
        }
        i += 1;
    }
    proof {
        assert(all.take(i as int) =~= all);
    }
    let ghost there = existing.deep_view();
    let ghost p = |code: Seq<char>|
        requested.deep_view().contains(config::section_of(code)) && !package_codes(all).contains(
            code,
        );
    let mut r: Vec<String> = Vec::new();
    proof {
        assert(r.deep_view() =~= there.take(0).filter(p));
        assert(incoming.deep_view() == package_codes(all));
    }
    let mut k: usize = 0;
    while k < existing.len()
        invariant
            k <= existing@.len(),
            there == existing.deep_view(),
            incoming.deep_view() == package_codes(all),
            p == (|code: Seq<char>|
                requested.deep_view().contains(config::section_of(code)) && !package_codes(
                    all,
                ).contains(code)),
            r.deep_view() == there.take(k as int).filter(p),
        decreases existing@.len() - k,
    {
        let ghost before = r.deep_view();
        let code = existing[k].as_str();
        proof {
            assert(there.take(k + 1).drop_last() =~= there.take(k as int));
            assert(there.take(k + 1).last() == code@);
            reveal_with_fuel(Seq::filter, 2);
        }
        if config::has_name(requested, config::setting_section(code)) && !config::has_name(
            &incoming,
            code,
        ) {
            let s = existing[k].clone();
            r.push(s);
            proof {
                assert(r.deep_view() =~= before.push(s@));
            }
        }
        k += 1;
    }
    proof {
        assert(there.take(k as int) =~= there);
    }
    r
}

// ---------------------------------------------------------------------
// The steps
// ---------------------------------------------------------------------

/// What the database is asked to do.
pub enum ImportAction {
    /// Describe a table: the name of each column and its place in the
    /// primary key.
    ReadColumns { table: String },
    /// Read one row.
    ReadRow { table: String, sql: String, key: SqlValue },
    /// Execute a statement on a table.
    Execute { table: String, statement: Statement },
    /// List the codes of all system settings.
    ReadSettingCodes,
    /// Make the changes durable. Nothing follows.
    Commit,
}

/// The mathematical form of an action.
pub enum ImportActionModel {
    ReadColumns { table: Seq<char> },
    ReadRow { table: Seq<char>, sql: Seq<char>, key: SqlModel },
    Execute { table: Seq<char>, statement: StatementModel },
    ReadSettingCodes,
    Commit,
}

impl DeepView for ImportAction {
    type V = ImportActionModel;

    open spec fn deep_view(&self) -> ImportActionModel {
        match self {
            ImportAction::ReadColumns { table } => ImportActionModel::ReadColumns { table: table@ },
            ImportAction::ReadRow { table, sql, key } => ImportActionModel::ReadRow {
                table: table@,
                sql: sql@,
                key: key.deep_view(),
            },
            ImportAction::Execute { table, statement } => ImportActionModel::Execute {
                table: table@,
                statement: statement.deep_view(),
            },
            ImportAction::ReadSettingCodes => ImportActionModel::ReadSettingCodes,
            ImportAction::Commit => ImportActionModel::Commit,
        }
    }
}

/// What the database answered.
pub enum ImportEvent {
    Started,
    Columns(Vec<(String, i64)>),
    Row(Option<Vec<(String, SqlValue)>>),
    Executed,
    SettingCodes(Vec<String>),
}

/// The mathematical form of an answer.
pub enum ImportEventModel {
    Started,
    Columns(Seq<(Seq<char>, i64)>),
    Row(Option<Seq<(Seq<char>, SqlModel)>>),
    Executed,
    SettingCodes(Seq<Seq<char>>),
}

impl DeepView for ImportEvent {
    type V = ImportEventModel;

    open spec fn deep_view(&self) -> ImportEventModel {
        match self {
            ImportEvent::Started => ImportEventModel::Started,
            ImportEvent::Columns(info) => ImportEventModel::Columns(info.deep_view()),
            ImportEvent::Row(row) => ImportEventModel::Row(row.deep_view()),
            ImportEvent::Executed => ImportEventModel::Executed,
            ImportEvent::SettingCodes(codes) => ImportEventModel::SettingCodes(codes.deep_view()),
        }
    }
}

/// How far an import has come: which answer it waits for.
pub enum Place {
    /// Nothing was asked yet.
    Start,
    /// The description of a table.
    Columns { table: usize },
    /// The row that is there already.
    Row { table: usize, row: usize, columns: Vec<String>, primary: String },
    /// The end of writing a row.
    Written { table: usize, row: usize, columns: Vec<String>, primary: String },
    /// The codes of the system settings.
    Codes { table: usize },
    /// The end of removing a setting; these are still to be removed.
    Removing { table: usize, codes: Vec<String> },
    /// The end of removing rows.
    Removed { table: usize },
    /// The import is done.
    End,
}

/// The mathematical form of a place.
pub enum PlaceModel {
    Start,
    Columns { table: int },
    Row { table: int, row: int, columns: Seq<Seq<char>>, primary: Seq<char> },
    Written { table: int, row: int, columns: Seq<Seq<char>>, primary: Seq<char> },
    Codes { table: int },
    Removing { table: int, codes: Seq<Seq<char>> },
    Removed { table: int },
    End,
}

impl DeepView for Place {
    type V = PlaceModel;

    open spec fn deep_view(&self) -> PlaceModel {
        match self {
            Place::Start => PlaceModel::Start,
            Place::Columns { table } => PlaceModel::Columns { table: *table as int },
            Place::Row { table, row, columns, primary } => PlaceModel::Row {
                table: *table as int,
                row: *row as int,
                columns: columns.deep_view(),
                primary: primary@,
            },
            Place::Written { table, row, columns, primary } => PlaceModel::Written {
                table: *table as int,
                row: *row as int,
                columns: columns.deep_view(),
                primary: primary@,
            },
            Place::Codes { table } => PlaceModel::Codes { table: *table as int },
            Place::Removing { table, codes } => PlaceModel::Removing {
                table: *table as int,
                codes: codes.deep_view(),
            },
            Place::Removed { table } => PlaceModel::Removed { table: *table as int },
            Place::End => PlaceModel::End,
        }
    }
}

/// An import: the package, the sections asked for, and whether rows that
/// the package does not hold are removed.
pub struct ConfigImport {
    pub bundle: ConfigBundle,
    pub requested: Vec<String>,
    pub package_sections: Vec<String>,
    pub replace_selected: bool,
}

/// The mathematical form of an import.
pub struct ConfigImportModel {
    pub format_version: i64,
    pub schema_version: i64,
    pub sections: Seq<Seq<char>>,
    pub contains_secrets: bool,
    pub tables: Seq<(Seq<char>, Seq<JsonModel>)>,
    pub requested: Seq<Seq<char>>,
    pub package_sections: Seq<Seq<char>>,
    pub replace_selected: bool,
}

impl DeepView for ConfigImport {
    type V = ConfigImportModel;

    open spec fn deep_view(&self) -> ConfigImportModel {
        ConfigImportModel {
            format_version: self.bundle.format_version,
            schema_version: self.bundle.schema_version,
            sections: self.bundle.sections.deep_view(),
            contains_secrets: self.bundle.contains_secrets,
            tables: self.bundle.tables.deep_view(),
            requested: self.requested.deep_view(),
            package_sections: self.package_sections.deep_view(),
            replace_selected: self.replace_selected,
        }
    }
}

/// The result of a step: where the import stands, and what is done there.
pub type StepModel = Result<(PlaceModel, ImportActionModel), ErrorModel>;

/// The step at a table: the description of the first table from here on
/// that was asked for, or the end. A table outside the sections of the
/// package is an error.
pub open spec fn at_table(job: ConfigImportModel, t: int) -> StepModel
    decreases job.tables.len() - t,
{
    if t < 0 || t >= job.tables.len() {
        Ok((PlaceModel::End, ImportActionModel::Commit))
    } else {
        let table = job.tables[t].0;
        if !config::allowed(table, job.package_sections) {
            Err(
                error::invalid(
                    "Configuration table is outside the package sections: "@ + table,
                ),
            )
        } else if !config::allowed(table, job.requested) {
            at_table(job, t + 1)
        } else {
            Ok((PlaceModel::Columns { table: t }, ImportActionModel::ReadColumns { table }))
        }
    }
}

/// The step behind the rows of a table: removing rows where that was asked
/// for.
pub open spec fn behind_rows(job: ConfigImportModel, t: int, primary: Seq<char>) -> StepModel {
    let table = job.tables[t].0;
    if !job.replace_selected {
        at_table(job, t + 1)
    } else if table == "system_settings"@ {
        Ok((PlaceModel::Codes { table: t }, ImportActionModel::ReadSettingCodes))
    } else {
        match removal(table, job.tables[t].1, primary) {
            Err(e) => Err(e),
            Ok(statement) => Ok(
                (
                    PlaceModel::Removed { table: t },
                    ImportActionModel::Execute { table, statement },
                ),
            ),
        }
    }
}

/// The step at a row: reading the row that is there already. A row that was
/// not asked for is passed over.
pub open spec fn at_row(
    job: ConfigImportModel,
    t: int,
    r: int,
    columns: Seq<Seq<char>>,
    primary: Seq<char>,
) -> StepModel
    decreases job.tables[t].1.len() - r,
{
    let table = job.tables[t].0;
    if r < 0 || r >= job.tables[t].1.len() {
        behind_rows(job, t, primary)
    } else {
        match import::row_identity(
            table,
            job.tables[t].1[r],
            primary,
            job.package_sections,
            job.requested,
        ) {
            Err(e) => Err(e),
            Ok(None) => at_row(job, t, r + 1, columns, primary),
            Ok(Some(key)) => Ok(
                (
                    PlaceModel::Row { table: t, row: r, columns, primary },
                    ImportActionModel::ReadRow {
                        table,
                        sql: import::select_row(table, import::identity_column(table, primary)),
                        key,
                    },
                ),
            ),
        }
    }
}

/// The step of removing settings one by one.
pub open spec fn at_codes(job: ConfigImportModel, t: int, codes: Seq<Seq<char>>) -> StepModel {
    if codes.len() == 0 {
        at_table(job, t + 1)
    } else {
        Ok(
            (
                PlaceModel::Removing { table: t, codes: codes.skip(1) },
                ImportActionModel::Execute {
                    table: "system_settings"@,
                    statement: StatementModel {
                        sql: "DELETE FROM system_settings WHERE setting_code = ?1"@,
                        params: seq![SqlModel::Text(codes[0])],
                    },
                },
            ),
        )
    }
}

/// The fields of a row of a package.
pub open spec fn package_fields(job: ConfigImportModel, t: int, r: int) -> FieldsModel {
    match job.tables[t].1[r] {
        JsonModel::Object(fields) => fields,
        _ => Seq::empty(),
    }
}

/// Whether an answer is one to what was asked at a place.
pub open spec fn answers(place: PlaceModel, event: ImportEventModel) -> bool {
    match place {
        PlaceModel::Start => event is Started,
        PlaceModel::Columns { .. } => event is Columns,
        PlaceModel::Row { .. } => event matches ImportEventModel::Row(row) && (row matches Some(
            values,
        ) ==> export::row_encodable(values)),
        PlaceModel::Written { .. } => event is Executed,
        PlaceModel::Codes { .. } => event is SettingCodes,
        PlaceModel::Removing { .. } => event is Executed,
        PlaceModel::Removed { .. } => event is Executed,
        PlaceModel::End => false,
    }
}

/// Whether a table of the package was asked for.
pub open spec fn selected(job: ConfigImportModel, t: int) -> bool {
    0 <= t < job.tables.len() && config::allowed(job.tables[t].0, job.package_sections)
        && config::allowed(job.tables[t].0, job.requested)
}

/// Whether a row of the package was asked for: it can be found, and a system
/// setting belongs to a section that was asked for.
pub open spec fn chosen_row(job: ConfigImportModel, t: int, r: int, primary: Seq<char>) -> bool {
    0 <= r < job.tables[t].1.len() && (import::row_identity(
        job.tables[t].0,
        job.tables[t].1[r],
        primary,
        job.package_sections,
        job.requested,
    ) matches Ok(found) && found is Some)
}

/// Whether a place lies in the package, at a table that was asked for and,
/// where rows are written, at a row that was.
pub open spec fn place_ok(job: ConfigImportModel, place: PlaceModel) -> bool {
    match place {
        PlaceModel::Start => true,
        PlaceModel::Columns { table } => selected(job, table),
        PlaceModel::Row { table, row, primary, .. } => selected(job, table) && chosen_row(
            job,
            table,
            row,
            primary,
        ),
        PlaceModel::Written { table, row, primary, .. } => selected(job, table) && chosen_row(
            job,
            table,
            row,
            primary,
        ),
        PlaceModel::Codes { table } => selected(job, table) && job.tables[table].0
            == "system_settings"@,
        PlaceModel::Removing { table, codes } => selected(job, table) && job.tables[table].0
            == "system_settings"@ && codes_requested(job, codes),
        PlaceModel::Removed { table } => selected(job, table),
        PlaceModel::End => true,
    }
}

/// Whether all settings belong to sections that were asked for.
pub open spec fn codes_requested(job: ConfigImportModel, codes: Seq<Seq<char>>) -> bool {
    forall|i: int|
        0 <= i < codes.len() ==> job.requested.contains(config::section_of(#[trigger] codes[i]))
}

/// Whether an action concerns only what was asked for: a table of the
/// sections asked for or, where a system setting is removed, a setting of
/// one of them.
pub open spec fn concerns_selected(job: ConfigImportModel, action: ImportActionModel) -> bool {
    match action {
        ImportActionModel::ReadColumns { table } => config::allowed(table, job.requested),
        ImportActionModel::ReadRow { table, .. } => config::allowed(table, job.requested),
        ImportActionModel::Execute { table, statement } => config::allowed(table, job.requested) && (
        statement.sql == "DELETE FROM system_settings WHERE setting_code = ?1"@ && table
            == "system_settings"@ && statement.params.len() == 1 ==> match statement.params[0] {
            SqlModel::Text(code) => job.requested.contains(config::section_of(code)),
            _ => true,
        }),
        _ => true,
    }
}

/// Whether an action writes no system setting but one whose section was
/// asked for, and that the package may hold: the statement is the one for
/// the row that the import is at, and this is the row of such a setting.
pub open spec fn writes_selected(
    job: ConfigImportModel,
    place: PlaceModel,
    event: ImportEventModel,
    action: ImportActionModel,
) -> bool {
    match (place, event, action) {
        (
            PlaceModel::Row { table, row, columns, primary },
            ImportEventModel::Row(current),
            ImportActionModel::Execute { table: name, statement },
        ) => name == "system_settings"@ && job.tables[table].0 == name ==> {
            let fields = package_fields(job, table, row);
            let section = config::section_of(json::text_field(fields, "setting_code"@));
            let now = match current {
                Some(values) => Some(export::row_object(values)),
                None => None,
            };
            &&& job.requested.contains(section)
            &&& job.package_sections.contains(section)
            &&& import::row_statement(name, primary, fields, columns, now) == Ok::<
                Option<StatementModel>,
                ErrorModel,
            >(Some(statement))
        },
        _ => true,
    }
}

/// The next step of an import, given the answer to the last one.
pub open spec fn next_step(
    job: ConfigImportModel,
    place: PlaceModel,
    event: ImportEventModel,
) -> StepModel {
    match (place, event) {
        (PlaceModel::Start, _) => at_table(job, 0),
        (PlaceModel::Columns { table }, ImportEventModel::Columns(info)) => {
            match import::table_shape(job.tables[table].0, info) {
                Err(e) => Err(e),
                Ok((columns, primary)) => at_row(job, table, 0, columns, primary),
            }
        },
        (
            PlaceModel::Row { table, row, columns, primary },
            ImportEventModel::Row(current),
        ) => {
            let name = job.tables[table].0;
            let now = match current {
                Some(values) => Some(export::row_object(values)),
                None => None,
            };
            match import::row_statement(
                name,
                primary,
                package_fields(job, table, row),
                columns,
                now,
            ) {
                Err(e) => Err(e),
                Ok(None) => at_row(job, table, row + 1, columns, primary),
                Ok(Some(statement)) => Ok(
                    (
                        PlaceModel::Written { table, row, columns, primary },
                        ImportActionModel::Execute { table: name, statement },
                    ),
                ),
            }
        },
        (PlaceModel::Written { table, row, columns, primary }, _) => at_row(
            job,
            table,
            row + 1,
            columns,
            primary,
        ),
        (PlaceModel::Codes { table }, ImportEventModel::SettingCodes(existing)) => at_codes(
            job,
            table,
            codes_to_remove(existing, job.tables[table].1, job.requested),
        ),
        (PlaceModel::Removing { table, codes }, _) => at_codes(job, table, codes),
        (PlaceModel::Removed { table }, _) => at_table(job, table + 1),
        _ => Ok((PlaceModel::End, ImportActionModel::Commit)),
    }
}

proof fn lemma_codes_requested(
    job: ConfigImportModel,
    existing: Seq<Seq<char>>,
    rows: Seq<JsonModel>,
)
    ensures
        codes_requested(job, codes_to_remove(existing, rows, job.requested)),
{
    let p = |code: Seq<char>|
        job.requested.contains(config::section_of(code)) && !package_codes(rows).contains(code);
    let codes = codes_to_remove(existing, rows, job.requested);
    assert(codes == existing.filter(p));
    assert forall|i: int| 0 <= i < codes.len() implies job.requested.contains(
        config::section_of(#[trigger] codes[i]),
    ) by {
        existing.lemma_filter_pred(p, i);
    }
}

proof fn lemma_at_table(job: ConfigImportModel, t: int)
    ensures
        at_table(job, t) matches Ok((place, action)) ==> place_ok(job, place)
            && concerns_selected(job, action),
    decreases job.tables.len() - t,
{
    if 0 <= t < job.tables.len() {
        lemma_at_table(job, t + 1);
    }
}

proof fn lemma_behind_rows(job: ConfigImportModel, t: int, primary: Seq<char>)
    requires
        selected(job, t),
    ensures
        behind_rows(job, t, primary) matches Ok((place, action)) ==> place_ok(job, place)
            && concerns_selected(job, action),
{
    lemma_at_table(job, t + 1);
}

proof fn lemma_at_row(
    job: ConfigImportModel,
    t: int,
    r: int,
    columns: Seq<Seq<char>>,
    primary: Seq<char>,
)
    requires
        selected(job, t),
    ensures
        at_row(job, t, r, columns, primary) matches Ok((place, action)) ==> place_ok(job, place)
            && concerns_selected(job, action),
    decreases job.tables[t].1.len() - r,
{
    if 0 <= r < job.tables[t].1.len() {
        lemma_at_row(job, t, r + 1, columns, primary);
    } else {
        lemma_behind_rows(job, t, primary);
    }
}

proof fn lemma_table_executes_nothing(job: ConfigImportModel, t: int)
    ensures
        at_table(job, t) matches Ok((_, action)) ==> !(action is Execute),
    decreases job.tables.len() - t,
{
    if 0 <= t < job.tables.len() {
        lemma_table_executes_nothing(job, t + 1);
    }
}

/// Going on to a row executes nothing on the settings.
proof fn lemma_row_leaves_settings(
    job: ConfigImportModel,
    t: int,
    r: int,
    columns: Seq<Seq<char>>,
    primary: Seq<char>,
)
    ensures
        at_row(job, t, r, columns, primary) matches Ok((_, action)) ==> (action matches
            ImportActionModel::Execute { table, .. } ==> table != "system_settings"@),
    decreases job.tables[t].1.len() - r,
{
    if 0 <= r < job.tables[t].1.len() {
        lemma_row_leaves_settings(job, t, r + 1, columns, primary);
    } else {
        lemma_table_executes_nothing(job, t + 1);
    }
}

proof fn lemma_at_codes(job: ConfigImportModel, t: int, codes: Seq<Seq<char>>)
    requires
        selected(job, t),
        job.tables[t].0 == "system_settings"@,
        codes_requested(job, codes),
    ensures
        at_codes(job, t, codes) matches Ok((place, action)) ==> place_ok(job, place)
            && concerns_selected(job, action),
{
    lemma_at_table(job, t + 1);
    if codes.len() > 0 {
        assert forall|i: int| 0 <= i < codes.skip(1).len() implies job.requested.contains(
            config::section_of(#[trigger] codes.skip(1)[i]),
        ) by {
            assert(codes.skip(1)[i] == codes[i + 1]);
        }
        assert(job.requested.contains(config::section_of(codes[0])));
    }
}

proof fn lemma_upsert_begins(
    table: Seq<char>,
    identity: Seq<char>,
    given: Seq<(Seq<char>, SqlModel)>,
)
    ensures
        import::upsert(table, identity, given).sql
            != "DELETE FROM system_settings WHERE setting_code = ?1"@,
{
    reveal_strlit("INSERT INTO \"");
    reveal_strlit("DELETE FROM system_settings WHERE setting_code = ?1");
    let sql = import::upsert(table, identity, given).sql;
    let all = import::with_demanded(table, given);
    let a = "INSERT INTO \""@ + table;
    let b = a + "\" ("@ + text::joined(
        all.map_values(|v: (Seq<char>, SqlModel)| import::quoted_name(v.0)),
        ", "@,
    );
    let c = b + ") VALUES ("@ + import::placeholders(all.len()) + ") ON CONFLICT(\""@ + identity;
    assert(a[0] == 'I');
    assert(b[0] == 'I');
    assert(c[0] == 'I');
    assert(sql[0] == 'I');
    assert("DELETE FROM system_settings WHERE setting_code = ?1"@[0] == 'D');
}

/// An import touches only what was asked for: every statement of every step
/// concerns a table of the sections asked for, and a system setting is
/// written or removed only where its section was asked for. Rows are written
/// with upserts only, so nothing else is removed one by one.
pub proof fn law_import_stays_in_sections(
    job: ConfigImportModel,
    place: PlaceModel,
    event: ImportEventModel,
)
    requires
        place_ok(job, place),
        answers(place, event),
    ensures
        next_step(job, place, event) matches Ok((next, action)) ==> place_ok(job, next)
            && concerns_selected(job, action) && writes_selected(job, place, event, action),
{
    match (place, event) {
        (PlaceModel::Start, _) => lemma_at_table(job, 0),
        (PlaceModel::Columns { table }, ImportEventModel::Columns(info)) => {
            match import::table_shape(job.tables[table].0, info) {
                Err(_) => {},
                Ok((columns, primary)) => lemma_at_row(job, table, 0, columns, primary),
            }
        },
        (PlaceModel::Row { table, row, columns, primary }, ImportEventModel::Row(current)) => {
            lemma_at_row(job, table, row + 1, columns, primary);
            lemma_row_leaves_settings(job, table, row + 1, columns, primary);
            let name = job.tables[table].0;
            let now = match current {
                Some(values) => Some(export::row_object(values)),
                None => None,
            };
            let fields = package_fields(job, table, row);
            match import::row_values(name, fields, columns, now) {
                Ok(given) => lemma_upsert_begins(
                    name,
                    import::identity_column(name, primary),
                    given,
                ),
                Err(_) => {},
            }
        },
        (PlaceModel::Written { table, row, columns, primary }, _) => {
            lemma_at_row(job, table, row + 1, columns, primary);
        },
        (PlaceModel::Codes { table }, ImportEventModel::SettingCodes(existing)) => {
            lemma_codes_requested(job, existing, job.tables[table].1);
            lemma_at_codes(
                job,
                table,
                codes_to_remove(existing, job.tables[table].1, job.requested),
            );
        },
        (PlaceModel::Removing { table, codes }, _) => lemma_at_codes(job, table, codes),
        (PlaceModel::Removed { table }, _) => lemma_at_table(job, table + 1),
        _ => {},
    }
}

/// The table that an import is at.
pub open spec fn table_at(job: ConfigImportModel, place: PlaceModel) -> int {
    match place {
        PlaceModel::Start => -1,
        PlaceModel::Columns { table } => table,
        PlaceModel::Row { table, .. } => table,
        PlaceModel::Written { table, .. } => table,
        PlaceModel::Codes { table } => table,
        PlaceModel::Removing { table, .. } => table,
        PlaceModel::Removed { table } => table,
        PlaceModel::End => job.tables.len() as int,
    }
}

/// What an import does at a table: it reads the columns, goes through the
/// rows, reads the codes, and removes.
pub open spec fn phase_at(place: PlaceModel) -> int {
    match place {
        PlaceModel::Row { .. } => 1,
        PlaceModel::Written { .. } => 1,
        PlaceModel::Codes { .. } => 2,
        PlaceModel::Removing { .. } => 3,
        PlaceModel::Removed { .. } => 3,
        _ => 0,
    }
}

/// How far an import has come with that.
pub open spec fn count_at(place: PlaceModel) -> int {
    match place {
        PlaceModel::Row { row, .. } => 2 * row,
        PlaceModel::Written { row, .. } => 2 * row + 1,
        PlaceModel::Removing { codes, .. } => -codes.len(),
        _ => 0,
    }
}

/// Whether one place comes after another: at a later table, or later at the
/// same table.
pub open spec fn is_later(job: ConfigImportModel, one: PlaceModel, next: PlaceModel) -> bool {
    table_at(job, one) < table_at(job, next) || (table_at(job, one) == table_at(job, next) && (
    phase_at(one) < phase_at(next) || (phase_at(one) == phase_at(next) && count_at(one) < count_at(
        next,
    ))))
}

proof fn lemma_table_is_not_before(job: ConfigImportModel, t: int)
    requires
        0 <= t <= job.tables.len(),
    ensures
        at_table(job, t) matches Ok((place, _)) ==> t <= table_at(job, place),
    decreases job.tables.len() - t,
{
    if t < job.tables.len() {
        lemma_table_is_not_before(job, t + 1);
    }
}

proof fn lemma_row_is_not_before(
    job: ConfigImportModel,
    t: int,
    r: int,
    columns: Seq<Seq<char>>,
    primary: Seq<char>,
)
    requires
        selected(job, t),
        0 <= r,
    ensures
        at_row(job, t, r, columns, primary) matches Ok((place, _)) ==> t < table_at(job, place) || (t
            == table_at(job, place) && (1 < phase_at(place) || (1 == phase_at(place) && 2 * r
            <= count_at(place)))),
    decreases job.tables[t].1.len() - r,
{
    lemma_table_is_not_before(job, t + 1);
    if r < job.tables[t].1.len() {
        lemma_row_is_not_before(job, t, r + 1, columns, primary);
    }
}

/// An import only goes forward, so it goes through every row once, in order,
/// and comes to an end.
pub proof fn law_import_goes_forward(
    job: ConfigImportModel,
    place: PlaceModel,
    event: ImportEventModel,
)
    requires
        place_ok(job, place),
        answers(place, event),
    ensures
        next_step(job, place, event) matches Ok((next, _)) ==> is_later(job, place, next),
{
    match (place, event) {
        (PlaceModel::Start, _) => lemma_table_is_not_before(job, 0),
        (PlaceModel::Columns { table }, ImportEventModel::Columns(info)) => {
            match import::table_shape(job.tables[table].0, info) {
                Err(_) => {},
                Ok((columns, primary)) => lemma_row_is_not_before(job, table, 0, columns, primary),
            }
        },
        (PlaceModel::Row { table, row, columns, primary }, _) => {
            lemma_row_is_not_before(job, table, row + 1, columns, primary);
        },
        (PlaceModel::Written { table, row, columns, primary }, _) => {
            lemma_row_is_not_before(job, table, row + 1, columns, primary);
        },
        (PlaceModel::Codes { table }, _) => lemma_table_is_not_before(job, table + 1),
        (PlaceModel::Removing { table, codes }, _) => {
            lemma_table_is_not_before(job, table + 1);
        },
        (PlaceModel::Removed { table }, _) => lemma_table_is_not_before(job, table + 1),
        _ => {},
    }
}

/// The mathematical form of a step.
pub open spec fn step_view(r: Result<(Place, ImportAction), StorageError>) -> StepModel {
    match r {
        Ok((place, action)) => Ok((place.deep_view(), action.deep_view())),
        Err(e) => Err(e.deep_view()),
    }
}

impl ConfigImport {
    /// Starts an import of a package that was read. The package is checked
    /// against the sections asked for.
    pub fn begin(bundle: ConfigBundle, requested: Vec<String>, replace_selected: bool) -> (r: Result<
        ConfigImport,
        StorageError,
    >)
        ensures
            match r {
                Ok(job) => import::bundle_error(bundle.deep_view(), requested.deep_view()) is None
                    && job.deep_view() == (ConfigImportModel {
                    format_version: bundle.format_version,
                    schema_version: bundle.schema_version,
                    sections: bundle.deep_view().sections,
                    contains_secrets: bundle.contains_secrets,
                    tables: bundle.deep_view().tables,
                    requested: requested.deep_view(),
                    package_sections: config::name_set(bundle.deep_view().sections),
                    replace_selected,
                }),
                Err(e) => import::bundle_error(bundle.deep_view(), requested.deep_view()) == Some(
                    e.deep_view(),
                ),
            },
    {
        match import::check_bundle(&bundle, &requested) {
            Err(e) => Err(e),
            Ok(_) => {
                let package_sections = config::set_of_names(&bundle.sections);
                Ok(ConfigImport { bundle, requested, package_sections, replace_selected })
            },
        }
    }

    proof fn lemma_table(&self, t: int)
        requires
            0 <= t < self.bundle.tables@.len(),
        ensures
            self.deep_view().tables.len() == self.bundle.tables@.len(),
            self.deep_view().tables[t] == (
                self.bundle.tables@[t].0@,
                self.bundle.tables@[t].1.deep_view(),
            ),
            self.deep_view().tables[t].1.len() == self.bundle.tables@[t].1@.len(),
    {
    }

    fn find_table(&self, start: usize) -> (r: Result<(Place, ImportAction), StorageError>)
        ensures
            step_view(r) == at_table(self.deep_view(), start as int),
            r matches Ok((place, _)) ==> place_ok(self.deep_view(), place.deep_view()),
    {
        let ghost job = self.deep_view();
        let mut t: usize = start;
        while t < self.bundle.tables.len()
            invariant
                job == self.deep_view(),
                at_table(job, start as int) == at_table(job, t as int),
            decreases self.bundle.tables@.len() - t,
        {
            let table = self.bundle.tables[t].0.as_str();
            proof {
                self.lemma_table(t as int);
            }
            if !config::table_allowed(table, &self.package_sections) {
                return Err(
                    invalid_with("Configuration table is outside the package sections: ", table),
                );
            }
            if config::table_allowed(table, &self.requested) {
                return Ok(
                    (
                        Place::Columns { table: t },
                        ImportAction::ReadColumns { table: table.to_string() },
                    ),
                );
            }
            t += 1;
        }
        Ok((Place::End, ImportAction::Commit))
    }

    fn after_rows(&self, t: usize, primary: &str) -> (r: Result<
        (Place, ImportAction),
        StorageError,
    >)
        requires
            selected(self.deep_view(), t as int),
        ensures
            step_view(r) == behind_rows(self.deep_view(), t as int, primary@),
            r matches Ok((place, _)) ==> place_ok(self.deep_view(), place.deep_view()),
    {
        let _count: usize = self.bundle.tables.len();
        proof {
            self.lemma_table(t as int);
        }
        if !self.replace_selected {
            return self.find_table(t + 1);
        }
        let table = self.bundle.tables[t].0.as_str();
        if text::equals(text::chars_of(table).as_slice(), "system_settings") {
            return Ok((Place::Codes { table: t }, ImportAction::ReadSettingCodes));
        }
        match delete_missing_rows(table, &self.bundle.tables[t].1, primary) {
            Err(e) => Err(e),
            Ok(statement) => Ok(
                (
                    Place::Removed { table: t },
                    ImportAction::Execute { table: table.to_string(), statement },
                ),
            ),
        }
    }

    fn find_row(&self, t: usize, start: usize, columns: Vec<String>, primary: String) -> (r: Result<
        (Place, ImportAction),
        StorageError,
    >)
        requires
            selected(self.deep_view(), t as int),
        ensures
            step_view(r) == at_row(
                self.deep_view(),
                t as int,
                start as int,
                columns.deep_view(),
                primary@,
            ),
            r matches Ok((place, _)) ==> place_ok(self.deep_view(), place.deep_view()),
    {
        let ghost job = self.deep_view();
        let mut i: usize = start;
        proof {
            self.lemma_table(t as int);
        }
        while i < self.bundle.tables[t].1.len()
            invariant
                t < self.bundle.tables@.len(),
                selected(job, t as int),
                job == self.deep_view(),
                job.tables.len() == self.bundle.tables@.len(),
                job.tables[t as int] == (
                    self.bundle.tables@[t as int].0@,
                    self.bundle.tables@[t as int].1.deep_view(),
                ),
                job.tables[t as int].1.len() == self.bundle.tables@[t as int].1@.len(),
                at_row(job, t as int, start as int, columns.deep_view(), primary@) == at_row(
                    job,
                    t as int,
                    i as int,
                    columns.deep_view(),
                    primary@,
                ),
            decreases self.bundle.tables@[t as int].1@.len() - i,
        {
            let table = self.bundle.tables[t].0.as_str();
            proof {
                assert(job.tables[t as int].1[i as int]
                    == self.bundle.tables@[t as int].1@[i as int].model());
            }
            match import::find_identity(
                table,
                &self.bundle.tables[t].1[i],
                primary.as_str(),
                &self.package_sections,
                &self.requested,
            ) {
                Err(e) => {
                    return Err(e);
                },
                Ok(None) => {},
                Ok(Some(key)) => {
                    let identity = import::conflict_column(table, primary.as_str());
                    let action = ImportAction::ReadRow {
                        table: table.to_string(),
                        sql: import::write_select(table, identity.as_str()),
                        key,
                    };
                    return Ok((Place::Row { table: t, row: i, columns, primary }, action));
                },
            }
            i += 1;
        }
        self.after_rows(t, primary.as_str())
    }

    fn remove_code(&self, t: usize, codes: Vec<String>) -> (r: Result<
        (Place, ImportAction),
        StorageError,
    >)
        requires
            selected(self.deep_view(), t as int),
            self.deep_view().tables[t as int].0 == "system_settings"@,
            codes_requested(self.deep_view(), codes.deep_view()),
        ensures
            step_view(r) == at_codes(self.deep_view(), t as int, codes.deep_view()),
            r matches Ok((place, _)) ==> place_ok(self.deep_view(), place.deep_view()),
    {
        let mut rest = codes;
        let _count: usize = self.bundle.tables.len();
        proof {
            self.lemma_table(t as int);
        }
        if rest.len() == 0 {
            return self.find_table(t + 1);
        }
        let code = rest.remove(0);
        let mut params: Vec<SqlValue> = Vec::new();
        params.push(SqlValue::Text(code));
        let statement = Statement {
            sql: "DELETE FROM system_settings WHERE setting_code = ?1".to_string(),
            params,
        };
        proof {
            assert(rest.deep_view() =~= codes.deep_view().skip(1));
            assert forall|i: int| 0 <= i < rest.deep_view().len() implies self.deep_view().requested.contains(
                config::section_of(#[trigger] rest.deep_view()[i]),
            ) by {
                assert(rest.deep_view()[i] == codes.deep_view()[i + 1]);
            }
            assert(params.deep_view() =~= seq![SqlModel::Text(codes.deep_view()[0])]);
        }
        Ok(
            (
                Place::Removing { table: t, codes: rest },
                ImportAction::Execute { table: "system_settings".to_string(), statement },
            ),
        )
    }

    /// The next step of the import, given the answer to the last one. An
    /// error ends the import; the changes made so far are then undone.
    pub fn apply_config_data(&self, place: Place, event: ImportEvent) -> (r: Result<
        (Place, ImportAction),
        StorageError,
    >)
        requires
            place_ok(self.deep_view(), place.deep_view()),
            answers(place.deep_view(), event.deep_view()),
        ensures
            step_view(r) == next_step(self.deep_view(), place.deep_view(), event.deep_view()),
            r matches Ok((next, _)) ==> place_ok(self.deep_view(), next.deep_view()),
    {
        let _count: usize = self.bundle.tables.len();
        match (place, event) {
            (Place::Start, _) => self.find_table(0),
            (Place::Columns { table }, ImportEvent::Columns(info)) => {
                proof {
                    self.lemma_table(table as int);
                }
                match import::table_columns(self.bundle.tables[table].0.as_str(), &info) {
                    Err(e) => Err(e),
                    Ok((columns, primary)) => self.find_row(table, 0, columns, primary),
                }
            },
            (Place::Row { table, row, columns, primary }, ImportEvent::Row(current)) => {
                proof {
                    self.lemma_table(table as int);
                }
                let name = self.bundle.tables[table].0.as_str();
                let now: Option<Vec<(String, Json)>> = match &current {
                    Some(values) => Some(object_of_row(values)),
                    None => None,
                };
                let none: Vec<(String, Json)> = Vec::new();
                let _row_count: usize = self.bundle.tables[table].1.len();
                let fields: &Vec<(String, Json)> = match &self.bundle.tables[table].1[row] {
                    Json::Object(fields) => fields,
                    _ => &none,
                };
                proof {
                    assert(self.deep_view().tables[table as int].1[row as int]
                        == self.bundle.tables@[table as int].1@[row as int].model());
                    assert(json::field_models(fields@) =~= package_fields(
                        self.deep_view(),
                        table as int,
                        row as int,
                    ));
                }
                match import::write_row(name, primary.as_str(), fields, &columns, &now) {
                    Err(e) => Err(e),
                    Ok(None) => self.find_row(table, row + 1, columns, primary),
                    Ok(Some(statement)) => Ok(
                        (
                            Place::Written { table, row, columns, primary },
                            ImportAction::Execute { table: name.to_string(), statement },
                        ),
                    ),
                }
            },
            (Place::Written { table, row, columns, primary }, _) => {
                proof {
                    self.lemma_table(table as int);
                }
                let _row_count: usize = self.bundle.tables[table].1.len();
                self.find_row(table, row + 1, columns, primary)
            },
            (Place::Codes { table }, ImportEvent::SettingCodes(existing)) => {
                proof {
                    self.lemma_table(table as int);
                }
                let codes = delete_missing_settings(
                    &existing,
                    &self.bundle.tables[table].1,
                    &self.requested,
                );
                proof {
                    lemma_codes_requested(
                        self.deep_view(),
                        existing.deep_view(),
                        self.deep_view().tables[table as int].1,
                    );
                }
                self.remove_code(table, codes)
            },
            (Place::Removing { table, codes }, _) => self.remove_code(table, codes),
            (Place::Removed { table }, _) => self.find_table(table + 1),
            _ => Ok((Place::End, ImportAction::Commit)),
        }
    }
}

} // verus!

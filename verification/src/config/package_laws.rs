//! What holds of a package as a whole: how large it may be, what it says of
//! itself, which columns its tables have and what tells its rows apart; and
//! of the copies of the database.

use vstd::prelude::*;
use crate::config;
use crate::config::backup;
use crate::config::backup::BackupStepModel;
use crate::config::export;
use crate::config::export::FieldsModel;
use crate::config::import;
use crate::config::json;
use crate::config::json::JsonModel;
use crate::config::laws;
use crate::config::redact;
use crate::config::sql;
use crate::config::sql::SqlModel;
use crate::error;
use crate::error::ErrorModel;
use crate::text;

verus! {

// ---------------------------------------------------------------------
// What is asked for
// ---------------------------------------------------------------------

/// A request is accepted where it names at least one section and each name
/// is that of a section; it asks for exactly the names that it holds, each
/// once. A list that cannot be read is refused with the reason.
pub proof fn law_which_sections_are_asked_for(names: Seq<Seq<char>>, why: Seq<char>)
    ensures
        ({
            let asked = config::requested_sections(Ok(names));
            &&& asked is Ok <==> names.len() > 0 && forall|i: int|
                0 <= i < names.len() ==> laws::is_section(#[trigger] names[i])
            &&& asked is Ok ==> forall|x: Seq<char>| #[trigger]
                asked->Ok_0.contains(x) == names.contains(x)
            &&& asked is Ok ==> asked->Ok_0.no_duplicates()
        }),
        config::requested_sections(Err(why)) == Err::<Seq<Seq<char>>, ErrorModel>(
            error::invalid("Invalid data-management sections: "@ + why),
        ),
{
    laws::lemma_first_unknown(names);
    config::law_name_set(names);
    let set = config::name_set(names);
    assert forall|i: int, j: int| 0 <= i < set.len() && 0 <= j < set.len() && i != j implies set[i]
        != set[j] by {
        if i < j {
            crate::order::lemma_before_total(set[i], set[j]);
            assert(crate::order::before(set[i], set[j]));
        } else {
            crate::order::lemma_before_total(set[j], set[i]);
            assert(crate::order::before(set[j], set[i]));
        }
    }
}

// ---------------------------------------------------------------------
// Tables and rows
// ---------------------------------------------------------------------

proof fn lemma_no_key(info: Seq<(Seq<char>, i64)>)
    requires
        forall|j: int| 0 <= j < info.len() ==> (#[trigger] info[j]).1 <= 0,
    ensures
        import::primary_of(info).len() == 0,
    decreases info.len(),
{
    if info.len() > 0 {
        let front = info.drop_last();
        assert forall|j: int| 0 <= j < front.len() implies (#[trigger] front[j]).1 <= 0 by {
            assert(front[j] == info[j]);
        }
        lemma_no_key(front);
        assert(info.last() == info[info.len() - 1]);
    }
}

proof fn lemma_first_key(info: Seq<(Seq<char>, i64)>, i: int)
    requires
        0 <= i < info.len(),
        info[i].1 > 0,
        info[i].0.len() > 0,
        forall|j: int| 0 <= j < i ==> (#[trigger] info[j]).1 <= 0,
    ensures
        import::primary_of(info) == info[i].0,
    decreases info.len(),
{
    let front = info.drop_last();
    if i == info.len() - 1 {
        assert forall|j: int| 0 <= j < front.len() implies (#[trigger] front[j]).1 <= 0 by {
            assert(front[j] == info[j]);
        }
        lemma_no_key(front);
    } else {
        assert(front[i] == info[i]);
        assert forall|j: int| 0 <= j < i implies (#[trigger] front[j]).1 <= 0 by {
            assert(front[j] == info[j]);
        }
        lemma_first_key(front, i);
    }
}

/// The columns of a table are those that the database tells, in its order,
/// and its key is the first column that belongs to the primary key. A table
/// without such a column cannot be imported, and neither can one that holds
/// no configuration.
pub proof fn law_columns_of_tables(table: Seq<char>, info: Seq<(Seq<char>, i64)>, i: int)
    ensures
        ({
            let shape = import::table_shape(table, info);
            let known = config::config_tables().contains(table);
            &&& !known ==> shape is Err
            &&& (forall|j: int| 0 <= j < info.len() ==> (#[trigger] info[j]).1 <= 0) ==> shape is Err
            &&& known && 0 <= i < info.len() && info[i].1 > 0 && info[i].0.len() > 0 && (forall|
                j: int,
            |
                0 <= j < i ==> (#[trigger] info[j]).1 <= 0) ==> {
                &&& shape is Ok
                &&& shape->Ok_0.1 == info[i].0
                &&& shape->Ok_0.0.len() == info.len()
                &&& forall|k: int|
                    0 <= k < info.len() ==> #[trigger] shape->Ok_0.0[k] == info[k].0
            }
        }),
{
    if forall|j: int| 0 <= j < info.len() ==> (#[trigger] info[j]).1 <= 0 {
        lemma_no_key(info);
    }
    if 0 <= i < info.len() && info[i].1 > 0 && info[i].0.len() > 0 && (forall|j: int|
        0 <= j < i ==> (#[trigger] info[j]).1 <= 0) {
        lemma_first_key(info, i);
    }
}

/// A row is told apart by the value of the column that names what it
/// describes, and by the primary key where it does not hold that column. A
/// row with neither is refused, as is one that is no object. A setting of a
/// section that the package does not claim is refused, and one that was not
/// asked for is passed over.
pub proof fn law_what_tells_rows_apart(
    table: Seq<char>,
    row: JsonModel,
    primary: Seq<char>,
    package_sections: Seq<Seq<char>>,
    requested: Seq<Seq<char>>,
)
    ensures
        ({
            let told = import::row_identity(table, row, primary, package_sections, requested);
            match row {
                JsonModel::Object(fields) => {
                    let setting = table == "system_settings"@;
                    let section = config::section_of(json::text_field(fields, "setting_code"@));
                    let named = json::lookup(fields, laws::key_column(table, primary));
                    let keyed = json::lookup(fields, primary);
                    if setting && !package_sections.contains(section) {
                        told is Err
                    } else if setting && !requested.contains(section) {
                        told == Ok::<Option<SqlModel>, ErrorModel>(None)
                    } else {
                        &&& named is None && keyed is None ==> told is Err
                        &&& named is Some ==> (told is Ok <==> sql::sql_form(named->0) is Ok)
                        &&& named is Some && told is Ok ==> told->Ok_0 == Some(
                            sql::sql_form(named->0)->Ok_0,
                        )
                        &&& named is None && keyed is Some ==> (told is Ok <==> sql::sql_form(
                            keyed->0,
                        ) is Ok)
                        &&& named is None && keyed is Some && told is Ok ==> told->Ok_0 == Some(
                            sql::sql_form(keyed->0)->Ok_0,
                        )
                    }
                },
                _ => told is Err,
            }
        }),
{
}

/// A value that hides nothing is taken as it is. What is hidden is filled in
/// from the value that is there: in texts of JSON field by field, and
/// elsewhere the value that is there stays. Where nothing is there, a hidden
/// value is left out, except that a system setting becomes empty.
pub proof fn law_what_stands_in_for_hidden_values(
    table: Seq<char>,
    column: Seq<char>,
    incoming: JsonModel,
    current: Option<FieldsModel>,
)
    ensures
        ({
            let taken = import::incoming_value(table, column, incoming, current);
            let there = match current {
                Some(fields) => json::lookup(fields, column),
                None => None,
            };
            let is_hidden = incoming == JsonModel::Str("__SNOWAPP_REDACTED__"@);
            let none = Ok::<Option<JsonModel>, ErrorModel>(None);
            let whole = Ok::<Option<JsonModel>, ErrorModel>(Some(incoming));
            &&& !redact::redacted_in(incoming) ==> taken == whole
            &&& there is None && !is_hidden ==> taken == whole
            &&& there is None && is_hidden && table == "system_settings"@ && column
                == "setting_value"@ ==> (taken matches Ok(Some(JsonModel::Str(t))) && t.len() == 0)
            &&& there is None && is_hidden && !(table == "system_settings"@ && column
                == "setting_value"@) ==> taken == none
            &&& there is Some && redact::redacted_in(incoming) ==> {
                let both = there->0 is Str && incoming is Str;
                let old_json = json::parsed(there->0->Str_0);
                let new_json = json::parsed(incoming->Str_0);
                &&& both && old_json is Ok && new_json is Ok ==> {
                    let merged = json::printed(redact::merged(old_json->Ok_0, new_json->Ok_0));
                    &&& merged is Ok ==> taken == Ok::<Option<JsonModel>, ErrorModel>(
                        Some(JsonModel::Str(merged->Ok_0)),
                    )
                    &&& merged is Err ==> taken is Err
                }
                &&& both && (old_json is Err || new_json is Err) ==> taken == none
                &&& !both && is_hidden ==> taken == none
                &&& !both && !is_hidden ==> taken == whole
            }
        }),
{
    if incoming == JsonModel::Str("__SNOWAPP_REDACTED__"@) {
        assert(redact::redacted_in(incoming));
    }
}

// ---------------------------------------------------------------------
// The size of a package, and what it says of itself
// ---------------------------------------------------------------------

proof fn lemma_all_kept<A, B>(s: Seq<A>, f: spec_fn(A) -> Option<B>)
    requires
        forall|i: int| 0 <= i < s.len() ==> f(#[trigger] s[i]) is Some,
    ensures
        s.filter_map(f).len() == s.len(),
        forall|i: int| 0 <= i < s.len() ==> s.filter_map(f)[i] == f(#[trigger] s[i])->0,
    decreases s.len(),
{
    reveal(Seq::filter_map);
    if s.len() > 0 {
        let front = s.drop_last();
        assert forall|i: int| 0 <= i < front.len() implies f(#[trigger] front[i]) is Some by {
            assert(front[i] == s[i]);
        }
        lemma_all_kept(front, f);
        assert(f(s[s.len() - 1]) is Some);
        assert(s.filter_map(f) =~= front.filter_map(f).push(f(s.last())->0));
        assert forall|i: int| 0 <= i < s.len() implies s.filter_map(f)[i] == f(#[trigger] s[i])->0 by {
            if i < front.len() {
                assert(front[i] == s[i]);
                assert(front.filter_map(f)[i] == f(front[i])->0);
            }
        }
    }
}

proof fn lemma_no_more_kept<A, B>(s: Seq<A>, f: spec_fn(A) -> Option<B>)
    ensures
        s.filter_map(f).len() <= s.len(),
    decreases s.len(),
{
    reveal(Seq::filter_map);
    if s.len() > 0 {
        lemma_no_more_kept(s.drop_last(), f);
    }
}

/// Each row of a table of configuration comes out, in its place, and at most
/// fifty thousand of them can; of the system settings only those of the
/// sections asked for come out, and the same limit holds of them.
pub proof fn law_how_many_rows_are_exported(
    table: Seq<char>,
    sections: Seq<Seq<char>>,
    include_secrets: bool,
    rows: Seq<Seq<(Seq<char>, SqlModel)>>,
)
    ensures
        ({
            let out = export::exported_table(table, sections, include_secrets, rows);
            &&& rows.len() <= 50000 ==> out is Ok
            &&& out is Ok ==> out->Ok_0.len() <= 50000 && out->Ok_0.len() <= rows.len()
            &&& table != "system_settings"@ ==> (out is Ok <==> rows.len() <= 50000)
            &&& table != "system_settings"@ && out is Ok ==> {
                &&& out->Ok_0.len() == rows.len()
                &&& forall|i: int|
                    0 <= i < rows.len() ==> export::exported_row(
                        table,
                        sections,
                        include_secrets,
                        #[trigger] rows[i],
                    ) == Some(out->Ok_0[i])
            }
        }),
{
    let f = |row: Seq<(Seq<char>, SqlModel)>|
        export::exported_row(table, sections, include_secrets, row);
    lemma_no_more_kept(rows, f);
    if table != "system_settings"@ {
        assert forall|i: int| 0 <= i < rows.len() implies f(#[trigger] rows[i]) is Some by {}
        lemma_all_kept(rows, f);
    }
}

/// A package has the first format, the schema of the database, the sections
/// and the answer to whether it holds secrets that it was asked for.
pub proof fn law_what_a_package_says_of_itself(
    schema_version: i64,
    sections: Seq<Seq<char>>,
    include_secrets: bool,
    stored: Seq<Seq<Seq<(Seq<char>, SqlModel)>>>,
)
    ensures
        export::bundle_of(schema_version, sections, include_secrets, stored) matches Ok(b) ==> {
            &&& b.format_version == 1
            &&& b.schema_version == schema_version
            &&& b.sections == sections
            &&& b.contains_secrets == include_secrets
        },
{
}

/// The text of a package begins with its format and its schema, says whether
/// there are secrets in it, and ends with its tables. A package of more than
/// thirty-two mebibytes is not handed out.
pub proof fn law_text_of_a_package(
    schema_version: i64,
    sections: Seq<Seq<char>>,
    include_secrets: bool,
    stored: Seq<Seq<Seq<(Seq<char>, SqlModel)>>>,
)
    requires
        export::bundle_of(schema_version, sections, include_secrets, stored) is Ok,
    ensures
        ({
            let b = export::bundle_of(schema_version, sections, include_secrets, stored)->Ok_0;
            let names = json::printed(export::names_value(sections));
            let tables = json::printed(export::tables_value(b.tables));
            let out = export::exported(schema_version, sections, include_secrets, stored);
            &&& out is Ok ==> text::byte_len(out->Ok_0) <= 33554432
            &&& names is Err || tables is Err ==> out is Err
            &&& names is Ok && tables is Ok ==> {
                let front = "{\"formatVersion\":1,\"schemaVersion\":"@ + text::signed_decimal(
                    schema_version as int,
                ) + ",\"sections\":"@ + names->Ok_0;
                let secrets = if include_secrets {
                    ",\"containsSecrets\":true"@
                } else {
                    ",\"containsSecrets\":false"@
                };
                let whole = front + secrets + ",\"tables\":"@ + tables->Ok_0 + "}"@;
                &&& out is Ok <==> text::byte_len(whole) <= 33554432
                &&& out is Ok ==> out->Ok_0 == whole
            }
        }),
{
    let b = export::bundle_of(schema_version, sections, include_secrets, stored)->Ok_0;
    let names = json::printed(export::names_value(sections));
    let tables = json::printed(export::tables_value(b.tables));
    if names is Ok && tables is Ok {
        reveal_strlit("{\"formatVersion\":");
        reveal_strlit(",\"schemaVersion\":");
        reveal_strlit("{\"formatVersion\":1,\"schemaVersion\":");
        reveal_strlit(",\"containsSecrets\":");
        reveal_strlit(",\"containsSecrets\":true");
        reveal_strlit(",\"containsSecrets\":false");
        reveal_strlit("true");
        reveal_strlit("false");
        assert(text::signed_decimal(1) =~= seq!['1']);
        let answer = if include_secrets {
            "true"@
        } else {
            "false"@
        };
        let secrets = if include_secrets {
            ",\"containsSecrets\":true"@
        } else {
            ",\"containsSecrets\":false"@
        };
        assert(",\"containsSecrets\":"@ + answer =~= secrets);
        assert("{\"formatVersion\":"@ + text::signed_decimal(1) + ",\"schemaVersion\":"@
            =~= "{\"formatVersion\":1,\"schemaVersion\":"@);
        let front = "{\"formatVersion\":1,\"schemaVersion\":"@ + text::signed_decimal(
            schema_version as int,
        ) + ",\"sections\":"@ + names->Ok_0;
        assert(front + ",\"containsSecrets\":"@ + answer =~= front + secrets);
    }
}

// ---------------------------------------------------------------------
// Copies of the database
// ---------------------------------------------------------------------

/// Without the archive, a copy is done with the database. With it, there has
/// to be a place for the archive, which is copied next; once its size is
/// known, the copy is done and tells of both.
pub proof fn law_copies_of_the_database(
    destination: Seq<char>,
    schema_version: i64,
    size: u64,
    with_archive: bool,
    archive_destination: Option<Seq<char>>,
    archive_size: Option<u64>,
)
    ensures
        ({
            let step = backup::after_copy(
                destination,
                schema_version,
                size,
                with_archive,
                archive_destination,
                archive_size,
            );
            &&& step is Err <==> with_archive && archive_destination is None
            &&& step is Ok ==> match step->Ok_0 {
                BackupStepModel::CopyArchive { destination: next } => with_archive && archive_size
                    is None && archive_destination == Some(next),
                BackupStepModel::Done(info) => {
                    &&& info.database_path == destination
                    &&& info.schema_version == schema_version
                    &&& info.database_size_bytes == size
                    &&& with_archive ==> archive_size is Some
                    &&& with_archive ==> info.archive_database_path == archive_destination
                        && info.archive_database_size_bytes == archive_size
                    &&& !with_archive ==> info.archive_database_path is None
                        && info.archive_database_size_bytes is None
                },
            }
        }),
{
}

} // verus!

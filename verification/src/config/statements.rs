//! What the statements of an import mean: how their text reads, and what
//! they do to the rows of a table.

use vstd::prelude::*;
use crate::config::export::FieldsModel;
use crate::config::import;
use crate::config::job;
use crate::config::json;
use crate::config::json::JsonModel;
use crate::config::sql;
use crate::config::sql::SqlModel;
use crate::error::ErrorModel;
use crate::order;
use crate::text;

verus! {

/// A row of a table: the values of its columns.
pub type RowModel = Map<Seq<char>, SqlModel>;

/// A statement that inserts a row or, where the table has a row of the same
/// identity, assigns columns of that row from columns of the new one.
pub struct UpsertModel {
    pub table: Seq<char>,
    pub columns: Seq<Seq<char>>,
    pub identity: Seq<char>,
    pub assigned: Seq<(Seq<char>, Seq<char>)>,
}

/// How such a statement reads. The new row goes by the name `excluded`.
pub open spec fn upsert_sql(u: UpsertModel) -> Seq<char> {
    "INSERT INTO \""@ + u.table + "\" ("@ + text::joined(
        u.columns.map_values(|c: Seq<char>| "\""@ + c + "\""@),
        ", "@,
    ) + ") VALUES ("@ + text::joined(
        u.columns.map_values(|c: Seq<char>| "?"@),
        ", "@,
    ) + ") ON CONFLICT(\""@ + u.identity + "\") DO UPDATE SET "@ + text::joined(
        u.assigned.map_values(
            |a: (Seq<char>, Seq<char>)| "\""@ + a.0 + "\""@ + " = excluded."@ + ("\""@ + a.1
                + "\""@),
        ),
        ", "@,
    )
}

/// The row that has the given values in the given columns.
pub open spec fn row_of(columns: Seq<Seq<char>>, values: Seq<SqlModel>) -> RowModel
    decreases columns.len(),
{
    if columns.len() == 0 || values.len() != columns.len() {
        Map::empty()
    } else {
        row_of(columns.drop_last(), values.drop_last()).insert(columns.last(), values.last())
    }
}

/// A row after assignments from another.
pub open spec fn with_assigned(
    row: RowModel,
    new: RowModel,
    assigned: Seq<(Seq<char>, Seq<char>)>,
) -> RowModel
    decreases assigned.len(),
{
    if assigned.len() == 0 {
        row
    } else {
        with_assigned(row, new, assigned.drop_last()).insert(
            assigned.last().0,
            new[assigned.last().1],
        )
    }
}

/// Whether two rows have the same value in a column.
pub open spec fn same_identity(a: RowModel, b: RowModel, column: Seq<char>) -> bool {
    a.contains_key(column) && b.contains_key(column) && a[column] == b[column]
}

/// The rows of a table after an upsert.
pub open spec fn upserted(u: UpsertModel, values: Seq<SqlModel>, rows: Seq<RowModel>) -> Seq<RowModel> {
    let new = row_of(u.columns, values);
    if exists|i: int| 0 <= i < rows.len() && same_identity(#[trigger] rows[i], new, u.identity) {
        rows.map_values(
            |row: RowModel|
                if same_identity(row, new, u.identity) {
                    with_assigned(row, new, u.assigned)
                } else {
                    row
                },
        )
    } else {
        rows.push(new)
    }
}

proof fn lemma_row_of(columns: Seq<Seq<char>>, values: Seq<SqlModel>, i: int)
    requires
        values.len() == columns.len(),
        forall|a: int, b: int|
            0 <= a < b < columns.len() ==> #[trigger] columns[a] != #[trigger] columns[b],
    ensures
        0 <= i < columns.len() ==> row_of(columns, values).contains_key(columns[i]) && row_of(
            columns,
            values,
        )[columns[i]] == values[i],
        forall|c: Seq<char>| #[trigger]
            row_of(columns, values).contains_key(c) <==> columns.contains(c),
    decreases columns.len(),
{
    if columns.len() > 0 {
        let front = columns.drop_last();
        assert forall|a: int, b: int| 0 <= a < b < front.len() implies #[trigger] front[a]
            != #[trigger] front[b] by {
            assert(columns[a] != columns[b]);
        }
        lemma_row_of(front, values.drop_last(), i);
        if 0 <= i < front.len() {
            assert(front[i] == columns[i]);
            assert(columns[i] != columns[columns.len() - 1]);
        }
        assert forall|c: Seq<char>| #[trigger]
            row_of(columns, values).contains_key(c) <==> columns.contains(c) by {
            if front.contains(c) {
                let k = choose|k: int| 0 <= k < front.len() && front[k] == c;
                assert(columns[k] == c);
            }
            if c == columns.last() {
                assert(columns[columns.len() - 1] == c);
            }
            if columns.contains(c) && c != columns.last() {
                let k = choose|k: int| 0 <= k < columns.len() && columns[k] == c;
                assert(front[k] == c);
            }
        }
    }
}

/// The assignments that take each of the given columns from the new row.
pub open spec fn each_from_new(given: Seq<(Seq<char>, SqlModel)>) -> Seq<(Seq<char>, Seq<char>)> {
    given.map_values(|v: (Seq<char>, SqlModel)| (v.0, v.0))
}

proof fn lemma_assigned(
    row: RowModel,
    new: RowModel,
    given: Seq<(Seq<char>, SqlModel)>,
    c: Seq<char>,
)
    ensures
        ({
            let out = with_assigned(row, new, each_from_new(given));
            if exists|i: int| 0 <= i < given.len() && (#[trigger] given[i]).0 == c {
                out.contains_key(c) && out[c] == new[c]
            } else {
                out.contains_key(c) == row.contains_key(c) && out[c] == row[c]
            }
        }),
    decreases given.len(),
{
    if given.len() > 0 {
        let front = given.drop_last();
        lemma_assigned(row, new, front, c);
        assert(each_from_new(given).drop_last() =~= each_from_new(front));
        assert(each_from_new(given).last() == (given.last().0, given.last().0));
        if exists|i: int| 0 <= i < front.len() && (#[trigger] front[i]).0 == c {
            let i = choose|i: int| 0 <= i < front.len() && (#[trigger] front[i]).0 == c;
            assert(given[i].0 == c);
        }
        if exists|i: int| 0 <= i < given.len() && (#[trigger] given[i]).0 == c {
            let i = choose|i: int| 0 <= i < given.len() && (#[trigger] given[i]).0 == c;
            if i < front.len() {
                assert(front[i].0 == c);
            }
        }
        if given.last().0 == c {
            assert(given[given.len() - 1].0 == c);
        }
    }
}

/// Whether a column is among those given.
pub open spec fn is_given(given: Seq<(Seq<char>, SqlModel)>, column: Seq<char>) -> bool {
    exists|i: int| 0 <= i < given.len() && (#[trigger] given[i]).0 == column
}

/// A column that a new row needs, where it is not given.
pub open spec fn if_missing(given: Seq<(Seq<char>, SqlModel)>, column: Seq<char>) -> Seq<Seq<char>> {
    if is_given(given, column) {
        Seq::empty()
    } else {
        seq![column]
    }
}

/// The columns that a new row of a table cannot do without, and that no
/// package holds because they mean something on one device alone.
pub open spec fn filled_in(table: Seq<char>, given: Seq<(Seq<char>, SqlModel)>) -> Seq<Seq<char>> {
    if table == "plugins"@ || table == "plugin_marketplaces"@ {
        if_missing(given, "source_path"@) + if_missing(given, "manifest_path"@)
    } else if table == "plugin_components"@ {
        if_missing(given, "origin_path"@)
    } else {
        Seq::empty()
    }
}

/// The statement that is meant for a row.
pub open spec fn meant(
    table: Seq<char>,
    identity: Seq<char>,
    given: Seq<(Seq<char>, SqlModel)>,
) -> UpsertModel {
    UpsertModel {
        table,
        columns: given.map_values(|v: (Seq<char>, SqlModel)| v.0) + filled_in(table, given),
        identity,
        assigned: each_from_new(given),
    }
}

/// The values of a new row: those given, and the empty text for columns that
/// are filled in.
pub open spec fn values_of(table: Seq<char>, given: Seq<(Seq<char>, SqlModel)>) -> Seq<SqlModel> {
    given.map_values(|v: (Seq<char>, SqlModel)| v.1) + filled_in(table, given).map_values(
        |c: Seq<char>| SqlModel::Text(Seq::empty()),
    )
}

proof fn lemma_with_demanded(table: Seq<char>, given: Seq<(Seq<char>, SqlModel)>)
    ensures
        import::with_demanded(table, given) == given + filled_in(table, given).map_values(
            |c: Seq<char>| (c, SqlModel::Text(Seq::<char>::empty())),
        ),
{
    reveal_strlit("source_path");
    reveal_strlit("manifest_path");
    let empty = SqlModel::Text(Seq::<char>::empty());
    let add = |c: Seq<char>| (c, SqlModel::Text(Seq::<char>::empty()));
    let one = import::with_default(given, "source_path"@);
    assert("source_path"@ != "manifest_path"@) by {
        assert("source_path"@[0] != "manifest_path"@[0]);
    }
    assert(import::sets(one, "manifest_path"@) <==> import::sets(given, "manifest_path"@)) by {
        if import::sets(one, "manifest_path"@) {
            let i = choose|i: int|
                0 <= i < one.len() && (#[trigger] one[i]).0 == "manifest_path"@;
            assert(i < given.len());
            assert(given[i].0 == "manifest_path"@);
        }
        if import::sets(given, "manifest_path"@) {
            let i = choose|i: int|
                0 <= i < given.len() && (#[trigger] given[i]).0 == "manifest_path"@;
            assert(one[i] == given[i]);
        }
    }
    assert(import::with_demanded(table, given) =~= given + filled_in(table, given).map_values(
        add,
    ));
}

/// The statement of a row reads as the one that is meant: each given column
/// is assigned from the new row and from nothing else.
pub proof fn law_upsert_reads_as_meant(
    table: Seq<char>,
    identity: Seq<char>,
    given: Seq<(Seq<char>, SqlModel)>,
)
    ensures
        import::upsert(table, identity, given).sql == upsert_sql(meant(table, identity, given)),
        import::upsert(table, identity, given).params == values_of(table, given),
{
    lemma_with_demanded(table, given);
    let all = import::with_demanded(table, given);
    let u = meant(table, identity, given);
    assert(all.map_values(|v: (Seq<char>, SqlModel)| import::quoted_name(v.0))
        =~= u.columns.map_values(|c: Seq<char>| "\""@ + c + "\""@));
    assert(Seq::new(all.len(), |i: int| "?"@) =~= u.columns.map_values(|c: Seq<char>| "?"@));
    assert(given.map_values(|v: (Seq<char>, SqlModel)| import::taken_from_new(v.0))
        =~= u.assigned.map_values(
        |a: (Seq<char>, Seq<char>)| "\""@ + a.0 + "\""@ + " = excluded."@ + ("\""@ + a.1 + "\""@),
    ));
    assert(import::upsert(table, identity, given).params =~= values_of(table, given));
}

/// Whether no column is given twice.
pub open spec fn columns_differ(given: Seq<(Seq<char>, SqlModel)>) -> bool {
    forall|a: int, b: int|
        0 <= a < b < given.len() ==> (#[trigger] given[a]).0 != (#[trigger] given[b]).0
}

proof fn lemma_meant_columns_differ(
    table: Seq<char>,
    identity: Seq<char>,
    given: Seq<(Seq<char>, SqlModel)>,
)
    requires
        columns_differ(given),
    ensures
        ({
            let columns = meant(table, identity, given).columns;
            forall|a: int, b: int|
                0 <= a < b < columns.len() ==> #[trigger] columns[a] != #[trigger] columns[b]
        }),
{
    reveal_strlit("source_path");
    reveal_strlit("manifest_path");
    let columns = meant(table, identity, given).columns;
    let more = filled_in(table, given);
    assert("source_path"@[0] != "manifest_path"@[0]);
    assert forall|a: int, b: int| 0 <= a < b < columns.len() implies #[trigger] columns[a]
        != #[trigger] columns[b] by {
        if b < given.len() {
            assert(given[a].0 != given[b].0);
        } else {
            assert(columns[b] == more[b - given.len()]);
            assert(!is_given(given, columns[b]));
            if a < given.len() {
                assert(given[a].0 == columns[a]);
            } else {
                assert(columns[a] == more[a - given.len()]);
            }
        }
    }
}

/// Importing a row over one of the same identity gives every column of the
/// package its value and leaves all other columns, and all other rows, as
/// they are. Without such a row it is added, with the values of the package.
pub proof fn law_import_writes_the_row(
    table: Seq<char>,
    identity: Seq<char>,
    given: Seq<(Seq<char>, SqlModel)>,
    rows: Seq<RowModel>,
    key: int,
)
    requires
        columns_differ(given),
        0 <= key < given.len(),
        given[key].0 == identity,
    ensures
        ({
            let out = upserted(meant(table, identity, given), values_of(table, given), rows);
            let is_row = |row: RowModel| row.contains_key(identity) && row[identity] == given[key].1;
            if exists|i: int| 0 <= i < rows.len() && is_row(#[trigger] rows[i]) {
                &&& out.len() == rows.len()
                &&& forall|i: int|
                    0 <= i < rows.len() && !is_row(#[trigger] rows[i]) ==> out[i] == rows[i]
                &&& forall|i: int, c: Seq<char>|
                    0 <= i < rows.len() && is_row(#[trigger] rows[i]) && !is_given(given, c) ==> (
                    #[trigger] out[i].contains_key(c) == rows[i].contains_key(c) && out[i][c]
                        == rows[i][c])
                &&& forall|i: int, k: int|
                    0 <= i < rows.len() && is_row(#[trigger] rows[i]) && 0 <= k < given.len()
                        ==> out[i].contains_key((#[trigger] given[k]).0) && out[i][given[k].0]
                        == given[k].1
            } else {
                &&& out.len() == rows.len() + 1
                &&& forall|i: int| 0 <= i < rows.len() ==> out[i] == #[trigger] rows[i]
                &&& forall|k: int|
                    0 <= k < given.len() ==> out.last().contains_key((#[trigger] given[k]).0)
                        && out.last()[given[k].0] == given[k].1
            }
        }),
{
    let u = meant(table, identity, given);
    let values = values_of(table, given);
    let new = row_of(u.columns, values);
    let out = upserted(u, values, rows);
    lemma_meant_columns_differ(table, identity, given);
    assert forall|k: int| 0 <= k < given.len() implies new.contains_key((#[trigger] given[k]).0)
        && new[given[k].0] == given[k].1 by {
        lemma_row_of(u.columns, values, k);
        assert(u.columns[k] == given[k].0);
        assert(values[k] == given[k].1);
    }
    assert(new.contains_key(given[key].0));
    let is_row = |row: RowModel| row.contains_key(identity) && row[identity] == given[key].1;
    assert forall|row: RowModel| same_identity(row, new, identity) == #[trigger] is_row(row) by {}
    if exists|i: int| 0 <= i < rows.len() && is_row(#[trigger] rows[i]) {
        let i = choose|i: int| 0 <= i < rows.len() && is_row(#[trigger] rows[i]);
        assert(same_identity(rows[i], new, identity));
        assert forall|i: int, c: Seq<char>|
            0 <= i < rows.len() && is_row(#[trigger] rows[i]) && !is_given(given, c) implies (
        #[trigger] out[i].contains_key(c) == rows[i].contains_key(c) && out[i][c] == rows[i][c]) by {
            lemma_assigned(rows[i], new, given, c);
        }
        assert forall|i: int, k: int|
            0 <= i < rows.len() && is_row(#[trigger] rows[i]) && 0 <= k < given.len() implies out[i]
            .contains_key((#[trigger] given[k]).0) && out[i][given[k].0] == given[k].1 by {
            lemma_assigned(rows[i], new, given, given[k].0);
        }
    } else {
        assert forall|i: int| 0 <= i < rows.len() implies !same_identity(
            #[trigger] rows[i],
            new,
            u.identity,
        ) by {
            assert(!is_row(rows[i]));
        }
        assert(out == rows.push(new));
    }
}

// ---------------------------------------------------------------------
// What a row of a package gives
// ---------------------------------------------------------------------

/// Whether a column means something on one device alone.
pub open spec fn is_of_device(column: Seq<char>) -> bool {
    ||| column == "source_path"@
    ||| column == "manifest_path"@
    ||| column == "cache_path"@
    ||| column == "target_path"@
    ||| column == "origin_path"@
    ||| column == "path"@
}

/// Whether values give a column, and with which value.
pub open spec fn gives(
    values: Seq<(Seq<char>, SqlModel)>,
    column: Seq<char>,
    value: SqlModel,
) -> bool {
    exists|k: int| 0 <= k < values.len() && #[trigger] values[k] == (column, value)
}

/// A row of a package gives the columns that the table has, without those of
/// a device: each field that hides nothing gives its value, in the form of
/// the database, and no column is given twice or without a field.
pub proof fn law_row_gives_its_fields(
    table: Seq<char>,
    fields: FieldsModel,
    columns: Seq<Seq<char>>,
    current: Option<FieldsModel>,
)
    requires
        json::names_in_order(fields),
        import::row_values(table, fields, columns, current) is Ok,
    ensures
        ({
            let values = import::row_values(table, fields, columns, current)->Ok_0;
            &&& columns_differ(values)
            &&& forall|i: int|
                0 <= i < fields.len() && columns.contains((#[trigger] fields[i]).0)
                    && !is_of_device(fields[i].0) && !crate::config::redact::redacted_in(fields[i].1)
                    ==> sql::sql_form(fields[i].1) is Ok && gives(
                    values,
                    fields[i].0,
                    sql::sql_form(fields[i].1)->Ok_0,
                )
            &&& forall|k: int|
                0 <= k < values.len() ==> columns.contains((#[trigger] values[k]).0)
                    && !is_of_device(values[k].0) && exists|i: int|
                    0 <= i < fields.len() && (#[trigger] fields[i]).0 == values[k].0
        }),
    decreases fields.len(),
{
    let values = import::row_values(table, fields, columns, current)->Ok_0;
    if fields.len() > 0 {
        let front = fields.drop_last();
        assert(json::names_in_order(front)) by {
            assert forall|i: int, j: int| 0 <= i < j < front.len() implies order::before(
                (#[trigger] front[i]).0,
                (#[trigger] front[j]).0,
            ) by {
                assert(order::before(fields[i].0, fields[j].0));
            }
        }
        law_row_gives_its_fields(table, front, columns, current);
        let before = import::row_values(table, front, columns, current)->Ok_0;
        let last = fields.last();
        let n = fields.len() - 1;
        assert forall|k: int| 0 <= k < before.len() implies (#[trigger] before[k]).0 != last.0 by {
            let i = choose|i: int| 0 <= i < front.len() && (#[trigger] front[i]).0 == before[k].0;
            assert(order::before(fields[i].0, fields[n].0));
            order::lemma_before_total(fields[i].0, fields[n].0);
        }
        assert(values == before || (values.len() == before.len() + 1 && values.drop_last()
            =~= before && values.last().0 == last.0));
        assert(columns_differ(values)) by {
            assert forall|a: int, b: int| 0 <= a < b < values.len() implies (#[trigger] values[a]).0
                != (#[trigger] values[b]).0 by {
                if b < before.len() {
                    assert(before[a].0 != before[b].0);
                } else {
                    assert(values[a] == before[a]);
                }
            }
        }
        assert forall|i: int|
            0 <= i < fields.len() && columns.contains((#[trigger] fields[i]).0) && !is_of_device(
                fields[i].0,
            ) && !crate::config::redact::redacted_in(fields[i].1) implies sql::sql_form(
            fields[i].1,
        ) is Ok && gives(values, fields[i].0, sql::sql_form(fields[i].1)->Ok_0) by {
            if i < n {
                assert(front[i] == fields[i]);
                let s = sql::sql_form(fields[i].1)->Ok_0;
                assert(gives(before, fields[i].0, s));
                let k = choose|k: int|
                    0 <= k < before.len() && #[trigger] before[k] == (fields[i].0, s);
                assert(values[k] == before[k]);
            } else {
                assert(values[before.len() as int].0 == last.0);
            }
        }
        assert forall|k: int| 0 <= k < values.len() implies columns.contains(
            (#[trigger] values[k]).0,
        ) && !is_of_device(values[k].0) && exists|i: int|
            0 <= i < fields.len() && (#[trigger] fields[i]).0 == values[k].0 by {
            if k < before.len() {
                assert(values[k] == before[k]);
                let i = choose|i: int|
                    0 <= i < front.len() && (#[trigger] front[i]).0 == before[k].0;
                assert(fields[i].0 == values[k].0);
            } else {
                assert(fields[n].0 == values[k].0);
            }
        }
    }
}

/// Values that the database holds come back from their JSON form: numbers
/// and texts as they are, unless a text looks like bytes.
pub proof fn law_values_read_back(v: SqlModel)
    requires
        v matches SqlModel::Text(s) ==> !exists|rest: Seq<char>| s == #[trigger] ("base64:"@ + rest),
        !(v is Blob),
        v != SqlModel::Real(None),
    ensures
        sql::sql_form(sql::json_form(v)) == Ok::<SqlModel, ErrorModel>(v),
{
    if let SqlModel::Text(s) = v {
        crate::text_laws::law_occurrences(s, "base64:"@);
    }
}

/// What values of JSON become in the database: nothing stays nothing, truth
/// becomes a number, a number a number, and a text a text. Lists and objects
/// become nothing.
pub proof fn law_simple_values_are_taken(n: i64, u: u64, b: bool, s: Seq<char>)
    ensures
        sql::sql_form(JsonModel::Null) == Ok::<SqlModel, ErrorModel>(SqlModel::Null),
        sql::sql_form(JsonModel::Bool(b)) == Ok::<SqlModel, ErrorModel>(
            SqlModel::Integer(
                if b {
                    1
                } else {
                    0
                },
            ),
        ),
        sql::sql_form(JsonModel::Int(n)) == Ok::<SqlModel, ErrorModel>(SqlModel::Integer(n)),
        u <= i64::MAX ==> sql::sql_form(JsonModel::UInt(u)) == Ok::<SqlModel, ErrorModel>(
            SqlModel::Integer(u as i64),
        ),
        sql::sql_form(JsonModel::Float(s)) == Ok::<SqlModel, ErrorModel>(SqlModel::Real(Some(s))),
        (forall|rest: Seq<char>| s != #[trigger] ("base64:"@ + rest)) ==> sql::sql_form(
            JsonModel::Str(s),
        ) == Ok::<SqlModel, ErrorModel>(SqlModel::Text(s)),
        forall|items: Seq<JsonModel>| #[trigger] sql::sql_form(JsonModel::Array(items)) is Err,
        forall|fields: FieldsModel| #[trigger] sql::sql_form(JsonModel::Object(fields)) is Err,
{
    crate::text_laws::law_occurrences(s, "base64:"@);
}

// ---------------------------------------------------------------------
// Removing
// ---------------------------------------------------------------------

/// A statement that removes the rows of a table whose value in a column is
/// none of the given ones, or all rows.
pub open spec fn delete_sql(table: Seq<char>, column: Seq<char>, values: nat) -> Seq<char> {
    if values == 0 {
        "DELETE FROM \""@ + table + "\""@
    } else {
        "DELETE FROM \""@ + table + "\" WHERE \""@ + column + "\" NOT IN ("@ + text::joined(
            Seq::new(values, |i: int| "?"@),
            ", "@,
        ) + ")"@
    }
}

/// Whether a row of a table stays when a package replaces the table: the
/// package has a row with the same key.
pub open spec fn is_in_package(row: RowModel, rows: Seq<JsonModel>, primary: Seq<char>) -> bool {
    exists|i: int|
        0 <= i < rows.len() && (#[trigger] rows[i] matches JsonModel::Object(fields)
            && json::lookup(fields, primary) is Some && sql::sql_form(
            json::lookup(fields, primary)->0,
        ) == Ok::<SqlModel, ErrorModel>(row[primary]))
}

proof fn lemma_sql_forms(values: Seq<JsonModel>)
    ensures
        job::sql_forms(values) matches Ok(out) ==> out.len() == values.len() && forall|i: int|
            0 <= i < out.len() ==> sql::sql_form(values[i]) == Ok::<SqlModel, ErrorModel>(
                #[trigger] out[i],
            ),
    decreases values.len(),
{
    if values.len() > 0 {
        lemma_sql_forms(values.drop_last());
    }
}

/// Replacing a table removes exactly the rows whose key no row of the
/// package has: the statement names the keys that stay.
pub proof fn law_rows_missing_in_the_package_go(
    table: Seq<char>,
    rows: Seq<JsonModel>,
    primary: Seq<char>,
    row: RowModel,
)
    requires
        job::removal(table, rows, primary) is Ok,
        row.contains_key(primary),
    ensures
        ({
            let statement = job::removal(table, rows, primary)->Ok_0;
            &&& statement.sql == delete_sql(table, primary, statement.params.len())
            &&& statement.params.contains(row[primary]) <==> is_in_package(row, rows, primary)
        }),
{
    let statement = job::removal(table, rows, primary)->Ok_0;
    let f = |r: JsonModel| job::field_of(r, primary);
    let keys = job::field_values(rows, primary);
    assert(keys == rows.filter_map(f));
    lemma_sql_forms(keys);
    let value = row[primary];
    if keys.len() > 0 {
        assert(statement.params.len() == keys.len());
        assert(statement.sql == delete_sql(table, primary, keys.len()));
    }
    if statement.params.contains(value) {
        let k = choose|k: int|
            0 <= k < statement.params.len() && statement.params[k] == value;
        assert(keys.contains(keys[k]));
        crate::rows::lemma_filter_map_contains(rows, f, keys[k]);
        let i = choose|i: int| 0 <= i < rows.len() && f(#[trigger] rows[i]) == Some(keys[k]);
        assert(rows[i] is Object);
    }
    if is_in_package(row, rows, primary) {
        let i = choose|i: int|
            0 <= i < rows.len() && (#[trigger] rows[i] matches JsonModel::Object(fields)
                && json::lookup(fields, primary) is Some && sql::sql_form(
                json::lookup(fields, primary)->0,
            ) == Ok::<SqlModel, ErrorModel>(value));
        let key = f(rows[i])->0;
        assert(f(rows[i]) == Some(key));
        crate::rows::lemma_filter_map_contains(rows, f, key);
        assert(keys.contains(key));
        let k = choose|k: int| 0 <= k < keys.len() && keys[k] == key;
        assert(statement.params[k] == value);
    }
}

} // verus!

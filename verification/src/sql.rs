//! The backend capability layer: a dialect selector and, behind trusted
//! wrappers, `rorm_sql`'s statement builders. Each wrapper renders one DDL
//! statement kind; the rendering is a pure function of the dialect and the
//! wrapper's arguments. The simple renderings are stated outright; the
//! column-bearing ones are named by uninterpreted spec functions.

use vstd::prelude::*;

use rorm_sql::DBImpl;
use rorm_sql::alter_table::{AlterTable, AlterTableOperation};
use rorm_sql::create_table::CreateTable;
use rorm_sql::drop_table::DropTable;

use crate::declaration::Field;

verus! {

/// The SQL dialect a migration is compiled for.
#[derive(Clone, Copy, PartialEq, Eq, Structural, Debug)]
pub enum Dialect {
    /// Postgres flavour of DDL
    Postgres,
}

/// The character sequences of a vector of rendered statements.
pub open spec fn views_of(v: Seq<String>) -> Seq<Seq<char>> {
    v.map_values(|s: String| s@)
}

/// The statements `rorm_sql` renders for a CREATE TABLE with the given
/// columns, or the error text it rejects them with.
pub uninterp spec fn create_table_stmts(d: Dialect, table: Seq<char>, fields: Seq<Field>) -> Result<
    Seq<Seq<char>>,
    Seq<char>,
>;

/// The statements `rorm_sql` renders for an ALTER TABLE .. ADD COLUMN with
/// the given column, or the error text it rejects it with.
pub uninterp spec fn add_column_stmts(d: Dialect, table: Seq<char>, field: Field) -> Result<
    Seq<Seq<char>>,
    Seq<char>,
>;

/// The one statement `rorm_sql` renders for an ALTER TABLE .. RENAME TO.
pub open spec fn rename_table_stmt(d: Dialect, old: Seq<char>, new: Seq<char>) -> Seq<char> {
    match d {
        Dialect::Postgres => "ALTER TABLE \""@ + old + "\" RENAME TO \""@ + new + "\";"@,
    }
}

/// The one statement `rorm_sql` renders for an ALTER TABLE .. RENAME COLUMN.
pub open spec fn rename_column_stmt(
    d: Dialect,
    table: Seq<char>,
    old: Seq<char>,
    new: Seq<char>,
) -> Seq<char> {
    match d {
        Dialect::Postgres => "ALTER TABLE \""@ + table + "\" RENAME COLUMN \""@ + old
            + "\" TO \""@ + new + "\";"@,
    }
}

/// The one statement `rorm_sql` renders for an ALTER TABLE .. DROP COLUMN.
pub open spec fn drop_column_stmt(d: Dialect, table: Seq<char>, column: Seq<char>) -> Seq<char> {
    match d {
        Dialect::Postgres => "ALTER TABLE \""@ + table + "\" DROP COLUMN \""@ + column
            + "\";"@,
    }
}

/// The one statement `rorm_sql` renders for a DROP TABLE.
pub open spec fn drop_table_stmt(d: Dialect, table: Seq<char>) -> Seq<char> {
    match d {
        Dialect::Postgres => "DROP TABLE \""@ + table + "\";"@,
    }
}

/// Relies on `rorm_sql`'s `DBImpl::{create_table, create_column}` and
/// `CreateTable::{add_column, build}`: the rendering depends on the dialect,
/// the table name and the column data alone. The builder's concrete type
/// cannot be named outside `rorm_sql` (`create_table` returns `impl
/// CreateTable`), so feeding it the columns stands beside the calls in this
/// one body. `build` subtracts one from the column count, so at least one
/// column is required of the caller.
#[verifier::external_body]
pub(crate) fn build_create_table(d: &Dialect, table: &String, fields: &Vec<Field>) -> (r: Result<
    Vec<String>,
    String,
>)
    requires
        fields@.len() > 0,
    ensures
        match r {
            Ok(v) => create_table_stmts(*d, table@, fields@) == Ok::<Seq<Seq<char>>, Seq<char>>(
                views_of(v@),
            ),
            Err(e) => create_table_stmts(*d, table@, fields@) == Err::<Seq<Seq<char>>, Seq<char>>(
                e@,
            ),
        },
{
    let db = match d {
        Dialect::Postgres => DBImpl::Postgres,
    };
    let mut t = db.create_table(table.as_str());
    for f in fields.iter() {
        t = t.add_column(
            db.create_column(table.as_str(), f.name.as_str(), f.db_type.clone(), &f.annotations),
        );
    }
    match t.build() {
        Ok(v) => Ok(v.into_iter().map(|s| s.0).collect()),
        Err(e) => Err(format!("{}", e)),
    }
}

/// Relies on `rorm_sql`'s `DBImpl::{alter_table, create_column}` and
/// `AlterTable::build` with an `AddColumn` operation: the rendering depends on
/// the dialect, the table name and the column data alone.
#[verifier::external_body]
pub(crate) fn build_add_column(d: &Dialect, table: &String, field: &Field) -> (r: Result<Vec<String>, String>)
    ensures
        match r {
            Ok(v) => add_column_stmts(*d, table@, *field) == Ok::<Seq<Seq<char>>, Seq<char>>(
                views_of(v@),
            ),
            Err(e) => add_column_stmts(*d, table@, *field) == Err::<Seq<Seq<char>>, Seq<char>>(e@),
        },
{
    let db = match d {
        Dialect::Postgres => DBImpl::Postgres,
    };
    let col = db.create_column(
        table.as_str(),
        field.name.as_str(),
        field.db_type.clone(),
        &field.annotations,
    );
    match db.alter_table(table.as_str(), AlterTableOperation::AddColumn { operation: col }).build()
    {
        Ok(v) => Ok(v.into_iter().map(|s| s.0).collect()),
        Err(e) => Err(format!("{}", e)),
    }
}

/// Relies on `rorm_sql`'s `DBImpl::alter_table` and `AlterTable::build` with a
/// `RenameTo` operation: its source renders exactly the one stated statement
/// and has no failing path for this operation.
#[verifier::external_body]
pub(crate) fn build_rename_table(d: &Dialect, old: &String, new: &String) -> (r: Result<Vec<String>, String>)
    ensures
        r is Ok,
        match r {
            Ok(v) => views_of(v@) == seq![rename_table_stmt(*d, old@, new@)],
            Err(_) => true,
        },
{
    let db = match d {
        Dialect::Postgres => DBImpl::Postgres,
    };
    match db.alter_table(old.as_str(), AlterTableOperation::RenameTo { name: new.clone() }).build()
    {
        Ok(v) => Ok(v.into_iter().map(|s| s.0).collect()),
        Err(e) => Err(format!("{}", e)),
    }
}

/// Relies on `rorm_sql`'s `DBImpl::alter_table` and `AlterTable::build` with a
/// `RenameColumnTo` operation: its source renders exactly the one stated
/// statement and has no failing path for this operation.
#[verifier::external_body]
pub(crate) fn build_rename_column(d: &Dialect, table: &String, old: &String, new: &String) -> (r: Result<
    Vec<String>,
    String,
>)
    ensures
        r is Ok,
        match r {
            Ok(v) => views_of(v@) == seq![rename_column_stmt(*d, table@, old@, new@)],
            Err(_) => true,
        },
{
    let db = match d {
        Dialect::Postgres => DBImpl::Postgres,
    };
    let op = AlterTableOperation::RenameColumnTo {
        column_name: old.clone(),
        new_column_name: new.clone(),
    };
    match db.alter_table(table.as_str(), op).build() {
        Ok(v) => Ok(v.into_iter().map(|s| s.0).collect()),
        Err(e) => Err(format!("{}", e)),
    }
}

/// Relies on `rorm_sql`'s `DBImpl::alter_table` and `AlterTable::build` with a
/// `DropColumn` operation: its source renders exactly the one stated
/// statement and has no failing path for this operation.
#[verifier::external_body]
pub(crate) fn build_drop_column(d: &Dialect, table: &String, column: &String) -> (r: Result<
    Vec<String>,
    String,
>)
    ensures
        r is Ok,
        match r {
            Ok(v) => views_of(v@) == seq![drop_column_stmt(*d, table@, column@)],
            Err(_) => true,
        },
{
    let db = match d {
        Dialect::Postgres => DBImpl::Postgres,
    };
    match db.alter_table(table.as_str(), AlterTableOperation::DropColumn { name: column.clone() })
        .build() {
        Ok(v) => Ok(v.into_iter().map(|s| s.0).collect()),
        Err(e) => Err(format!("{}", e)),
    }
}

/// Relies on `rorm_sql`'s `DBImpl::drop_table` and `DropTable::build`, which
/// returns exactly the one stated statement and cannot fail.
#[verifier::external_body]
pub(crate) fn build_drop_table(d: &Dialect, table: &String) -> (r: String)
    ensures
        r@ == drop_table_stmt(*d, table@),
{
    let db = match d {
        Dialect::Postgres => DBImpl::Postgres,
    };
    db.drop_table(table.as_str()).build()
}

} // verus!

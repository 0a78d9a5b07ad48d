//! The representation of migration files: a migration record, its ordered
//! operation list, and the column descriptors the operations carry.

use vstd::prelude::*;

verus! {

/// Declares `rorm_declaration`'s column type enumeration so it can stand in
/// fields and signatures; values of it are only carried through to the dialect.
#[verifier::external_type_specification]
#[verifier::external_body]
pub struct ExDbType(rorm_declaration::imr::DbType);

/// Declares `rorm_declaration`'s column annotation type (nullable, unique,
/// primary key, ...); values of it are only carried through to the dialect.
#[verifier::external_type_specification]
#[verifier::external_body]
pub struct ExAnnotation(rorm_declaration::imr::Annotation);

/// A column descriptor: a name (unique within its model), a database type and
/// a set of annotations. Immutable once embedded in an operation.
#[derive(Debug)]
pub struct Field {
    /// Name of the column
    pub name: String,
    /// Database type of the column
    pub db_type: rorm_declaration::imr::DbType,
    /// List of annotations, constraints, etc.
    pub annotations: Vec<rorm_declaration::imr::Annotation>,
}

/// One atomic schema-change primitive. The set is closed: a compiler must
/// handle exactly these six variants.
#[derive(Debug)]
pub enum Operation {
    /// Create a new table; the field order defines the physical column order.
    CreateModel {
        /// Name of the model
        name: String,
        /// List of fields associated to the model
        fields: Vec<Field>,
    },
    /// Rename an existing table.
    RenameModel {
        /// Old name of the model
        old: String,
        /// New name of the model
        new: String,
    },
    /// Drop a table.
    DeleteModel {
        /// Name of the model
        name: String,
    },
    /// Add a column to an existing table.
    CreateField {
        /// Name of the model
        model: String,
        /// The field that should be created
        field: Field,
    },
    /// Rename a column within a table.
    RenameField {
        /// Name of the table the column lives in
        table_name: String,
        /// Old name of the column
        old: String,
        /// New name of the column
        new: String,
    },
    /// Drop a column.
    DeleteField {
        /// Name of the model
        model: String,
        /// Name of the field to delete
        name: String,
    },
}

/// A migration record: identity, content hash, the link to its single upstream
/// dependency, the ids it supersedes, and the ordered operations to execute.
#[derive(Debug)]
pub struct Migration {
    /// Hash of the migration
    pub hash: String,
    /// Marks the migration initial state
    pub initial: bool,
    /// ID of the migration, derived from the filename
    pub id: String,
    /// Migration this migration depends on; empty only for the initial one
    pub dependency: String,
    /// List of migrations this migration replaces
    pub replaces: Vec<String>,
    /// The operations to execute, applied in list order
    pub operations: Vec<Operation>,
}

/// The presentation of a migration file
#[derive(Debug)]
pub struct MigrationFile {
    /// The migration of the migration file
    pub migration: Migration,
}

} // verus!

//! A schema-migration engine: migrations are immutable records of schema-change
//! operations linked into a single dependency chain. The resolver orders a set
//! of migration records into that chain, detecting integrity errors; the
//! compiler turns each migration's operation list into one atomic sequence of
//! DDL statements for a chosen SQL dialect, rendered through `rorm_sql`.

pub mod compiler;
pub mod declaration;
pub mod resolver;
pub mod sql;

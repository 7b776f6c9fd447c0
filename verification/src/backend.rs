//! Database-backend selection.
//!
//! The store speaks one of three SQL dialects; which one is decided once,
//! at connection time, from the backend's reported name. The core never
//! branches on the backend after this point.

use vstd::prelude::*;
use vstd::string::StringSliceAdditionalSpecFns;
use crate::text::bytes_eq;

verus! {

/// The supported storage backends.
pub enum Backend {
    Postgres,
    MySql,
    Sqlite,
}

/// Map a reported backend name to the dialect to generate SQL in; any
/// other name is unsupported.
pub fn select_backend(name: &str) -> (r: Option<Backend>)
    ensures
        match r {
            Some(Backend::Postgres) => name.spec_bytes() == "PostgreSQL".spec_bytes(),
            Some(Backend::MySql) => name.spec_bytes() == "MySQL".spec_bytes(),
            Some(Backend::Sqlite) => name.spec_bytes() == "SQLite".spec_bytes(),
            None => name.spec_bytes() != "PostgreSQL".spec_bytes() && name.spec_bytes()
                != "MySQL".spec_bytes() && name.spec_bytes() != "SQLite".spec_bytes(),
        },
{
    let b = name.as_bytes();
    if bytes_eq(b, "PostgreSQL".as_bytes()) {
        Some(Backend::Postgres)
    } else if bytes_eq(b, "MySQL".as_bytes()) {
        Some(Backend::MySql)
    } else if bytes_eq(b, "SQLite".as_bytes()) {
        Some(Backend::Sqlite)
    } else {
        None
    }
}

} // verus!

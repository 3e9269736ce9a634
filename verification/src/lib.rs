//! Safe, canonical text for PostgreSQL identifiers and dotted identifier
//! paths: classify a raw string as bare or quoted, escape embedded quotes,
//! and compose multi-part names.

pub mod error;
pub mod ident;
pub mod name;
pub mod util;

pub use error::IdentError;
pub use ident::PgIdent;
pub use name::PgName;

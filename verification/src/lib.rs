//! Launch-profile catalog for local model servers: the rules that check a
//! catalog, plan an import of newly found models, and build the command that
//! starts a server.

pub mod catalog;
pub mod catalog_file;
pub mod document;
pub mod found;
pub mod import;
pub mod import_laws;
pub mod keys;
pub mod launch;
pub mod models;
pub mod paths;
pub mod picker;
pub mod setup;
pub mod text;

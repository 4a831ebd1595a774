//! Schema management: the parsing and decision logic of SQL migrations.

pub mod backend;
pub mod backends;
pub mod cli;
pub mod commands;
pub mod database;
pub mod error;
pub mod migration;
pub mod migration_parser;
pub mod parsers;
pub mod repeatability;
pub mod text;
pub mod utils;

pub use backend::{Backend, Backend as BackEnd, BackendGeneric, BackendGeneric as BackEndGeneric};
pub use backends::{AllTables, MysqlAsync, Rusqlite, Tiberius, TokioPostgres};
pub use commands::{Commands, DEFAULT_BATCH_SIZE};
pub use database::Database;
pub use error::Error;
pub use migration::{Migration, MigrationFile, MigrationGroup};
pub use migration_parser::{parse_migration_cfg, parse_unified_migration, MigrationCfg, ParsedMigration};
pub use parsers::{parse_root_cfg_groups, root_cfg_entries, GroupCandidate};
pub use repeatability::Repeatability;
pub use utils::{calc_checksum, dir_name_parts, migration_file_name_parts};

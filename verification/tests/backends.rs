use oapth::backends::{manage_sslrootcert, trust_server_certificate};
use oapth::cli::{Error as CliError, _seeds_file_path, _toml_file_path};
use oapth::{
    AllTables, Backend, BackendGeneric, Commands, Database, Error, Migration, MysqlAsync,
    Rusqlite, Tiberius, TokioPostgres, DEFAULT_BATCH_SIZE,
};

fn migration(version: i32, dbs: Vec<Database>) -> Migration {
    Migration {
        checksum: 0,
        dbs,
        name: format!("m{}", version),
        repeatability: None,
        sql_down: String::new(),
        sql_up: String::new(),
        version,
    }
}

fn database_of<B: Backend>() -> Database {
    B::database()
}

#[test]
fn back_ends_name_their_databases() {
    assert_eq!(database_of::<()>(), Database::Unit);
    assert_eq!(database_of::<MysqlAsync>(), Database::Mysql);
    assert_eq!(database_of::<Rusqlite>(), Database::Sqlite);
    assert_eq!(database_of::<TokioPostgres>(), Database::Pg);
    assert_eq!(<Tiberius as BackendGeneric>::database(), Database::Mssql);
}

#[test]
fn commands_batch_size() {
    assert_eq!(Commands::with_backend(()).batch_size, 128);
    assert_eq!(DEFAULT_BATCH_SIZE, 128);
    assert_eq!(Commands::new((), 7).batch_size, 7);
}

#[test]
fn filter_by_db_keeps_unrestricted_and_matching_migrations() {
    let ms = vec![
        migration(1, vec![]),
        migration(2, vec![Database::Pg]),
        migration(3, vec![Database::Mysql, Database::Sqlite]),
        migration(4, vec![Database::Sqlite]),
    ];
    let kept: Vec<i32> = Commands::<Rusqlite>::filter_by_db(&ms).iter().map(|m| m.version).collect();
    assert_eq!(kept, vec![1, 3, 4]);
    let kept: Vec<i32> = Commands::<()>::filter_by_db(&ms).iter().map(|m| m.version).collect();
    assert_eq!(kept, vec![1]);
}

#[test]
fn sqlite_path_is_after_the_last_scheme_separator() {
    assert_eq!(Rusqlite::new("sqlite://data/db.sqlite").path, "data/db.sqlite");
    assert_eq!(Rusqlite::new("a://b://c").path, "c");
    assert_eq!(Rusqlite::new("db.sqlite").path, "db.sqlite");
}

#[test]
fn sslrootcert_is_taken_out_of_the_url() {
    let (url, cert) = manage_sslrootcert("postgres://u@h/db?sslmode=require&sslrootcert=/ca.pem&x=1&y=2");
    assert_eq!(url, "postgres://u@h/db?sslmode=require&x=1&y=2");
    assert_eq!(cert.as_deref(), Some("/ca.pem"));
    let (url, cert) = manage_sslrootcert("postgres://u@h/db?sslrootcert=/ca.pem");
    assert_eq!(url, "postgres://u@h/db?");
    assert_eq!(cert.as_deref(), Some("/ca.pem"));
    let (url, cert) = manage_sslrootcert("postgres://u@h/db");
    assert_eq!(url, "postgres://u@h/db");
    assert_eq!(cert, None);
    let pg = TokioPostgres::new("postgres://h/db?sslrootcert=c.pem&a=b");
    assert_eq!(pg.url, "postgres://h/db?a=b");
    assert_eq!(pg.root_cert_path.as_deref(), Some("c.pem"));
}

#[test]
fn trust_server_certificate_only_when_last_and_true() {
    assert!(trust_server_certificate("mssql://h?trustServerCertificate=true"));
    assert!(!trust_server_certificate("mssql://h?trustServerCertificate=false"));
    assert!(!trust_server_certificate("mssql://h?trustServerCertificate=true&x=1"));
    assert!(!trust_server_certificate("mssql://h"));
    assert!(Tiberius::new("mssql://h?trustServerCertificate=true").trust_cert);
    assert_eq!(MysqlAsync::new("mysql://h/db").url, "mysql://h/db");
}

#[test]
fn seeds_path_prefers_the_command_line() {
    assert_eq!(_seeds_file_path(Some("a"), Some("b")), Ok("a"));
    assert_eq!(_seeds_file_path(None, Some("b")), Ok("b"));
    assert_eq!(
        _seeds_file_path(None, None),
        Err("The `seeds` parameter must be provided through the CLI or the configuration file")
    );
}

#[test]
fn cli_errors_wrap_library_errors() {
    let e: CliError = Error::InvalidMigration.into();
    assert_eq!(e.message(), "oapth: Invalid migration");
    let io = Error::from(std::io::Error::new(std::io::ErrorKind::NotFound, "gone"));
    assert_eq!(io.message(), "IO: gone");
    let t = AllTables { table_name: "author".to_string() };
    assert_eq!(t, AllTables { table_name: "author".to_string() });
}

#[test]
fn toml_path_prefers_the_command_line() {
    assert_eq!(_toml_file_path(Some("conf/x.toml"), "/a/b"), "conf/x.toml");
    assert_eq!(_toml_file_path(None, "/a/b"), "/a/b/oapth.toml");
    assert_eq!(_toml_file_path(None, "/a/b/"), "/a/b/oapth.toml");
    assert_eq!(_toml_file_path(None, "/"), "/oapth.toml");
    assert_eq!(_toml_file_path(None, ""), "oapth.toml");
}

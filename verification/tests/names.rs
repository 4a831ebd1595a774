use oapth::database::Database;
use oapth::repeatability::Repeatability;
use oapth::{dir_name_parts, migration_file_name_parts, Error};

#[test]
fn database_names_round_trip() {
    for d in [Database::Mssql, Database::Mysql, Database::Pg, Database::Sqlite, Database::Unit] {
        assert_eq!(Database::from_name(d.name()), Some(d));
    }
    assert_eq!(Database::from_name("postgres"), Some(Database::Pg));
    assert_eq!(Database::from_name("pg"), Some(Database::Pg));
    assert_eq!(Database::from_name("PG"), None);
}

#[test]
fn repeatability_names_round_trip() {
    for r in [Repeatability::Always, Repeatability::OnChecksumChange] {
        assert_eq!(Repeatability::from_name(r.name()), Some(r));
    }
    assert_eq!(Repeatability::from_name("on-checksum-change"), Some(Repeatability::OnChecksumChange));
    assert_eq!(Repeatability::from_name("on_checksum_change"), Some(Repeatability::OnChecksumChange));
    assert_eq!(Repeatability::from_name("never"), None);
}

#[test]
fn dir_names_split_into_version_and_name() {
    assert_eq!(dir_name_parts("1__initial").unwrap(), ("initial".to_string(), 1));
    assert_eq!(dir_name_parts("-7__x__y").unwrap(), ("x".to_string(), -7));
    assert_eq!(dir_name_parts("+2147483647__max").unwrap(), ("max".to_string(), 2147483647));
    assert_eq!(dir_name_parts("-2147483648__min").unwrap(), ("min".to_string(), -2147483648));
    assert_eq!(dir_name_parts("007__").unwrap(), ("".to_string(), 7));
}

#[test]
fn invalid_dir_names_are_refused() {
    for s in ["initial", "1_initial", "x__a", "2147483648__a", "-2147483649__a", "+__a", "-__a", "__a", "1__ínitial", ""] {
        let e = dir_name_parts(s).unwrap_err();
        assert!(matches!(e, Error::InvalidMigration), "{}", s);
        assert_eq!(e.message(), "Invalid migration");
    }
}

#[test]
fn migration_file_names_need_the_sql_extension() {
    assert_eq!(
        migration_file_name_parts("1__create_author.sql").unwrap(),
        ("create_author".to_string(), 1)
    );
    assert_eq!(migration_file_name_parts("3__.sql").unwrap(), ("".to_string(), 3));
    assert!(migration_file_name_parts("1__create_author").is_err());
    assert!(migration_file_name_parts("1__create_author.SQL").is_err());
    assert!(migration_file_name_parts("create_author.sql").is_err());
}

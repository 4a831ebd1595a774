use core::hash::{Hash, Hasher};

use oapth::{
    calc_checksum, Database, Error, Migration, MigrationFile, MigrationGroup, Repeatability,
};
use oapth::migration::{migration_from_dir, migration_from_file};
use siphasher::sip::SipHasher13;

fn file(name: &str, content: Option<&str>) -> MigrationFile {
    MigrationFile { name: name.to_string(), content: content.map(|c| c.to_string()) }
}

#[test]
fn checksum_is_siphash13_of_the_parts() {
    let mut hasher = SipHasher13::new();
    "a".hash(&mut hasher);
    "b".hash(&mut hasher);
    "c".hash(&mut hasher);
    hasher.write(&1i32.to_le_bytes());
    assert_eq!(calc_checksum("a", "b", "c", 1), hasher.finish());
    assert_ne!(calc_checksum("a", "b", "c", 1), calc_checksum("a", "b", "c", 2));
    assert_ne!(calc_checksum("ab", "", "c", 1), calc_checksum("a", "b", "c", 1));
    assert_eq!(calc_checksum("a", "b", "c", 1), calc_checksum("a", "b", "c", 1));
}

#[test]
fn migration_from_a_directory() {
    let files = vec![
        file("1__create_author_up.sql", Some("\n  CREATE TABLE author();\n")),
        file("notes.txt", None),
        file("1__create_author.cfg", Some("-- oapth dbs pg\n-- oapth repeatability always\n")),
        file("1__create_author_down.sql", Some("DROP TABLE author;\n\n")),
    ];
    let m: Migration = migration_from_dir("1__create_author", &files).unwrap();
    assert_eq!(m.name, "create_author");
    assert_eq!(m.version, 1);
    assert_eq!(m.dbs, vec![Database::Pg]);
    assert_eq!(m.repeatability, Some(Repeatability::Always));
    assert_eq!(m.sql_up, "CREATE TABLE author();");
    assert_eq!(m.sql_down, "DROP TABLE author;");
    assert_eq!(m.checksum, calc_checksum("create_author", "CREATE TABLE author();", "DROP TABLE author;", 1));
}

#[test]
fn migration_directory_without_files_is_empty() {
    let m = migration_from_dir("4__nothing", &Vec::new()).unwrap();
    assert_eq!(m.name, "nothing");
    assert!(m.dbs.is_empty());
    assert!(m.repeatability.is_none());
    assert_eq!(m.sql_up, "");
    assert_eq!(m.sql_down, "");
}

#[test]
fn migration_directory_with_a_bad_name() {
    assert!(matches!(migration_from_dir("create_author", &Vec::new()), Err(Error::InvalidMigration)));
}

#[test]
fn migration_directory_names_must_fit_the_file_name_buffers() {
    // 55 bytes plus "_down.sql" fill the 64 bytes exactly.
    let fits = format!("1__{}", "a".repeat(52));
    assert_eq!(fits.len(), 55);
    assert!(migration_from_dir(&fits, &Vec::new()).is_ok());
    let too_long = format!("1__{}", "a".repeat(53));
    let e = migration_from_dir(&too_long, &Vec::new()).unwrap_err();
    assert!(matches!(e, Error::Fmt(_)));
    assert!(e.message().starts_with("Fmt: "));
}

#[test]
fn migration_from_a_single_file() {
    let m = migration_from_file(
        "2__insert.sql",
        "-- oapth dbs mysql\n-- oapth UP\nINSERT INTO a VALUES (1);\n-- oapth DOWN\nDELETE FROM a;",
    )
    .unwrap();
    assert_eq!(m.name, "insert");
    assert_eq!(m.version, 2);
    assert_eq!(m.dbs, vec![Database::Mysql]);
    assert_eq!(m.sql_up, "INSERT INTO a VALUES (1);");
    assert_eq!(m.sql_down, "DELETE FROM a;");
    assert_eq!(m.checksum, calc_checksum("insert", &m.sql_up, &m.sql_down, 2));
    assert!(matches!(migration_from_file("insert.sql", "-- oapth UP\nX"), Err(Error::InvalidMigration)));
    assert!(matches!(migration_from_file("2__insert.sql", "X"), Err(Error::IncompleteSqlFile)));
}

#[test]
fn migration_groups_from_directory_names() {
    let g = MigrationGroup::from_dir_name("2__fancy_stuff").unwrap();
    assert_eq!(g.name, "fancy_stuff");
    assert_eq!(g.version, 2);
    assert!(MigrationGroup::from_dir_name("fancy_stuff").is_err());
}

#[test]
fn migration_directory_configuration_from_a_toml_file() {
    let files = vec![
        file("1__author_up.sql", Some("U\n")),
        file("1__author_down.sql", Some("D\n")),
        file("1__author.toml", Some("-- oapth dbs pg\n-- oapth repeatability always\n")),
    ];
    let m = migration_from_dir("1__author", &files).unwrap();
    assert_eq!(m.dbs, vec![Database::Pg]);
    assert_eq!(m.repeatability, Some(Repeatability::Always));
    assert_eq!(m.sql_up, "U");
    assert_eq!(m.sql_down, "D");
}

#[test]
fn a_migration_and_its_split_form_are_the_same() {
    let unified = migration_from_file(
        "1__author.sql",
        "-- oapth dbs mssql,postgres\n-- oapth UP\n\nU\n\n-- oapth DOWN\n\nD\n",
    )
    .unwrap();
    let files = vec![
        file("1__author_up.sql", Some("U\n")),
        file("1__author_down.sql", Some("D\n")),
        file("1__author.toml", Some("-- oapth dbs mssql,postgres\n")),
    ];
    let split = migration_from_dir("1__author", &files).unwrap();
    assert_eq!(unified.name, "author");
    assert_eq!(unified.version, 1);
    assert_eq!(unified.dbs, vec![Database::Mssql, Database::Pg]);
    assert_eq!(unified.sql_up, "U");
    assert_eq!(unified.sql_down, "D");
    assert_eq!(split.name, unified.name);
    assert_eq!(split.version, unified.version);
    assert_eq!(split.dbs, unified.dbs);
    assert_eq!(split.repeatability, unified.repeatability);
    assert_eq!(split.sql_up, unified.sql_up);
    assert_eq!(split.sql_down, unified.sql_down);
    assert_eq!(split.checksum, unified.checksum);
}

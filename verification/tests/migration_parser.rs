use oapth::{parse_migration_cfg, parse_unified_migration, Database, Error, Repeatability};
use oapth::migration_parser::{migration_cfg_read_end, unified_migration_read_end};

#[test]
fn does_not_take_into_consideration_white_spaces_and_comments() {
    let s = "// FOO\n\t\n-- oapth UP\nSOMETHING\nFOO\n";
    let rslt = parse_unified_migration(s).unwrap();
    assert_eq!("SOMETHING\nFOO", rslt.sql_up);
}

#[test]
fn must_have_obrigatory_params() {
    assert!(parse_unified_migration("").is_err());
}

#[test]
fn parses_optional_dbs() {
    let s = "-- oapth UP\nSOMETHING";
    let no_declaration = parse_unified_migration(s).unwrap();
    assert!(no_declaration.cfg.dbs.is_empty());

    let s = "-- oapth dbs\n-- oapth UP\nSOMETHING";
    let with_initial_declaration = parse_unified_migration(s).unwrap();
    assert!(with_initial_declaration.cfg.dbs.is_empty());

    let s = "-- oapth dbs bird,apple\n-- oapth UP\nSOMETHING";
    let with_incorrect_declaration = parse_unified_migration(s).unwrap();
    assert!(with_incorrect_declaration.cfg.dbs.is_empty());

    let s = "-- oapth dbs mssql,pg\n-- oapth UP\nSOMETHING";
    let two_dbs = parse_unified_migration(s).unwrap();
    assert_eq!(two_dbs.cfg.dbs[0], Database::Mssql);
    assert_eq!(two_dbs.cfg.dbs[1], Database::Pg);
}

#[test]
fn parses_down() {
    let s = "\n-- oapth UP\n\nSOMETHING\nFOO\n\n-- oapth DOWN\n\nBAR\n";
    let rslt = parse_unified_migration(s).unwrap();
    assert_eq!("SOMETHING\nFOO", rslt.sql_up);
    assert_eq!("BAR", rslt.sql_down);
}

#[test]
fn parses_repeatability() {
    let s = "-- oapth UP\nSOMETHING";
    let no_declaration = parse_unified_migration(s).unwrap();
    assert!(no_declaration.cfg.repeatability.is_none());

    let s = "-- oapth repeatability\n-- oapth UP\nSOMETHING";
    let with_initial_declaration = parse_unified_migration(s).unwrap();
    assert!(with_initial_declaration.cfg.repeatability.is_none());

    let s = "-- oapth repeatability FOO\n-- oapth UP\nSOMETHING";
    let with_incorrect_declaration = parse_unified_migration(s).unwrap();
    assert!(with_incorrect_declaration.cfg.repeatability.is_none());

    let s = "-- oapth repeatability always\n-- oapth UP\nSOMETHING";
    let always = parse_unified_migration(s).unwrap();
    assert_eq!(always.cfg.repeatability, Some(Repeatability::Always));

    let s = "-- oapth repeatability on_checksum_change\n-- oapth UP\nSOMETHING";
    let on_checksum_change = parse_unified_migration(s).unwrap();
    assert_eq!(on_checksum_change.cfg.repeatability, Some(Repeatability::OnChecksumChange));
}

#[test]
fn parses_mandatory_params() {
    let s = "-- oapth UP\n\nSOMETHING\nFOO";
    let rslt = parse_unified_migration(s).unwrap();
    assert_eq!("SOMETHING\nFOO", rslt.sql_up);
}

#[test]
fn parses_dbs_and_repeatability_together() {
    let s = "-- oapth dbs sqlite, mysql ,unit\n-- oapth repeatability always\n-- oapth UP\nA\n-- oapth DOWN\nB";
    let m = parse_unified_migration(s).unwrap();
    assert_eq!(m.cfg.dbs, vec![Database::Sqlite, Database::Mysql, Database::Unit]);
    assert_eq!(m.cfg.repeatability, Some(Repeatability::Always));
    assert_eq!(m.sql_up, "A");
    assert_eq!(m.sql_down, "B");
}

#[test]
fn missing_up_section_is_incomplete() {
    let e = parse_unified_migration("-- oapth dbs pg\nSELECT 1;\n").unwrap_err();
    assert!(matches!(e, Error::IncompleteSqlFile));
    assert_eq!(e.message(), "A migration file must contain a '--oapth UP' section");
}

#[test]
fn empty_up_before_down_is_incomplete() {
    let e = parse_unified_migration("-- oapth UP\n-- oapth DOWN\nDROP TABLE a;").unwrap_err();
    assert!(matches!(e, Error::IncompleteSqlFile));
}

#[test]
fn empty_up_without_down_is_accepted() {
    let m = parse_unified_migration("-- oapth UP\n\n   \n").unwrap();
    assert_eq!(m.sql_up, "");
    assert_eq!(m.sql_down, "");
}

#[test]
fn up_marker_may_follow_on_the_first_line() {
    let m = parse_unified_migration("  -- oapth UP CREATE TABLE a;\nINSERT 1;").unwrap();
    assert_eq!(m.sql_up, "INSERT 1;");
}

#[test]
fn down_sql_keeps_inner_lines_and_unicode_whitespace() {
    let s = "-- oapth UP\n\u{a0}X\u{3000}\n-- oapth DOWN\n\u{2003}Y\n\nZ\u{85}";
    let m = parse_unified_migration(s).unwrap();
    assert_eq!(m.sql_up, "X");
    assert_eq!(m.sql_down, "Y\n\nZ");
}

#[test]
fn sql_is_trimmed() {
    let m = parse_unified_migration("-- oapth UP\n \t CREATE TABLE a; \r\n-- oapth DOWN\n  DROP TABLE a;  \n").unwrap();
    assert_eq!(m.sql_up, m.sql_up.trim());
    assert_eq!(m.sql_down, m.sql_down.trim());
    assert_eq!(m.sql_up, "CREATE TABLE a;");
    assert_eq!(m.sql_down, "DROP TABLE a;");
}

#[test]
fn cfg_agrees_with_unified_parse() {
    let s = "// header\n-- oapth dbs pg,mssql\n\n-- oapth repeatability on_checksum_change\n-- oapth UP\nX";
    let cfg = parse_migration_cfg(s);
    let m = parse_unified_migration(s).unwrap();
    assert_eq!(cfg.dbs, m.cfg.dbs);
    assert_eq!(cfg.repeatability, m.cfg.repeatability);
    assert_eq!(cfg.dbs, vec![Database::Pg, Database::Mssql]);
}

#[test]
fn cfg_of_empty_text_is_empty() {
    let cfg = parse_migration_cfg("");
    assert!(cfg.dbs.is_empty());
    assert!(cfg.repeatability.is_none());
}

#[test]
fn comment_lines_with_markers_still_count_in_header_block() {
    // The first block runs up to the first significant line, comments included: here it
    // declares `dbs`, whose list swallows the `UP` line, so the next block lacks `UP`.
    let e = parse_unified_migration("// -- oapth dbs pg\n-- oapth UP\nX").unwrap_err();
    assert!(matches!(e, Error::IncompleteSqlFile));
    let m = parse_unified_migration("// -- oapth dbs pg\n-- oapth UP\n-- oapth UP\nX").unwrap();
    assert!(m.cfg.dbs.is_empty());
    assert_eq!(m.sql_up, "X");
}

#[test]
fn up_section_in_a_later_block_is_not_seen() {
    assert!(parse_unified_migration("SELECT 1;\n-- oapth UP\nX").is_err());
}

#[test]
fn readme_conditional_migration_names_postgres() {
    let s = "-- oapth dbs mssql,postgres\n-- oapth UP\nCREATE SCHEMA foo;\n-- oapth DOWN\nDROP SCHEMA foo;";
    let m = parse_unified_migration(s).unwrap();
    assert_eq!(m.cfg.dbs, vec![Database::Mssql, Database::Pg]);
    assert_eq!(m.sql_up, "CREATE SCHEMA foo;");
    assert_eq!(m.sql_down, "DROP SCHEMA foo;");
}

#[test]
fn readme_repeatable_migration() {
    let s = "-- oapth dbs postgres\n-- oapth repeatability always\n\n-- oapth UP\n\nCREATE OR REPLACE PROCEDURE something() LANGUAGE SQL AS $$ $$\n\n-- oapth DOWN\n\nDROP PROCEDURE something();\n";
    let m = parse_unified_migration(s).unwrap();
    assert_eq!(m.cfg.dbs, vec![Database::Pg]);
    assert_eq!(m.cfg.repeatability, Some(Repeatability::Always));
    assert_eq!(m.sql_up, "CREATE OR REPLACE PROCEDURE something() LANGUAGE SQL AS $$ $$");
    assert_eq!(m.sql_down, "DROP PROCEDURE something();");
}

#[test]
fn repeatability_with_hyphens() {
    let s = "-- oapth repeatability on-checksum-change\n-- oapth UP\nX";
    let m = parse_unified_migration(s).unwrap();
    assert_eq!(m.cfg.repeatability, Some(Repeatability::OnChecksumChange));
    let s = "-- oapth repeatability on_checksum_change\n-- oapth UP\nX";
    let m = parse_unified_migration(s).unwrap();
    assert_eq!(m.cfg.repeatability, Some(Repeatability::OnChecksumChange));
}

#[test]
fn how_far_the_parsers_read() {
    assert_eq!(migration_cfg_read_end("-- oapth dbs pg\n-- oapth UP\nX\n"), 28);
    assert_eq!(migration_cfg_read_end("-- oapth repeatability always\n\n// c\nSELECT 1;\nY\n"), 46);
    assert_eq!(migration_cfg_read_end("\n// c\n"), 6);
    assert_eq!(unified_migration_read_end("-- oapth UP\nX\n"), 14);
    assert_eq!(unified_migration_read_end("SELECT 1;\nmore\n"), 10);
    assert_eq!(unified_migration_read_end(""), 0);
}

use oapth::{dir_name_parts, migration_file_name_parts, parse_migration_cfg, parse_unified_migration, Error};

fn same_parse(a: &str, b: &str) {
    match (parse_unified_migration(a), parse_unified_migration(b)) {
        (Ok(x), Ok(y)) => {
            assert_eq!(x.cfg.dbs, y.cfg.dbs);
            assert_eq!(x.cfg.repeatability, y.cfg.repeatability);
            assert_eq!(x.sql_up, y.sql_up);
            assert_eq!(x.sql_down, y.sql_down);
        }
        (Err(Error::IncompleteSqlFile), Err(Error::IncompleteSqlFile)) => {}
        (x, y) => panic!("{:?} vs {:?}", x, y),
    }
    let (x, y) = (parse_migration_cfg(a), parse_migration_cfg(b));
    assert_eq!(x.dbs, y.dbs);
    assert_eq!(x.repeatability, y.repeatability);
}

const TEXTS: [&str; 6] = [
    "-- oapth UP\nSOMETHING",
    "-- oapth dbs mssql,pg\n-- oapth UP\nSOMETHING\n-- oapth DOWN\nOTHER",
    "-- oapth repeatability always\n-- oapth UP\nA",
    "-- oapth UP\n-- oapth DOWN\nB",
    "SELECT 1;",
    "",
];

#[test]
fn blank_and_comment_lines_before_a_migration_change_nothing() {
    for s in TEXTS {
        for p in ["\n", "  \t\r\n", "// a comment\n", "   // another one\n"] {
            same_parse(&format!("{}{}", p, s), s);
        }
    }
}

#[test]
fn texts_without_up_are_refused() {
    for s in ["", "SELECT 1;", "-- oapth dbs pg\n-- oapth DOWN\nX", "-- oapth up\nX"] {
        assert!(matches!(parse_unified_migration(s), Err(Error::IncompleteSqlFile)));
    }
}

#[test]
fn parsed_sql_is_trimmed() {
    for s in TEXTS {
        if let Ok(m) = parse_unified_migration(s) {
            assert_eq!(m.sql_up, m.sql_up.trim());
            assert_eq!(m.sql_down, m.sql_down.trim());
        }
    }
}

#[test]
fn version_and_name_round_trip() {
    for v in [i32::MIN, -12, -1, 0, 7, 1000, i32::MAX] {
        for name in ["initial", "a_b", "_x", "", "create.table"] {
            assert_eq!(dir_name_parts(&format!("{}__{}", v, name)).unwrap(), (name.to_string(), v));
            assert_eq!(
                migration_file_name_parts(&format!("{}__{}.sql", v, name)).unwrap(),
                (name.to_string(), v)
            );
        }
    }
}

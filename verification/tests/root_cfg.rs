use oapth::{parse_root_cfg_groups, root_cfg_entries, Error, GroupCandidate};

fn candidate(entry: &str, is_dir: bool) -> GroupCandidate {
    let file_name = entry.rsplit('/').next().map(|s| s.to_string());
    GroupCandidate { entry: entry.to_string(), file_name, is_dir }
}

#[test]
fn root_cfg_lines_are_trimmed() {
    let cfg = "\n      ../oapth-test-utils/migrations/1__initial\n      ../oapth-test-utils/migrations/2__more_stuff\n    ";
    assert_eq!(
        root_cfg_entries(cfg),
        vec![
            "".to_string(),
            "../oapth-test-utils/migrations/1__initial".to_string(),
            "../oapth-test-utils/migrations/2__more_stuff".to_string(),
            "".to_string(),
        ]
    );
    assert!(root_cfg_entries("").is_empty());
}

#[test]
fn only_group_directories_are_kept() {
    let candidates = vec![
        candidate("migrations/1__initial", true),
        candidate("migrations/not_a_group", true),
        candidate("migrations/2__file", false),
        GroupCandidate { entry: "x".to_string(), file_name: None, is_dir: true },
        candidate("migrations/3__more", true),
    ];
    let groups = parse_root_cfg_groups(&candidates).unwrap();
    assert_eq!(groups.len(), 2);
    assert_eq!(groups[0], "migrations/1__initial");
    assert_eq!(groups[1], "migrations/3__more");
}

#[test]
fn at_most_sixteen_groups() {
    let sixteen: Vec<GroupCandidate> =
        (1..=16).map(|i| candidate(&format!("m/{}__g", i), true)).collect();
    assert_eq!(parse_root_cfg_groups(&sixteen).unwrap().len(), 16);
    let mut seventeen = sixteen;
    seventeen.push(candidate("m/17__g", true));
    let e = parse_root_cfg_groups(&seventeen).unwrap_err();
    assert!(matches!(e, Error::MaxNumGroups));
    assert_eq!(e.message(), "There can't be more than 16 groups in a configuration");
}

#[test]
fn parse_root_cfg_works() {
    let cfg = r#"
      ../oapth-test-utils/migrations/1__initial
      ../oapth-test-utils/migrations/2__more_stuff
    "#;
    let root = std::path::Path::new("../oapth-test-utils");
    // Both listed paths are group directories of the test utilities; the blank lines join to
    // the root itself, which is a directory whose name is no group name.
    let candidates: Vec<GroupCandidate> = root_cfg_entries(cfg)
        .into_iter()
        .map(|entry| {
            let path = root.join(&entry);
            let file_name = path.file_name().and_then(|n| n.to_str()).map(String::from);
            GroupCandidate { entry, file_name, is_dir: true }
        })
        .collect();
    let groups = parse_root_cfg_groups(&candidates).unwrap();
    assert_eq!(groups.len(), 2);
}

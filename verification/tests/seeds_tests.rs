use yaml_seeder::seeds::{
    extract_numeric_prefix, resolve_sequence, seed_file_name, seed_template, select_seed_files,
    slugify,
};

#[test]
fn slugify_converts_to_kebab_case() {
    assert_eq!(slugify("Hello World"), "hello-world");
    assert_eq!(slugify(" Already--Slugified "), "already-slugified");
    assert_eq!(slugify("スラッグ"), "seed");
}

#[test]
fn extract_numeric_prefix_handles_various_inputs() {
    assert_eq!(extract_numeric_prefix("001-file.yaml"), "001");
    assert_eq!(extract_numeric_prefix("no-prefix.yaml"), "");
}

#[test]
fn resolve_sequence_detects_next_number() {
    let names = vec!["001-alpha.yaml".to_string(), "002-bravo.yaml".to_string()];
    let (number, width) = resolve_sequence(None, 3, &names);
    assert_eq!(number, 3);
    assert_eq!(width, 3);
}

#[test]
fn collect_seed_targets_filters_and_sorts_yaml_files() {
    let names = vec![
        b"002-bravo.yaml".to_vec(),
        b"001-alpha.yml".to_vec(),
        b"notes.txt".to_vec(),
    ];
    let targets = select_seed_files(names);
    assert_eq!(targets.len(), 2);
    assert_eq!(targets[0], b"001-alpha.yml".to_vec());
    assert_eq!(targets[1], b"002-bravo.yaml".to_vec());
}

#[test]
fn slugify_edge_cases() {
    assert_eq!(slugify(""), "seed");
    assert_eq!(slugify("---"), "seed");
    assert_eq!(slugify("add_users table"), "add-users-table");
    assert_eq!(slugify("Ünïcode Names"), "ncode-names");
    assert_eq!(slugify("a - _ b"), "a-b");
    assert_eq!(slugify("trailing_"), "trailing");
    assert_eq!(slugify("MiXeD123"), "mixed123");
}

#[test]
fn slugify_is_idempotent_and_well_formed() {
    for name in ["Hello World", " Already--Slugified ", "スラッグ", "a__b--c", "-x-"] {
        let once = slugify(name);
        assert_eq!(slugify(&once), once);
        assert!(!once.is_empty());
        assert!(!once.starts_with('-') && !once.ends_with('-'));
        assert!(!once.contains("--"));
        assert!(once
            .chars()
            .all(|c| c.is_ascii_lowercase() || c.is_ascii_digit() || c == '-'));
    }
}

#[test]
fn extract_numeric_prefix_stops_at_first_non_digit() {
    assert_eq!(extract_numeric_prefix("0042x7.yaml"), "0042");
    assert_eq!(extract_numeric_prefix(""), "");
    assert_eq!(extract_numeric_prefix("١٢"), "");
}

#[test]
fn resolve_sequence_with_explicit_number_keeps_width() {
    assert_eq!(resolve_sequence(Some(12), 0, &Vec::new()), (12, 1));
    assert_eq!(resolve_sequence(Some(12), 5, &Vec::new()), (12, 5));
}

#[test]
fn resolve_sequence_in_empty_directory_starts_at_one() {
    assert_eq!(resolve_sequence(None, 0, &Vec::new()), (1, 3));
    assert_eq!(resolve_sequence(None, 4, &Vec::new()), (1, 4));
}

#[test]
fn resolve_sequence_uses_widest_prefix_and_ignores_overflow() {
    let names = vec![
        "00007-a.yaml".to_string(),
        "12-b.yaml".to_string(),
        "99999999999-too-big.yaml".to_string(),
        "readme.md".to_string(),
    ];
    assert_eq!(resolve_sequence(None, 3, &names), (13, 11));
    let at_max = vec!["4294967295-last.yaml".to_string()];
    assert_eq!(resolve_sequence(None, 3, &at_max), (4294967295, 10));
}

#[test]
fn seed_file_name_pads_number_and_slugs_name() {
    assert_eq!(seed_file_name(7, 3, "Add Users"), "007-add-users.yaml");
    assert_eq!(seed_file_name(1234, 3, "x"), "1234-x.yaml");
    assert_eq!(seed_file_name(0, 0, "スラッグ"), "0-seed.yaml");
}

#[test]
fn next_sequence_follows_created_file() {
    let created = seed_file_name(7, 4, "Add Users");
    assert_eq!(extract_numeric_prefix(&created), "0007");
    let names = vec!["001-a.yaml".to_string(), created];
    assert_eq!(resolve_sequence(None, 3, &names), (8, 4));
}

#[test]
fn seed_template_is_an_empty_version_one_file() {
    assert_eq!(seed_template(), "# yaml-seeder scaffold\nversion: 1\ntables: []\n");
}

#[test]
fn select_seed_files_follows_path_extension_rules() {
    let names = vec![
        b"B.YAML".to_vec(),
        b".yaml".to_vec(),
        b"..".to_vec(),
        b"a.yaml.bak".to_vec(),
        b"a.".to_vec(),
        b"A.Yml".to_vec(),
        b"z.yaml".to_vec(),
        b"noext".to_vec(),
        b"x.y.yml".to_vec(),
        vec![0xff, b'.', b'y', b'm', b'l'],
    ];
    let targets = select_seed_files(names);
    assert_eq!(
        targets,
        vec![
            b"A.Yml".to_vec(),
            b"B.YAML".to_vec(),
            b"x.y.yml".to_vec(),
            b"z.yaml".to_vec(),
            vec![0xff, b'.', b'y', b'm', b'l'],
        ]
    );
    assert!(select_seed_files(Vec::new()).is_empty());
}

#[test]
fn created_file_is_picked_up_by_apply() {
    let created = seed_file_name(3, 3, "New Table");
    assert!(created.is_ascii());
    let picked = select_seed_files(vec![b"notes.txt".to_vec(), created.as_bytes().to_vec()]);
    assert_eq!(picked, vec![created.into_bytes()]);
}

#[test]
fn slug_keeps_lowercased_letters_and_digits() {
    for name in ["Hello World", "A1 b2_C3", "--x--y--", "スラッグ", "", "É-t-é"] {
        let slug = slugify(name);
        let kept: String = name
            .chars()
            .filter(|c| c.is_ascii_alphanumeric())
            .map(|c| c.to_ascii_lowercase())
            .collect();
        if kept.is_empty() {
            assert_eq!(slug, "seed");
        } else {
            assert_eq!(slug.replace('-', ""), kept);
        }
    }
}

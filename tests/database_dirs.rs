use telegrand::database::{
    analyze_data_dir, candidate_dir_name, contains_name, generate_database_dir_base_name,
    push_decimal, DatabaseInfo, DatadirState, DirectoryEntry,
};

fn entry(name: &str, is_dir: bool, production: bool, test: bool) -> DirectoryEntry {
    DirectoryEntry {
        name: name.to_string(),
        is_dir,
        has_production_marker: production,
        has_test_marker: test,
    }
}

fn names(v: &[&str]) -> Vec<String> {
    v.iter().map(|s| s.to_string()).collect()
}

#[test]
fn decimal_notation() {
    let mut s = String::from("n=");
    push_decimal(&mut s, 0);
    assert_eq!(s, "n=0");
    let mut t = String::new();
    push_decimal(&mut t, 1638487692420);
    assert_eq!(t, "1638487692420");
    let mut u = String::new();
    push_decimal(&mut u, u128::MAX);
    assert_eq!(u, u128::MAX.to_string());
}

#[test]
fn candidate_names() {
    assert_eq!(candidate_dir_name(1700000000000, 1), "db1700000000000");
    assert_eq!(candidate_dir_name(1700000000000, 2), "db1700000000000_2");
    assert_eq!(candidate_dir_name(5, 12), "db5_12");
}

#[test]
fn contains_name_compares_text() {
    let v = names(&["a", "bc"]);
    assert!(contains_name(&v, &"bc".to_string()));
    assert!(!contains_name(&v, &"b".to_string()));
}

#[test]
fn generated_name_from_timestamp() {
    assert_eq!(generate_database_dir_base_name(1638487692420, &Vec::new()), "db1638487692420");
}

#[test]
fn generated_name_takes_suffix_on_collision() {
    let taken = names(&["db1700000000000"]);
    assert_eq!(generate_database_dir_base_name(1700000000000, &taken), "db1700000000000_2");
    let taken = names(&["db1700000000000_2", "db1700000000000", "other"]);
    assert_eq!(generate_database_dir_base_name(1700000000000, &taken), "db1700000000000_3");
}

#[test]
fn generated_names_in_one_millisecond_are_distinct() {
    let mut taken: Vec<String> = Vec::new();
    for _ in 0..5 {
        let name = generate_database_dir_base_name(1700000000000, &taken);
        assert!(!taken.contains(&name));
        taken.push(name);
    }
    assert_eq!(
        taken,
        names(&[
            "db1700000000000",
            "db1700000000000_2",
            "db1700000000000_3",
            "db1700000000000_4",
            "db1700000000000_5"
        ])
    );
}

#[test]
fn empty_listing_is_empty() {
    assert_eq!(analyze_data_dir(&Vec::new(), &names(&["db1"])), DatadirState::Empty);
}

#[test]
fn listing_without_markers_is_empty() {
    let entries = vec![entry("db1", true, false, false), entry("file", false, true, false)];
    assert_eq!(analyze_data_dir(&entries, &Vec::new()), DatadirState::Empty);
}

#[test]
fn one_production_session_is_found() {
    let entries = vec![entry("db1700000000000", true, true, false)];
    let state = analyze_data_dir(&entries, &names(&["db1700000000000"]));
    assert_eq!(
        state,
        DatadirState::HasSessions {
            database_infos: vec![DatabaseInfo {
                directory_base_name: "db1700000000000".to_string(),
                use_test_dc: false
            }],
            recently_used_sessions: names(&["db1700000000000"]),
        }
    );
}

#[test]
fn test_marker_selects_test_dc() {
    let entries = vec![
        entry("a", true, false, true),
        entry("b", true, true, false),
        entry("c", false, false, true),
    ];
    match analyze_data_dir(&entries, &Vec::new()) {
        DatadirState::HasSessions { database_infos, recently_used_sessions } => {
            assert_eq!(database_infos.len(), 2);
            assert_eq!(database_infos[0].directory_base_name, "a");
            assert!(database_infos[0].use_test_dc);
            assert_eq!(database_infos[1].directory_base_name, "b");
            assert!(!database_infos[1].use_test_dc);
            assert!(recently_used_sessions.is_empty());
        }
        DatadirState::Empty => panic!("sessions expected"),
    }
}

#[test]
fn stale_recently_used_entries_are_pruned() {
    let entries = vec![entry("db1", true, true, false), entry("db3", true, true, false)];
    match analyze_data_dir(&entries, &names(&["db3", "gone", "db1", "db2"])) {
        DatadirState::HasSessions { recently_used_sessions, .. } => {
            assert_eq!(recently_used_sessions, names(&["db3", "db1"]));
        }
        DatadirState::Empty => panic!("sessions expected"),
    }
}

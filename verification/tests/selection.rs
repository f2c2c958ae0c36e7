use speedtracker::files::{select_file_names, str_le};

#[test]
fn selection_keeps_the_inclusive_range_in_order() {
    // Monotonic selection: exactly the first two names, in that order.
    let names: Vec<String> = vec![
        "2022-01-DATA.json".to_string(),
        "2022-02-DATA.json".to_string(),
        "2022-03-DATA.json".to_string(),
    ];
    let first = "2022-01-DATA.json".to_string();
    let last = "2022-02-DATA.json".to_string();
    let picked = select_file_names(&names, &first, &last);
    assert_eq!(
        picked,
        vec!["2022-01-DATA.json".to_string(), "2022-02-DATA.json".to_string()]
    );
}

#[test]
fn selection_sorts_whatever_order_the_directory_gave() {
    let names: Vec<String> = vec![
        "2022-03-DATA.json".to_string(),
        "2022-01-DATA.json".to_string(),
        "2022-02-DATA.json".to_string(),
    ];
    let first = "2022-01-DATA.json".to_string();
    let last = "2022-12-DATA.json".to_string();
    let picked = select_file_names(&names, &first, &last);
    assert_eq!(
        picked,
        vec![
            "2022-01-DATA.json".to_string(),
            "2022-02-DATA.json".to_string(),
            "2022-03-DATA.json".to_string(),
        ]
    );
}

#[test]
fn year_boundary_sorts_chronologically() {
    // the naming scheme makes lexicographic order chronological
    let names: Vec<String> = vec![
        "2023-01-DATA.json".to_string(),
        "2022-12-DATA.json".to_string(),
    ];
    let first = "2022-11-DATA.json".to_string();
    let last = "2023-02-DATA.json".to_string();
    let picked = select_file_names(&names, &first, &last);
    assert_eq!(
        picked,
        vec!["2022-12-DATA.json".to_string(), "2023-01-DATA.json".to_string()]
    );
}

#[test]
fn names_outside_the_range_are_dropped() {
    let names: Vec<String> = vec![
        "2021-12-DATA.json".to_string(),
        "2022-01-DATA.json".to_string(),
        "notes.txt".to_string(),
    ];
    let first = "2022-01-DATA.json".to_string();
    let last = "2022-02-DATA.json".to_string();
    let picked = select_file_names(&names, &first, &last);
    assert_eq!(picked, vec!["2022-01-DATA.json".to_string()]);
}

#[test]
fn empty_listing_gives_empty_selection() {
    let names: Vec<String> = vec![];
    let first = "2022-01-DATA.json".to_string();
    let last = "2022-02-DATA.json".to_string();
    assert!(select_file_names(&names, &first, &last).is_empty());
}

#[test]
fn string_order_is_lexicographic() {
    assert!(str_le(&"abc".to_string(), &"abd".to_string()));
    assert!(str_le(&"ab".to_string(), &"abc".to_string()));
    assert!(!str_le(&"b".to_string(), &"abc".to_string()));
    assert!(str_le(&"".to_string(), &"a".to_string()));
    assert!(str_le(&"same".to_string(), &"same".to_string()));
}

use movement_tracks_analyzer::extract_categories;

#[test]
fn test_extract_categories_full_path() {
    let path = vec![
        "移動軌跡".to_string(),
        "戶外運動".to_string(),
        "步行".to_string(),
        "2026".to_string(),
        "2026-03".to_string(),
    ];

    let (cat, act, year, month) = extract_categories(&path, "移動軌跡");
    assert_eq!(cat, "戶外運動");
    assert_eq!(act, "步行");
    assert_eq!(year, "2026");
    assert_eq!(month, "2026-03");
}

#[test]
fn test_extract_categories_with_spaces() {
    let path = vec![
        "移動軌跡".to_string(),
        "  動力交通工具  ".to_string(),
        "飛機".to_string(),
        "2026".to_string(),
        "2026-02".to_string(),
    ];

    let (cat, act, year, month) = extract_categories(&path, "移動軌跡");
    assert_eq!(cat, "  動力交通工具  ");
    assert_eq!(act, "飛機");
    assert_eq!(year, "2026");
    assert_eq!(month, "2026-02");
}

#[test]
fn test_extract_categories_with_three_meaningful_elements() {
    let path = vec![
        "移動軌跡".to_string(),
        "戶外運動".to_string(),
        "步行".to_string(),
        "2026".to_string(),
    ];

    let (cat, act, year, month) = extract_categories(&path, "移動軌跡");
    assert_eq!(cat, "");
    assert_eq!(act, "戶外運動");
    assert_eq!(year, "步行");
    assert_eq!(month, "2026");
}

#[test]
fn test_extract_categories_single_non_root_element() {
    let path = vec!["2026-03".to_string()];

    let (cat, act, year, month) = extract_categories(&path, "some_file");
    assert_eq!(cat, "");
    assert_eq!(act, "");
    assert_eq!(year, "");
    assert_eq!(month, "2026-03");
}

#[test]
fn test_extract_categories_empty_path() {
    let path: Vec<String> = vec![];

    let (cat, act, year, month) = extract_categories(&path, "some_file");
    assert_eq!(cat, "");
    assert_eq!(act, "");
    assert_eq!(year, "");
    assert_eq!(month, "");
}

fn strings(v: &[&str]) -> Vec<String> {
    v.iter().map(|s| s.to_string()).collect()
}

#[test]
fn single_element_without_dash_is_a_year() {
    let (cat, act, year, month) = extract_categories(&strings(&["2026"]), "root");
    assert_eq!((cat.as_str(), act.as_str(), year.as_str(), month.as_str()), ("", "", "2026", ""));
}

#[test]
fn single_element_is_a_month_by_its_byte_length() {
    // Seven bytes with a dash: a month.
    let (_, _, year, month) = extract_categories(&strings(&["ab-cdef"]), "root");
    assert_eq!((year.as_str(), month.as_str()), ("", "ab-cdef"));
    // Three characters but seven bytes in UTF-8 with a dash: still a month.
    let (_, _, year, month) = extract_categories(&strings(&["年-月"]), "root");
    assert_eq!((year.as_str(), month.as_str()), ("", "年-月"));
    // Seven characters but more than seven bytes: a year.
    let (_, _, year, month) = extract_categories(&strings(&["2026-0月"]), "root");
    assert_eq!((year.as_str(), month.as_str()), ("2026-0月", ""));
}

#[test]
fn two_elements_are_year_and_month() {
    let (cat, act, year, month) = extract_categories(&strings(&["2026", "x"]), "root");
    assert_eq!((cat.as_str(), act.as_str(), year.as_str(), month.as_str()), ("", "", "2026", "x"));
}

#[test]
fn deep_paths_use_their_last_four_folders() {
    let path = strings(&["a", "b", "c", "d", "e", "f"]);
    let (cat, act, year, month) = extract_categories(&path, "root");
    assert_eq!((cat.as_str(), act.as_str(), year.as_str(), month.as_str()), ("c", "d", "e", "f"));
}

#[test]
fn root_folders_anywhere_are_ignored() {
    let plain = strings(&["戶外運動", "步行", "2026", "2026-03"]);
    let with_roots = strings(&["root", "戶外運動", "root", "步行", "2026", "root", "2026-03", "root"]);
    assert_eq!(extract_categories(&plain, "root"), extract_categories(&with_roots, "root"));
}

#[test]
fn labels_come_from_the_path_and_never_the_root() {
    let path = strings(&["root", "root", "x"]);
    let (cat, act, year, month) = extract_categories(&path, "root");
    for label in [cat, act, year, month] {
        assert!(label.is_empty() || (path.contains(&label) && label != "root"));
    }
}

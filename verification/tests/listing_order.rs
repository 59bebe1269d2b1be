use dirlist::entry::ListEntry;
use dirlist::listing::build_listing;

fn names(rows: &[ListEntry]) -> Vec<String> {
    rows.iter().map(|e| e.name.clone()).collect()
}

#[test]
fn directories_first_then_files_by_name() {
    let children = vec![
        ListEntry::file(String::from("b.txt"), 10, 0),
        ListEntry::file(String::from("a.txt"), 2000, 0),
        ListEntry::subdir(String::from("z"), 0),
    ];
    let rows = build_listing(children, true, 0);
    assert_eq!(names(&rows), vec!["z", "a.txt", "b.txt"]);
    assert!(rows[0].directory);
    assert!(!rows[1].directory);
    assert_eq!(rows[1].size, Some(2000));
    assert_eq!(rows[2].size, Some(10));
}

#[test]
fn root_listing_has_no_parent_row() {
    let children = vec![
        ListEntry::file(String::from("a"), 1, 0),
        ListEntry::subdir(String::from("d"), 0),
    ];
    let rows = build_listing(children, true, 77);
    assert_eq!(rows.len(), 2);
    assert!(rows.iter().all(|e| e.name != ".."));
}

#[test]
fn subdirectory_listing_has_exactly_one_parent_row() {
    let children = vec![
        ListEntry::file(String::from("a"), 1, 0),
        ListEntry::subdir(String::from("d"), 0),
    ];
    let rows = build_listing(children, false, 77);
    assert_eq!(rows.len(), 3);
    assert_eq!(rows.iter().filter(|e| e.name == "..").count(), 1);
    let parent = rows.iter().find(|e| e.name == "..").unwrap();
    assert!(parent.directory);
    assert_eq!(parent.size, None);
    assert_eq!(parent.modified, 77);
}

#[test]
fn parent_row_is_first_unless_a_directory_sorts_before_it() {
    let children = vec![
        ListEntry::subdir(String::from("zebra"), 0),
        ListEntry::file(String::from("apple.txt"), 5, 0),
    ];
    let rows = build_listing(children, false, 0);
    assert_eq!(names(&rows), vec!["..", "zebra", "apple.txt"]);

    // '!' precedes '.' in code-point order, so that directory comes first
    let children = vec![
        ListEntry::subdir(String::from("!bang"), 0),
        ListEntry::file(String::from("apple.txt"), 5, 0),
    ];
    let rows = build_listing(children, false, 0);
    assert_eq!(names(&rows), vec!["!bang", "..", "apple.txt"]);
}

#[test]
fn sorting_is_by_code_point_within_each_category() {
    let children = vec![
        ListEntry::file(String::from("B"), 1, 0),
        ListEntry::file(String::from("a"), 1, 0),
        ListEntry::file(String::from("Z"), 1, 0),
        ListEntry::subdir(String::from("y"), 0),
        ListEntry::subdir(String::from("X"), 0),
    ];
    let rows = build_listing(children, true, 0);
    assert_eq!(names(&rows), vec!["X", "y", "B", "Z", "a"]);
}

#[test]
fn timestamps_are_clamped_into_the_renderable_range() {
    let e = ListEntry::file(String::from("f"), 1, i64::MAX);
    assert_eq!(e.modified, 253402300799);
    let e = ListEntry::subdir(String::from("d"), i64::MIN);
    assert_eq!(e.modified, -62167219200);
    let e = ListEntry::file(String::from("g"), 1, 123);
    assert_eq!(e.modified, 123);
}

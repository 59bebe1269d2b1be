use dirlist::entry::ListEntry;
use dirlist::service::{is_root_path, respond, strip_leading_slashes, DirListService};
use dirlist::time::{current_timestamp, MAX_TIMESTAMP, MIN_TIMESTAMP};

#[test]
fn failure_maps_to_500_and_never_200() {
    let reply = respond(Err(String::from("No such file or directory (os error 2)")));
    assert_eq!(reply.status, 500);
    assert_eq!(reply.body, "internal server error");
}

#[test]
fn success_maps_to_200_with_the_page() {
    let reply = respond(Ok(String::from("<html></html>")));
    assert_eq!(reply.status, 200);
    assert_eq!(reply.body, "<html></html>");
}

#[test]
fn leading_separators_are_stripped() {
    assert_eq!(strip_leading_slashes("/foo/bar"), "foo/bar");
    assert_eq!(strip_leading_slashes("///foo"), "foo");
    assert_eq!(strip_leading_slashes("foo/"), "foo/");
    assert_eq!(strip_leading_slashes(""), "");
    assert_eq!(strip_leading_slashes("///"), "");
}

#[test]
fn root_is_the_empty_or_separator_subpath() {
    assert!(is_root_path(""));
    assert!(is_root_path("/"));
    assert!(!is_root_path("sub"));
    assert!(!is_root_path("a/b"));
    assert!(!is_root_path("//"));
}

#[test]
fn service_keeps_its_root() {
    let s = DirListService::new(String::from("/srv/files"));
    assert_eq!(s.root, "/srv/files");
}

#[test]
fn full_listing_for_a_subdirectory_request() {
    let children = vec![
        ListEntry::file(String::from("notes.txt"), 1024, 0),
        ListEntry::subdir(String::from("img"), 0),
    ];
    let service = DirListService::new(String::from("."));
    let page = service.render_directory_listing("sub", children);
    let parent = page.find("<a href=\"../\">..</a>").unwrap();
    let img = page.find("<a href=\"img/\">img</a>").unwrap();
    let notes = page.find("<a href=\"notes.txt\">notes.txt</a>").unwrap();
    assert!(parent < img && img < notes);
    assert!(page.contains("<td>1.00 KiB</td>"));
}

#[test]
fn clock_readings_stay_in_the_renderable_range() {
    let now = current_timestamp();
    assert!(MIN_TIMESTAMP <= now && now <= MAX_TIMESTAMP);
    // the clock reads far later than the epoch
    assert!(now > 1_600_000_000);
}

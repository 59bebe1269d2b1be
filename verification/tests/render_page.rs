use dirlist::entry::ListEntry;
use dirlist::escape::escape_html;
use dirlist::listing::build_listing;
use dirlist::render::render_html;
use dirlist::service::DirListService;

const PREFIX: &str = "<html><head><link rel=\"stylesheet\" href=\"https://cdn.jsdelivr.net/npm/@picocss/pico@1/css/pico.min.css\" /></head><body><table style=\"width: 100vw\"><thead><tr><th style=\"width: 60%;\">Name</th><th style=\"min-width: fit-content;\">Size</th><th style=\"min-width: fit-content;\">Modified</th></tr></thead><tbody>";
const SUFFIX: &str = "</tbody></table></body></html>";

#[test]
fn one_file_page_is_exact() {
    let rows = vec![ListEntry::file(String::from("hello.txt"), 10, 0)];
    let page = render_html(&rows);
    let expected = format!(
        "{}<tr><td><a href=\"hello.txt\">hello.txt</a></td><td>10 B</td>\
         <td>Thu, 1 Jan 1970 00:00:00 +0000</td></tr>{}",
        PREFIX, SUFFIX
    );
    assert_eq!(page, expected);
}

#[test]
fn directory_links_carry_a_trailing_separator() {
    let rows = vec![ListEntry::subdir(String::from("docs"), 0)];
    let page = render_html(&rows);
    assert!(page.contains("<a href=\"docs/\">docs</a>"));
    // the size cell of a directory is empty
    assert!(page.contains("</td><td></td><td>Thu, 1 Jan 1970 00:00:00 +0000"));
}

#[test]
fn entry_names_are_escaped_in_the_page() {
    let rows = vec![ListEntry::file(String::from("a<b>&\"c'.txt"), 1, 0)];
    let page = render_html(&rows);
    assert!(page.contains("<a href=\"a&lt;b&gt;&amp;&quot;c&#39;.txt\">"));
    assert!(!page.contains("<a href=\"a<b>"));
}

#[test]
fn escaping_replaces_only_markup_characters() {
    assert_eq!(escape_html("plain-name_1.txt"), "plain-name_1.txt");
    assert_eq!(escape_html("a<b&c\"d'e>f"), "a&lt;b&amp;c&quot;d&#39;e&gt;f");
    assert_eq!(escape_html(""), "");
}

#[test]
fn repeated_rendering_of_the_same_state_is_identical() {
    let make = || {
        vec![
            ListEntry::file(String::from("b.txt"), 10, 1000),
            ListEntry::file(String::from("a.txt"), 2000, 2000),
            ListEntry::subdir(String::from("z"), 3000),
        ]
    };
    let first = DirListService::render_listing("sub/dir", make(), 4000);
    let second = DirListService::render_listing("sub/dir", make(), 4000);
    assert_eq!(first, second);
}

#[test]
fn rendered_rows_follow_listing_order() {
    let children = vec![
        ListEntry::file(String::from("b.txt"), 10, 0),
        ListEntry::file(String::from("a.txt"), 2000, 0),
        ListEntry::subdir(String::from("z"), 0),
    ];
    let rows = build_listing(children, true, 0);
    let page = render_html(&rows);
    let z = page.find("<a href=\"z/\">").unwrap();
    let a = page.find("<a href=\"a.txt\">").unwrap();
    let b = page.find("<a href=\"b.txt\">").unwrap();
    assert!(z < a && a < b);
}

#[test]
fn modified_cells_use_rfc2822_dates() {
    let rows = vec![ListEntry::file(String::from("f"), 1, 1431648000)];
    let page = render_html(&rows);
    assert!(page.contains("<td>Fri, 15 May 2015 00:00:00 +0000</td>"));
}

use epub2mdbook::resource::{is_html, FileNameIndex, ResourceEntry, ResourceMap};

fn entry(id: &str, path: &str, media_type: &str) -> ResourceEntry {
    ResourceEntry {
        id: id.to_string(),
        path: path.to_string(),
        media_type: media_type.to_string(),
    }
}

#[test]
fn html_family_is_two_media_types() {
    assert!(is_html("application/xhtml+xml"));
    assert!(is_html("text/html"));
    assert!(!is_html("text/css"));
    assert!(!is_html("image/jpeg"));
    assert!(!is_html("TEXT/HTML"));
    assert!(!is_html("text/html; charset=utf-8"));
    assert!(!is_html(""));
}

#[test]
fn resource_map_holds_the_html_resources_and_no_others() {
    let resources = vec![
        entry("c1", "OEBPS/ch1.xhtml", "application/xhtml+xml"),
        entry("css", "OEBPS/style.css", "text/css"),
        entry("c2", "OEBPS/sub/ch2.html", "text/html"),
        entry("cover", "cover.jpg", "image/jpeg"),
        entry("ncx", "toc.ncx", "application/x-dtbncx+xml"),
    ];
    let map = ResourceMap::build(&resources);
    assert_eq!(map.get("OEBPS/ch1.xhtml").map(|s| s.as_str()), Some("OEBPS/ch1.md"));
    assert_eq!(map.get("OEBPS/sub/ch2.html").map(|s| s.as_str()), Some("OEBPS/sub/ch2.md"));
    assert_eq!(map.get("OEBPS/style.css"), None);
    assert_eq!(map.get("cover.jpg"), None);
    assert_eq!(map.get("toc.ncx"), None);
    assert_eq!(map.get("ch1.xhtml"), None);
    assert_eq!(map.get("OEBPS/ch1.md"), None);
}

#[test]
fn resource_map_of_nothing_is_empty() {
    let map = ResourceMap::build(&Vec::new());
    assert_eq!(map.get(""), None);
    assert_eq!(map.get("ch1.xhtml"), None);
}

#[test]
fn resource_map_goes_by_media_type_not_by_extension() {
    let resources = vec![
        entry("a", "page.html", "text/plain"),
        entry("b", "notes.txt", "application/xhtml+xml"),
        entry("c", "noext", "text/html"),
    ];
    let map = ResourceMap::build(&resources);
    assert_eq!(map.get("page.html"), None);
    assert_eq!(map.get("notes.txt").map(|s| s.as_str()), Some("notes.md"));
    assert_eq!(map.get("noext").map(|s| s.as_str()), Some("noext.md"));
}

#[test]
fn resource_map_takes_a_path_declared_twice() {
    let resources = vec![
        entry("a", "ch1.xhtml", "image/png"),
        entry("b", "ch1.xhtml", "application/xhtml+xml"),
        entry("c", "ch1.xhtml", "application/xhtml+xml"),
    ];
    let map = ResourceMap::build(&resources);
    assert_eq!(map.get("ch1.xhtml").map(|s| s.as_str()), Some("ch1.md"));
}

#[test]
fn file_name_index_holds_what_was_entered() {
    let mut index = FileNameIndex::new();
    assert_eq!(index.get("a.html"), None);
    index.insert("a.html", "a.md");
    index.insert("b.xhtml", "b.md");
    assert_eq!(index.get("a.html").map(|s| s.as_str()), Some("a.md"));
    assert_eq!(index.get("b.xhtml").map(|s| s.as_str()), Some("b.md"));
    assert_eq!(index.get("A.html"), None);
    assert_eq!(index.get("a.md"), None);
}

#[test]
fn file_name_index_keeps_the_later_rename() {
    let mut index = FileNameIndex::new();
    index.insert("a.html", "old.md");
    index.insert("b.html", "b.md");
    index.insert("a.html", "new.md");
    assert_eq!(index.get("a.html").map(|s| s.as_str()), Some("new.md"));
    assert_eq!(index.get("b.html").map(|s| s.as_str()), Some("b.md"));
}

#[test]
fn file_name_index_is_made_of_the_file_names() {
    let resources = vec![
        entry("c1", "OEBPS/text/ch1.xhtml", "application/xhtml+xml"),
        entry("c2", "OEBPS/ch2.html", "text/html"),
        entry("c3", "ch3.xhtml", "application/xhtml+xml"),
        entry("img", "OEBPS/img/a.png", "image/png"),
    ];
    let index = FileNameIndex::from_resource_map(&ResourceMap::build(&resources));
    assert_eq!(index.get("ch1.xhtml").map(|s| s.as_str()), Some("ch1.md"));
    assert_eq!(index.get("ch2.html").map(|s| s.as_str()), Some("ch2.md"));
    assert_eq!(index.get("ch3.xhtml").map(|s| s.as_str()), Some("ch3.md"));
    assert_eq!(index.get("a.png"), None);
    assert_eq!(index.get("OEBPS/text/ch1.xhtml"), None);
    assert_eq!(index.get("OEBPS/ch2.html"), None);
}

#[test]
fn file_name_index_leaves_out_paths_without_file_name() {
    let resources = vec![
        entry("a", "dir/", "text/html"),
        entry("b", "..", "text/html"),
        entry("c", "x/ok.html", "text/html"),
    ];
    let map = ResourceMap::build(&resources);
    assert_eq!(map.get("dir/").map(|s| s.as_str()), Some("dir/"));
    let index = FileNameIndex::from_resource_map(&map);
    assert_eq!(index.get(""), None);
    assert_eq!(index.get(".."), None);
    assert_eq!(index.get("ok.html").map(|s| s.as_str()), Some("ok.md"));
}

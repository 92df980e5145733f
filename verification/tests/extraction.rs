use epub2mdbook::error::Error;
use epub2mdbook::extract::{
    extract_chapters_and_resources, extract_resource, readable_files, target_path, OutputFile,
    PackagedFile, ResourceRead,
};
use epub2mdbook::resource::{FileNameIndex, ResourceEntry, ResourceMap};

fn entry(path: &str, media_type: &str) -> ResourceEntry {
    ResourceEntry {
        id: path.to_string(),
        path: path.to_string(),
        media_type: media_type.to_string(),
    }
}

fn file(path: &str, content: &[u8]) -> PackagedFile {
    PackagedFile { path: path.to_string(), content: content.to_vec() }
}

fn chapters(paths: &[&str]) -> ResourceMap {
    let resources: Vec<ResourceEntry> =
        paths.iter().map(|path| entry(path, "application/xhtml+xml")).collect();
    ResourceMap::build(&resources)
}

fn text(out: &OutputFile) -> String {
    String::from_utf8(out.content.clone()).unwrap()
}

#[test]
fn resources_go_below_src() {
    let map = chapters(&["OEBPS/ch1.xhtml"]);
    assert_eq!(target_path("OEBPS/ch1.xhtml", &map), "src/OEBPS/ch1.md");
    assert_eq!(target_path("OEBPS/style.css", &map), "src/OEBPS/style.css");
    assert_eq!(target_path("cover.jpg", &map), "src/cover.jpg");
    assert_eq!(target_path("ch1.xhtml", &map), "src/ch1.xhtml");
}

#[test]
fn name_of_the_table_of_contents_is_taken() {
    let map = chapters(&["SUMMARY.xhtml", "sub/SUMMARY.xhtml"]);
    assert_eq!(target_path("SUMMARY.xhtml", &map), "src/_SUMMARY.md");
    assert_eq!(target_path("SUMMARY.md", &map), "src/_SUMMARY.md");
    assert_eq!(target_path("sub/SUMMARY.xhtml", &map), "src/sub/SUMMARY.md");
    assert_eq!(target_path("summary.md", &map), "src/summary.md");
    assert_eq!(target_path("_SUMMARY.md", &map), "src/_SUMMARY.md");
}

#[test]
fn other_files_are_copied_byte_for_byte() {
    let map = chapters(&["ch1.xhtml"]);
    let bytes = [0xff, 0xd8, 0xff, 0xe0, 0x00, 0x10, 0x80, 0xfe];
    let out = extract_resource(&file("cover.jpg", &bytes), &map, &FileNameIndex::new()).unwrap();
    assert_eq!(out.path, "src/cover.jpg");
    assert_eq!(out.content, bytes);
    let html = b"<a href=\"ch1.xhtml\">x</a>";
    let out = extract_resource(&file("extra.html", html), &map, &FileNameIndex::new()).unwrap();
    assert_eq!(out.path, "src/extra.html");
    assert_eq!(out.content, html);
    let out = extract_resource(&file("empty.bin", &[]), &map, &FileNameIndex::new()).unwrap();
    assert_eq!(out.path, "src/empty.bin");
    assert!(out.content.is_empty());
}

#[test]
fn chapter_is_converted_to_markdown() {
    let map = chapters(&["text/ch1.xhtml"]);
    let out = extract_resource(
        &file("text/ch1.xhtml", b"<h1>Hello</h1>"),
        &map,
        &FileNameIndex::from_resource_map(&map),
    )
    .unwrap();
    assert_eq!(out.path, "src/text/ch1.md");
    assert_eq!(text(&out), "# Hello");
}

#[test]
fn links_of_a_chapter_are_rewritten() {
    let map = chapters(&["text/ch1.xhtml", "text/ch2.xhtml"]);
    let html = "<p>See <a href=\"ch2.xhtml#sec2\">two</a> and \
                <a href=\"https://example.com/ch2.xhtml\">out</a> and \
                <a href=\"ch3.xhtml\">three</a>.</p>";
    let out = extract_resource(
        &file("text/ch1.xhtml", html.as_bytes()),
        &map,
        &FileNameIndex::from_resource_map(&map),
    )
    .unwrap();
    assert_eq!(
        text(&out),
        "See [two](ch2.md#sec2) and [out](https://example.com/ch2.xhtml) and [three](ch3.xhtml)."
    );
}

#[test]
fn chapter_with_bad_encoding_is_an_error() {
    let map = chapters(&["ch1.xhtml"]);
    let index = FileNameIndex::from_resource_map(&map);
    let extracted = extract_resource(&file("ch1.xhtml", &[b'<', b'p', b'>', 0xff, 0xfe]), &map, &index);
    assert!(matches!(extracted, Err(Error::Utf8(_))));
    let extracted = extract_resource(&file("ch1.xhtml", &[0xc3]), &map, &index);
    assert!(matches!(extracted, Err(Error::Utf8(_))));
    let extracted = extract_resource(&file("other.bin", &[0xff, 0xfe]), &map, &index);
    assert!(extracted.is_ok());
}

#[test]
fn files_are_extracted_in_their_order() {
    let map = chapters(&["ch1.xhtml", "ch2.xhtml"]);
    let files = vec![
        file("cover.jpg", &[1, 2, 3]),
        file("ch2.xhtml", b"<p><a href=\"ch1.xhtml\">back</a></p>"),
        file("ch1.xhtml", b"<h2>One</h2>"),
        file("style.css", b"p { margin: 0 }"),
    ];
    let out = extract_chapters_and_resources(&files, &map).unwrap();
    assert_eq!(out.len(), 4);
    assert_eq!(out[0].path, "src/cover.jpg");
    assert_eq!(out[0].content, [1, 2, 3]);
    assert_eq!(out[1].path, "src/ch2.md");
    assert_eq!(text(&out[1]), "[back](ch1.md)");
    assert_eq!(out[2].path, "src/ch1.md");
    assert_eq!(text(&out[2]), "## One");
    assert_eq!(out[3].path, "src/style.css");
    assert_eq!(out[3].content, b"p { margin: 0 }");
}

#[test]
fn no_files_no_output() {
    let out = extract_chapters_and_resources(&Vec::new(), &chapters(&["ch1.xhtml"])).unwrap();
    assert!(out.is_empty());
}

#[test]
fn first_bad_chapter_stops_the_extraction() {
    let map = chapters(&["ch1.xhtml", "ch2.xhtml"]);
    let files = vec![
        file("ch1.xhtml", b"<p>fine</p>"),
        file("ch2.xhtml", &[0x80]),
        file("cover.jpg", &[1]),
    ];
    assert!(matches!(extract_chapters_and_resources(&files, &map), Err(Error::Utf8(_))));
}

#[test]
fn chapter_named_like_the_table_of_contents_is_set_aside() {
    let map = chapters(&["SUMMARY.xhtml"]);
    let files = vec![file("SUMMARY.xhtml", b"<p>summary of the plot</p>")];
    let out = extract_chapters_and_resources(&files, &map).unwrap();
    assert_eq!(out.len(), 1);
    assert_eq!(out[0].path, "src/_SUMMARY.md");
    assert_eq!(text(&out[0]), "summary of the plot");
}

#[test]
fn resource_that_cannot_be_read_is_passed_over() {
    let read = vec![
        ResourceRead { path: "a.xhtml".to_string(), content: Some(vec![1]) },
        ResourceRead { path: "gone.png".to_string(), content: None },
        ResourceRead { path: "b.css".to_string(), content: Some(Vec::new()) },
        ResourceRead { path: "gone.xhtml".to_string(), content: None },
        ResourceRead { path: "c.jpg".to_string(), content: Some(vec![2, 3]) },
    ];
    let files = readable_files(read);
    assert_eq!(files.len(), 3);
    assert_eq!(files[0].path, "a.xhtml");
    assert_eq!(files[0].content, [1]);
    assert_eq!(files[1].path, "b.css");
    assert!(files[1].content.is_empty());
    assert_eq!(files[2].path, "c.jpg");
    assert_eq!(files[2].content, [2, 3]);
}

#[test]
fn nothing_read_nothing_kept() {
    assert!(readable_files(Vec::new()).is_empty());
    let read = vec![ResourceRead { path: "gone".to_string(), content: None }];
    assert!(readable_files(read).is_empty());
}

use epub2mdbook::path::{file_name, is_file_name, last_index_of, with_extension};
use epub2mdbook::text::{first_index_of, str_eq};

#[test]
fn file_name_is_what_follows_the_last_slash() {
    assert_eq!(file_name("a/b/c.html"), "c.html");
    assert_eq!(file_name("c.html"), "c.html");
    assert_eq!(file_name("a/"), "");
    assert_eq!(file_name(""), "");
    assert_eq!(file_name("/abs/x"), "x");
    assert_eq!(file_name("../ch1.xhtml"), "ch1.xhtml");
}

#[test]
fn file_name_counts_characters_not_bytes() {
    assert_eq!(file_name("書/第一章.xhtml"), "第一章.xhtml");
    assert_eq!(file_name("é/è"), "è");
}

#[test]
fn segments_that_name_no_file() {
    assert!(!is_file_name(""));
    assert!(!is_file_name("."));
    assert!(!is_file_name(".."));
    assert!(is_file_name("..."));
    assert!(is_file_name("a"));
    assert!(is_file_name(".a"));
    assert!(is_file_name("a."));
    assert!(is_file_name("ch1.html"));
}

#[test]
fn extension_is_replaced() {
    assert_eq!(with_extension("ch1.xhtml", "md"), "ch1.md");
    assert_eq!(with_extension("OEBPS/text/ch1.html", "md"), "OEBPS/text/ch1.md");
    assert_eq!(with_extension("archive.tar.gz", "md"), "archive.tar.md");
    assert_eq!(with_extension("name.", "md"), "name.md");
    assert_eq!(with_extension("書/第一章.xhtml", "md"), "書/第一章.md");
}

#[test]
fn extension_is_added_where_there_is_none() {
    assert_eq!(with_extension("README", "md"), "README.md");
    assert_eq!(with_extension("a.b/c", "md"), "a.b/c.md");
    assert_eq!(with_extension(".hidden", "md"), ".hidden.md");
    assert_eq!(with_extension("dir/.hidden", "md"), "dir/.hidden.md");
}

#[test]
fn empty_extension_drops_the_old_one() {
    assert_eq!(with_extension("a.html", ""), "a");
    assert_eq!(with_extension("d/a.tar.gz", ""), "d/a.tar");
    assert_eq!(with_extension("plain", ""), "plain");
}

#[test]
fn path_without_file_name_stays() {
    assert_eq!(with_extension("", "md"), "");
    assert_eq!(with_extension("dir/", "md"), "dir/");
    assert_eq!(with_extension("..", "md"), "..");
    assert_eq!(with_extension("a/..", "md"), "a/..");
    assert_eq!(with_extension("a/.", "md"), "a/.");
}

#[test]
fn last_index_is_found() {
    assert_eq!(last_index_of("a/b/c", '/'), Some(3));
    assert_eq!(last_index_of("abc", '/'), None);
    assert_eq!(last_index_of("", '/'), None);
    assert_eq!(last_index_of("/", '/'), Some(0));
    assert_eq!(last_index_of("é.è.x", '.'), Some(3));
}

#[test]
fn first_index_is_found() {
    assert_eq!(first_index_of("[a](b)](c)", ']'), Some(2));
    assert_eq!(first_index_of("abc", ']'), None);
    assert_eq!(first_index_of("", ']'), None);
    assert_eq!(first_index_of("é]è]", ']'), Some(1));
}

#[test]
fn strings_compare_by_their_characters() {
    assert!(str_eq("", ""));
    assert!(str_eq("text/html", "text/html"));
    assert!(!str_eq("text/html", "text/htm"));
    assert!(!str_eq("text/html", "text/htmL"));
    assert!(!str_eq("a", ""));
    assert!(str_eq("第一章", "第一章"));
    assert!(!str_eq("第一章", "第二章"));
}

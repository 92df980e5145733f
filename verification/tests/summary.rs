use epub2mdbook::generate_summary_md;
use epub2mdbook::nav::{epub_nav_to_md, NavEntry};
use epub2mdbook::resource::{ResourceEntry, ResourceMap};

fn html(path: &str) -> ResourceEntry {
    ResourceEntry {
        id: path.to_string(),
        path: path.to_string(),
        media_type: "application/xhtml+xml".to_string(),
    }
}

fn nav(label: &str, content: &str, children: Vec<NavEntry>) -> NavEntry {
    NavEntry { label: label.to_string(), content: content.to_string(), children }
}

#[test]
fn entry_without_mapping_is_none() {
    let map = ResourceMap::build(&vec![html("a.xhtml")]);
    assert_eq!(epub_nav_to_md(&nav("C", "c.xhtml", Vec::new()), 0, &map), None);
    assert_eq!(epub_nav_to_md(&nav("C", "a.xhtml#top", Vec::new()), 0, &map), None);
}

#[test]
fn entry_is_one_list_item() {
    let map = ResourceMap::build(&vec![html("text/a.xhtml")]);
    assert_eq!(
        epub_nav_to_md(&nav("Chapter 1", "text/a.xhtml", Vec::new()), 0, &map),
        Some("- [Chapter 1](text/a.md)\n".to_string())
    );
}

#[test]
fn indent_is_two_spaces_a_level() {
    let map = ResourceMap::build(&vec![html("a.xhtml")]);
    assert_eq!(
        epub_nav_to_md(&nav("A", "a.xhtml", Vec::new()), 1, &map),
        Some("  - [A](a.md)\n".to_string())
    );
    assert_eq!(
        epub_nav_to_md(&nav("A", "a.xhtml", Vec::new()), 3, &map),
        Some("      - [A](a.md)\n".to_string())
    );
}

#[test]
fn children_are_nested_and_unmapped_ones_left_out() {
    let map = ResourceMap::build(&vec![html("a.xhtml"), html("b.xhtml")]);
    let tree = nav(
        "A",
        "a.xhtml",
        vec![nav("B", "b.xhtml", Vec::new()), nav("C", "c.xhtml", Vec::new())],
    );
    assert_eq!(
        epub_nav_to_md(&tree, 0, &map),
        Some("- [A](a.md)\n  - [B](b.md)\n".to_string())
    );
}

#[test]
fn unmapped_entry_takes_its_subtree_with_it() {
    let map = ResourceMap::build(&vec![html("a.xhtml"), html("b.xhtml")]);
    let tree = nav(
        "A",
        "a.xhtml",
        vec![
            nav("C", "c.xhtml", vec![nav("B under C", "b.xhtml", Vec::new())]),
            nav("B", "b.xhtml", vec![nav("A again", "a.xhtml", Vec::new())]),
        ],
    );
    assert_eq!(
        epub_nav_to_md(&tree, 0, &map),
        Some("- [A](a.md)\n  - [B](b.md)\n    - [A again](a.md)\n".to_string())
    );
    let lost = nav("C", "c.xhtml", vec![nav("B", "b.xhtml", Vec::new())]);
    assert_eq!(epub_nav_to_md(&lost, 0, &map), None);
}

#[test]
fn summary_has_heading_and_list() {
    let resources = vec![
        html("a.xhtml"),
        html("b.xhtml"),
        ResourceEntry {
            id: "c".to_string(),
            path: "c.xhtml".to_string(),
            media_type: "image/png".to_string(),
        },
    ];
    let toc = vec![
        nav(
            "A",
            "a.xhtml",
            vec![nav("B", "b.xhtml", Vec::new()), nav("C", "c.xhtml", Vec::new())],
        ),
        nav("C top", "c.xhtml", vec![nav("hidden", "a.xhtml", Vec::new())]),
        nav("B top", "b.xhtml", Vec::new()),
    ];
    let (summary, map) = generate_summary_md(&resources, &toc, "Demo");
    assert_eq!(summary, "# Demo\n\n- [A](a.md)\n  - [B](b.md)\n- [B top](b.md)\n");
    assert_eq!(map.get("a.xhtml").map(|s| s.as_str()), Some("a.md"));
    assert_eq!(map.get("b.xhtml").map(|s| s.as_str()), Some("b.md"));
    assert_eq!(map.get("c.xhtml"), None);
}

#[test]
fn summary_of_an_empty_book_is_its_heading() {
    let (summary, map) = generate_summary_md(&Vec::new(), &Vec::new(), "Nothing");
    assert_eq!(summary, "# Nothing\n\n");
    assert_eq!(map.get("a.xhtml"), None);
}

#[test]
fn summary_keeps_labels_and_titles_as_they_are() {
    let resources = vec![html("OEBPS/第一章.xhtml")];
    let toc = vec![nav("第一章 [draft]", "OEBPS/第一章.xhtml", Vec::new())];
    let (summary, _) = generate_summary_md(&resources, &toc, "書 & Co.");
    assert_eq!(summary, "# 書 & Co.\n\n- [第一章 [draft]](OEBPS/第一章.md)\n");
}

#[test]
fn deep_tree_is_indented_level_by_level() {
    let map = ResourceMap::build(&vec![html("a.xhtml")]);
    let mut tree = nav("L4", "a.xhtml", Vec::new());
    tree = nav("L3", "a.xhtml", vec![tree]);
    tree = nav("L2", "a.xhtml", vec![tree]);
    tree = nav("L1", "a.xhtml", vec![tree]);
    tree = nav("L0", "a.xhtml", vec![tree]);
    assert_eq!(
        epub_nav_to_md(&tree, 0, &map),
        Some(
            "- [L0](a.md)\n  - [L1](a.md)\n    - [L2](a.md)\n      - [L3](a.md)\n        - [L4](a.md)\n"
                .to_string()
        )
    );
}

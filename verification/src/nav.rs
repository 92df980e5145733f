//! The navigation tree of an EPUB and its rendering as the nested list of a
//! `SUMMARY.md`.

use vstd::prelude::*;
use crate::resource::{resource_map_of, ResourceEntry, ResourceMap};

verus! {

/// One node of the navigation tree.
#[derive(Debug)]
pub struct NavEntry {
    /// The text shown for the entry.
    pub label: String,
    /// The resource that the entry points at.
    pub content: String,
    pub children: Vec<NavEntry>,
}

/// Two spaces for each level of depth.
pub open spec fn indentation(depth: nat) -> Seq<char>
    decreases depth,
{
    if depth == 0 {
        Seq::empty()
    } else {
        indentation((depth - 1) as nat) + seq![' ', ' ']
    }
}

/// The list item of one entry, without its indentation.
pub open spec fn list_item(label: Seq<char>, target: Seq<char>) -> Seq<char> {
    "- ["@ + label + "]("@ + target + ")\n"@
}

/// The lines that an entry and its subtree come to at `depth`: none at all
/// where the table does not hold the entry's resource, else the entry's own item
/// and below it the lines of its children, one level deeper.
pub open spec fn rendered_entry(
    nav: NavEntry,
    depth: nat,
    map: Map<Seq<char>, Seq<char>>,
) -> Seq<char>
    decreases nav, 1nat, 0nat,
{
    if map.contains_key(nav.content@) {
        indentation(depth) + list_item(nav.label@, map[nav.content@]) + rendered_first(
            nav,
            nav.children@.len(),
            depth + 1,
            map,
        )
    } else {
        Seq::empty()
    }
}

/// The lines of the first `n` children of `nav` at `depth`, in their order.
pub open spec fn rendered_first(
    nav: NavEntry,
    n: nat,
    depth: nat,
    map: Map<Seq<char>, Seq<char>>,
) -> Seq<char>
    decreases nav, 0nat, n,
{
    if n == 0 || n > nav.children@.len() {
        Seq::empty()
    } else {
        rendered_first(nav, (n - 1) as nat, depth, map) + rendered_entry(
            nav.children@[n - 1],
            depth,
            map,
        )
    }
}

/// The lines of the first `n` entries of a list at depth 0, in their order.
pub open spec fn rendered_toc(toc: Seq<NavEntry>, n: nat, map: Map<Seq<char>, Seq<char>>) -> Seq<
    char,
>
    decreases n,
{
    if n == 0 || n > toc.len() {
        Seq::empty()
    } else {
        rendered_toc(toc, (n - 1) as nat, map) + rendered_entry(toc[n - 1], 0, map)
    }
}

/// The whole `SUMMARY.md`: the title as a heading, an empty line, the list.
pub open spec fn summary_of(title: Seq<char>, toc: Seq<NavEntry>, map: Map<Seq<char>, Seq<char>>) -> Seq<
    char,
> {
    "# "@ + title + "\n\n"@ + rendered_toc(toc, toc.len(), map)
}

/// The indentation of a level is two spaces for each level above it, and
/// nothing else.
pub proof fn lemma_indentation(depth: nat)
    ensures
        indentation(depth).len() == 2 * depth,
        forall|i: int| 0 <= i < 2 * depth ==> indentation(depth)[i] == ' ',
    decreases depth,
{
    if depth > 0 {
        lemma_indentation((depth - 1) as nat);
    }
}

/// An entry whose resource the table holds begins with its own list item,
/// indented to its depth; an entry whose resource the table does not hold
/// gives no line at all, whatever stands below it.
pub proof fn lemma_entry_line(nav: NavEntry, depth: nat, map: Map<Seq<char>, Seq<char>>)
    ensures
        map.contains_key(nav.content@) ==> (indentation(depth) + list_item(
            nav.label@,
            map[nav.content@],
        )).is_prefix_of(rendered_entry(nav, depth, map)),
        !map.contains_key(nav.content@) ==> rendered_entry(nav, depth, map).len() == 0,
{
    if map.contains_key(nav.content@) {
        let head = indentation(depth) + list_item(nav.label@, map[nav.content@]);
        let all = rendered_entry(nav, depth, map);
        assert(all.subrange(0, head.len() as int) =~= head);
    }
}

/// Appends the lines of `nav` and its subtree to `out`, and says whether the
/// table holds the entry's resource.
fn render_into(
    nav: &NavEntry,
    prefix: &String,
    Ghost(depth): Ghost<nat>,
    html_to_md: &ResourceMap,
    out: &mut String,
) -> (found: bool)
    requires
        prefix@ == indentation(depth),
    ensures
        found == html_to_md@.contains_key(nav.content@),
        final(out)@ == old(out)@ + rendered_entry(*nav, depth, html_to_md@),
    decreases nav,
{
    match html_to_md.get(nav.content.as_str()) {
        None => {
            assert(out@ =~= old(out)@ + rendered_entry(*nav, depth, html_to_md@));
            false
        },
        Some(file) => {
            out.append(prefix.as_str());
            out.append("- [");
            out.append(nav.label.as_str());
            out.append("](");
            out.append(file.as_str());
            out.append(")\n");
            let ghost head = old(out)@ + indentation(depth) + list_item(
                nav.label@,
                html_to_md@[nav.content@],
            );
            assert(out@ =~= head);
            let mut deeper = prefix.clone();
            deeper.append("  ");
            proof {
                reveal_strlit("  ");
                assert(deeper@ =~= indentation(depth + 1));
            }
            let mut i: usize = 0;
            while i < nav.children.len()
                invariant
                    i <= nav.children.len(),
                    deeper@ == indentation(depth + 1),
                    out@ == head + rendered_first(*nav, i as nat, depth + 1, html_to_md@),
                decreases nav.children.len() - i,
            {
                render_into(&nav.children[i], &deeper, Ghost(depth + 1), html_to_md, out);
                i = i + 1;
                assert(out@ =~= head + rendered_first(*nav, i as nat, depth + 1, html_to_md@));
            }
            assert(out@ =~= old(out)@ + rendered_entry(*nav, depth, html_to_md@));
            true
        },
    }
}

/// The indentation of a level, as text.
fn indent_prefix(indent: usize) -> (prefix: String)
    ensures
        prefix@ == indentation(indent as nat),
{
    let mut prefix = String::new();
    let mut i: usize = 0;
    while i < indent
        invariant
            i <= indent,
            prefix@ == indentation(i as nat),
        decreases indent - i,
    {
        proof {
            reveal_strlit("  ");
        }
        prefix.append("  ");
        i = i + 1;
        assert(prefix@ =~= indentation(i as nat));
    }
    prefix
}

/// The Markdown list for an entry and its subtree, the entry itself indented
/// by `indent` levels; `None` where the table does not hold the entry's resource.
pub fn epub_nav_to_md(nav: &NavEntry, indent: usize, html_to_md: &ResourceMap) -> (md: Option<
    String,
>)
    ensures
        md is Some <==> html_to_md@.contains_key(nav.content@),
        md matches Some(text) ==> text@ == rendered_entry(*nav, indent as nat, html_to_md@),
{
    let prefix = indent_prefix(indent);
    let mut out = String::new();
    if render_into(nav, &prefix, Ghost(indent as nat), html_to_md, &mut out) {
        assert(out@ =~= rendered_entry(*nav, indent as nat, html_to_md@));
        Some(out)
    } else {
        None
    }
}

/// The text of `SUMMARY.md` for a book, and the table from each HTML
/// resource to its Markdown file that the text was rendered with.
pub fn generate_summary_md(resources: &Vec<ResourceEntry>, toc: &Vec<NavEntry>, title: &str) -> (made:
    (String, ResourceMap))
    ensures
        made.1@ == resource_map_of(resources@),
        made.0@ == summary_of(title@, toc@, made.1@),
{
    let html_to_md = ResourceMap::build(resources);
    let mut summary_md = String::from_str("# ");
    summary_md.append(title);
    summary_md.append("\n\n");
    let ghost head = "# "@ + title@ + "\n\n"@;
    assert(summary_md@ =~= head);
    let prefix = String::new();
    let mut i: usize = 0;
    while i < toc.len()
        invariant
            i <= toc.len(),
            prefix@ == indentation(0),
            summary_md@ == head + rendered_toc(toc@, i as nat, html_to_md@),
        decreases toc.len() - i,
    {
        render_into(&toc[i], &prefix, Ghost(0), &html_to_md, &mut summary_md);
        i = i + 1;
        assert(summary_md@ =~= head + rendered_toc(toc@, i as nat, html_to_md@));
    }
    (summary_md, html_to_md)
}

} // verus!

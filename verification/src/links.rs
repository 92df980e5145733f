//! Links in converted Markdown: those that point at a renamed chapter are
//! pointed at its Markdown file, and empty ones are taken apart.

use regex::{Captures, Regex};
use vstd::prelude::*;
use crate::path::{
    directory_of, file_name, file_name_of, lemma_file_name_with_extension, lemma_last_position,
};
use crate::resource::{file_name_index_of, markdown_path_of, FileNameIndex};
use crate::text::{
    first_index_of, first_position, lemma_first_position, lemma_first_position_is, str_eq,
};

verus! {

/// A Markdown link or image with a target: its label, then the target up to
/// a `#` or the closing bracket as the first group, then a fragment if any.
pub const LINK_PATTERN: &'static str = r"\[[^\]]+\]\((?P<link>[^#)]+)(#[^)]+)?\)";

/// An image without label and target, or a link with a label and no
/// target, whose label is the first group.
pub const EMPTY_LINK_PATTERN: &'static str = r"!\[\]\(\)|\[([^\]]+)\]\(\)";

/// What a target begins with where it names a scheme, as `https:` does: an
/// ASCII letter, then letters, digits, `+`, `.` or `-`, then a colon.
pub const URI_SCHEME_PATTERN: &'static str = r"^[A-Za-z][A-Za-z0-9+.-]*:";

/// What the regex crate finds: the successive matches of `pattern` in `text`
/// that do not overlap, each by the positions at which the match begins and
/// ends and, where its first group took part, those of the group. A position
/// counts the characters of `text` before it. A pattern that does not compile
/// has no matches.
pub uninterp spec fn regex_captures(pattern: Seq<char>, text: Seq<char>) -> Seq<
    (int, int, Option<(int, int)>),
>;

/// How the matches of a pattern are rewritten.
pub enum Rewrite<'a> {
    /// The match is a link: its target is pointed at the renamed file.
    Retarget(&'a FileNameIndex),
    /// The first group alone stays.
    KeepGroup,
}

/// A `Rewrite` in contracts.
pub enum RewriteRule {
    Retarget(Map<Seq<char>, Seq<char>>),
    KeepGroup,
}

impl<'a> View for Rewrite<'a> {
    type V = RewriteRule;

    open spec fn view(&self) -> RewriteRule {
        match self {
            Rewrite::Retarget(index) => RewriteRule::Retarget(index@),
            Rewrite::KeepGroup => RewriteRule::KeepGroup,
        }
    }
}

/// Whether a character is an ASCII letter.
pub open spec fn is_ascii_letter(c: char) -> bool {
    ('a' <= c && c <= 'z') || ('A' <= c && c <= 'Z')
}

/// Whether a character may stand inside the name of a scheme.
pub open spec fn is_scheme_char(c: char) -> bool {
    is_ascii_letter(c) || ('0' <= c && c <= '9') || c == '+' || c == '.' || c == '-'
}

/// Whether a target begins with a scheme: an ASCII letter, then letters,
/// digits, `+`, `.` or `-`, then a colon.
pub open spec fn has_uri_scheme(target: Seq<char>) -> bool {
    &&& 0 < first_position(target, ':') < target.len()
    &&& is_ascii_letter(target[0])
    &&& forall|i: int|
        0 < i < first_position(target, ':') ==> is_scheme_char(#[trigger] target[i])
}

/// Whether a target leaves the book: it begins with a scheme.
pub open spec fn is_external(target: Seq<char>) -> bool {
    has_uri_scheme(target)
}

/// A target with its final segment renamed: where the index holds the final
/// segment, the segment gives way to its Markdown name, behind the same
/// directory; any other target stays.
pub open spec fn renamed(target: Seq<char>, index: Map<Seq<char>, Seq<char>>) -> Seq<char> {
    if index.contains_key(file_name_of(target)) {
        directory_of(target) + index[file_name_of(target)]
    } else {
        target
    }
}

/// The target of a link after rewriting: an external target stays, any other
/// has its final segment renamed.
pub open spec fn retargeted(target: Seq<char>, index: Map<Seq<char>, Seq<char>>) -> Seq<char> {
    if is_external(target) {
        target
    } else {
        renamed(target, index)
    }
}

/// Where the target of a link begins: behind the `](` that ends its label.
pub open spec fn target_start(whole: Seq<char>) -> int {
    first_position(whole, ']') + 2
}

/// Whether `target` stands in `whole` where the target of a link stands.
pub open spec fn holds_target(whole: Seq<char>, target: Seq<char>) -> bool {
    &&& target_start(whole) + target.len() <= whole.len()
    &&& whole[target_start(whole) - 1] == '('
    &&& whole.subrange(target_start(whole), target_start(whole) + target.len()) == target
}

/// A link after rewriting: its target alone changes, as `retargeted` says, and
/// what stands before and behind the target stays.
pub open spec fn rewritten_link(
    whole: Seq<char>,
    target: Seq<char>,
    index: Map<Seq<char>, Seq<char>>,
) -> Seq<char> {
    if holds_target(whole, target) {
        whole.subrange(0, target_start(whole)) + retargeted(target, index) + whole.subrange(
            target_start(whole) + target.len(),
            whole.len() as int,
        )
    } else {
        whole
    }
}

/// What takes the place of one match, given its text and that of its group.
pub open spec fn rewritten(rule: RewriteRule, whole: Seq<char>, group: Seq<char>) -> Seq<char> {
    match rule {
        RewriteRule::Retarget(index) => rewritten_link(whole, group, index),
        RewriteRule::KeepGroup => group,
    }
}

/// Whether matches follow one another inside a text of `len` characters
/// without overlap, each group inside its match.
pub open spec fn in_order(found: Seq<(int, int, Option<(int, int)>)>, len: int) -> bool {
    forall|i: int|
        0 <= i < found.len() ==> {
            &&& 0 <= (#[trigger] found[i]).0 <= found[i].1 <= len
            &&& i > 0 ==> found[i - 1].1 <= found[i].0
            &&& found[i].2 matches Some(group) ==> found[i].0 <= group.0 <= group.1 <= found[i].1
        }
}

/// The text of a match's first group, empty where the group took no part.
pub open spec fn group_text(text: Seq<char>, group: Option<(int, int)>) -> Seq<char> {
    match group {
        Some(at) => text.subrange(at.0, at.1),
        None => Seq::empty(),
    }
}

/// Where the `n`-th match begins to be looked for: at the end of the match
/// before it.
pub open spec fn end_of(found: Seq<(int, int, Option<(int, int)>)>, n: int) -> int {
    if n <= 0 {
        0
    } else {
        found[n - 1].1
    }
}

/// The text up to the end of the `n`-th match, each match rewritten and what
/// stands between the matches kept.
pub open spec fn spliced_first(
    text: Seq<char>,
    found: Seq<(int, int, Option<(int, int)>)>,
    rule: RewriteRule,
    n: nat,
) -> Seq<char>
    decreases n,
{
    if n == 0 {
        Seq::empty()
    } else {
        let at = found[n - 1];
        spliced_first(text, found, rule, (n - 1) as nat) + text.subrange(end_of(found, n - 1), at.0)
            + rewritten(rule, text.subrange(at.0, at.1), group_text(text, at.2))
    }
}

/// The whole text with every match rewritten.
pub open spec fn spliced(
    text: Seq<char>,
    found: Seq<(int, int, Option<(int, int)>)>,
    rule: RewriteRule,
) -> Seq<char> {
    spliced_first(text, found, rule, found.len()) + text.subrange(
        end_of(found, found.len() as int),
        text.len() as int,
    )
}

/// Whether `out` is `text` with the matches `found` rewritten, the matches
/// following one another in `text`.
pub open spec fn replaces(
    out: Seq<char>,
    text: Seq<char>,
    found: Seq<(int, int, Option<(int, int)>)>,
    rule: RewriteRule,
) -> bool {
    in_order(found, text.len() as int) && out == spliced(text, found, rule)
}

/// Markdown with its links pointed at the renamed files.
pub open spec fn links_retargeted(markdown: Seq<char>, index: Map<Seq<char>, Seq<char>>) -> Seq<
    char,
> {
    spliced(markdown, regex_captures(LINK_PATTERN@, markdown), RewriteRule::Retarget(index))
}

/// Markdown without its empty links and images.
pub open spec fn empty_links_collapsed(markdown: Seq<char>) -> Seq<char> {
    spliced(markdown, regex_captures(EMPTY_LINK_PATTERN@, markdown), RewriteRule::KeepGroup)
}

/// Converted Markdown as it is written: first the links are retargeted, then
/// the empty ones collapsed.
pub open spec fn post_processed(markdown: Seq<char>, index: Map<Seq<char>, Seq<char>>) -> Seq<
    char,
> {
    empty_links_collapsed(links_retargeted(markdown, index))
}

/// A link `[label](target...)` whose target stays inside the book and has a
/// file name that the index holds comes out as `[label](dir/new...)`: the label,
/// the directory of the target and all that follows the target, a fragment
/// among it, stay as they were, and the file name gives way to its Markdown name.
pub proof fn lemma_link_retargeted(
    label: Seq<char>,
    target: Seq<char>,
    rest: Seq<char>,
    index: Map<Seq<char>, Seq<char>>,
)
    requires
        forall|i: int| 0 <= i < label.len() ==> label[i] != ']',
        !is_external(target),
        index.contains_key(file_name_of(target)),
    ensures
        rewritten_link(seq!['['] + label + seq![']', '('] + target + rest, target, index)
            == seq!['['] + label + seq![']', '('] + directory_of(target) + index[file_name_of(
            target,
        )] + rest,
{
    let whole = seq!['['] + label + seq![']', '('] + target + rest;
    let close = (label.len() + 1) as int;
    assert(whole[close] == ']');
    assert forall|i: int| 0 <= i < close implies whole[i] != ']' by {
        if i > 0 {
            assert(whole[i] == label[i - 1]);
        }
    }
    lemma_first_position_is(whole, ']', close);
    let start = target_start(whole);
    assert(whole[start - 1] == '(');
    assert(whole.subrange(start, start + target.len()) =~= target);
    assert(whole.subrange(0, start) =~= seq!['['] + label + seq![']', '(']);
    assert(whole.subrange(start + target.len(), whole.len() as int) =~= rest);
}

/// With the index that a resource table calls for, a target that stays
/// inside the book and has the file name of a chapter is pointed at its own
/// Markdown path: the same path with the extension `md`.
pub proof fn lemma_target_follows_chapter(target: Seq<char>, map: Map<Seq<char>, Seq<char>>)
    requires
        !is_external(target),
        file_name_index_of(map).contains_key(file_name_of(target)),
    ensures
        retargeted(target, file_name_index_of(map)) == markdown_path_of(target),
{
    reveal_strlit("md");
    lemma_file_name_with_extension(target, "md"@);
    let renamed = markdown_path_of(target);
    lemma_last_position(renamed, '/');
    assert(renamed =~= directory_of(renamed) + file_name_of(renamed));
}

/// A target that is the name of a scheme, a colon and anything more
/// begins with a scheme.
pub proof fn lemma_scheme_then_colon(scheme: Seq<char>, rest: Seq<char>)
    requires
        scheme.len() > 0,
        is_ascii_letter(scheme[0]),
        forall|i: int| 0 <= i < scheme.len() ==> is_scheme_char(#[trigger] scheme[i]),
    ensures
        has_uri_scheme(scheme + seq![':'] + rest),
{
    let target = scheme + seq![':'] + rest;
    let colon = scheme.len() as int;
    assert(target[colon] == ':');
    assert forall|i: int| 0 <= i < colon implies target[i] != ':' by {
        assert(target[i] == scheme[i]);
        assert(is_scheme_char(scheme[i]));
    }
    lemma_first_position_is(target, ':', colon);
    assert forall|i: int| 0 < i < colon implies is_scheme_char(#[trigger] target[i]) by {
        assert(target[i] == scheme[i]);
    }
    assert(target[0] == scheme[0]);
}

/// A target without a colon begins with no scheme.
pub proof fn lemma_no_colon_no_scheme(target: Seq<char>)
    requires
        forall|i: int| 0 <= i < target.len() ==> target[i] != ':',
    ensures
        !has_uri_scheme(target),
{
    lemma_first_position_is(target, ':', target.len() as int);
}

/// A link whose target begins with a scheme stays as it is, whatever the
/// index holds.
pub proof fn lemma_external_link_unchanged(
    whole: Seq<char>,
    target: Seq<char>,
    index: Map<Seq<char>, Seq<char>>,
)
    requires
        is_external(target),
    ensures
        rewritten_link(whole, target, index) == whole,
{
    lemma_same_target_same_link(whole, target, index);
}

/// A link whose target has a file name that the index does not hold stays
/// as it is.
pub proof fn lemma_unknown_link_unchanged(
    whole: Seq<char>,
    target: Seq<char>,
    index: Map<Seq<char>, Seq<char>>,
)
    requires
        !index.contains_key(file_name_of(target)),
    ensures
        rewritten_link(whole, target, index) == whole,
{
    lemma_same_target_same_link(whole, target, index);
}

/// A link whose target stays is the same link.
pub proof fn lemma_same_target_same_link(
    whole: Seq<char>,
    target: Seq<char>,
    index: Map<Seq<char>, Seq<char>>,
)
    requires
        retargeted(target, index) == target,
    ensures
        rewritten_link(whole, target, index) == whole,
{
    if holds_target(whole, target) {
        lemma_first_position(whole, ']');
        let start = target_start(whole);
        assert(whole =~= whole.subrange(0, start) + whole.subrange(start, start + target.len())
            + whole.subrange(start + target.len(), whole.len() as int));
    }
}

/// Where every match is rewritten to itself, the text stays as it is.
pub proof fn lemma_spliced_unchanged(
    text: Seq<char>,
    found: Seq<(int, int, Option<(int, int)>)>,
    rule: RewriteRule,
)
    requires
        in_order(found, text.len() as int),
        forall|i: int|
            0 <= i < found.len() ==> rewritten(
                rule,
                text.subrange((#[trigger] found[i]).0, found[i].1),
                group_text(text, found[i].2),
            ) == text.subrange(found[i].0, found[i].1),
    ensures
        spliced(text, found, rule) == text,
{
    lemma_spliced_first_unchanged(text, found, rule, found.len());
    let end = end_of(found, found.len() as int);
    if found.len() > 0 {
        assert(0 <= found[found.len() - 1].1 <= text.len());
    }
    assert(text.subrange(0, end) + text.subrange(end, text.len() as int) =~= text);
}

proof fn lemma_spliced_first_unchanged(
    text: Seq<char>,
    found: Seq<(int, int, Option<(int, int)>)>,
    rule: RewriteRule,
    n: nat,
)
    requires
        n <= found.len(),
        in_order(found, text.len() as int),
        forall|i: int|
            0 <= i < found.len() ==> rewritten(
                rule,
                text.subrange((#[trigger] found[i]).0, found[i].1),
                group_text(text, found[i].2),
            ) == text.subrange(found[i].0, found[i].1),
    ensures
        spliced_first(text, found, rule, n) == text.subrange(0, end_of(found, n as int)),
        0 <= end_of(found, n as int) <= text.len(),
    decreases n,
{
    if n > 0 {
        lemma_spliced_first_unchanged(text, found, rule, (n - 1) as nat);
        let at = found[n - 1];
        let before = end_of(found, n - 1);
        assert(0 <= at.0 <= at.1 <= text.len());
        if n > 1 {
            assert(found[n - 2].1 <= found[n - 1].0);
        }
        assert(text.subrange(0, before) + text.subrange(before, at.0) + text.subrange(at.0, at.1)
            =~= text.subrange(0, at.1));
    } else {
        assert(text.subrange(0, 0) =~= Seq::<char>::empty());
    }
}

/// `Regex::new` and `Regex::is_match`, for the scheme pattern alone: whether
/// the pattern matches somewhere in `text`. The pattern is anchored at the start
/// and is a letter class, a repeated class and a colon, so the contract states
/// the answer: `text` begins with a scheme.
#[verifier::external_body]
fn scheme_pattern_matches(pattern: &str, text: &str) -> (yes: bool)
    requires
        pattern@ == URI_SCHEME_PATTERN@,
    ensures
        yes == has_uri_scheme(text@),
{
    match Regex::new(pattern) {
        Ok(re) => re.is_match(text),
        Err(_) => false,
    }
}

/// `Regex::new` and `Regex::replace_all`: `text` with every match of `pattern`
/// replaced by what `rule` makes of the match and of its first group, and `text`
/// itself where the pattern does not compile. Which matches there are is named,
/// not stated. The contract claims of them that they come in order and do not
/// overlap, and of the result that it joins, in order, the text before each match
/// with the replacement for the match, and then the text behind the last match.
#[verifier::external_body]
fn replace_matches(pattern: &str, text: &str, rule: &Rewrite) -> (out: String)
    ensures
        replaces(out@, text@, regex_captures(pattern@, text@), rule@),
{
    match Regex::new(pattern) {
        Ok(re) => re.replace_all(
            text,
            |caps: &Captures| {
                rule.apply(
                    caps.get(0).map_or("", |m| m.as_str()),
                    caps.get(1).map_or("", |m| m.as_str()),
                )
            },
        ).into_owned(),
        Err(_) => text.to_owned(),
    }
}

/// Whether a target leaves the book.
pub fn is_external_link(target: &str) -> (yes: bool)
    ensures
        yes == is_external(target@),
{
    scheme_pattern_matches(URI_SCHEME_PATTERN, target)
}

/// A target with its final segment renamed where `index` holds it.
pub fn rename_target(target: &str, index: &FileNameIndex) -> (out: String)
    ensures
        out@ == renamed(target@, index@),
{
    let name = file_name(target);
    match index.get(name.as_str()) {
        None => String::from_str(target),
        Some(markdown_name) => {
            proof {
                lemma_last_position(target@, '/');
            }
            let len: usize = target.unicode_len();
            let name_len: usize = name.as_str().unicode_len();
            let mut out = String::from_str(target.substring_char(0, len - name_len));
            out.append(markdown_name.as_str());
            out
        },
    }
}

/// The target of a link, pointed at its renamed file where it stays inside
/// the book and `index` holds its final segment.
pub fn retarget(target: &str, index: &FileNameIndex) -> (out: String)
    ensures
        out@ == retargeted(target@, index@),
{
    if is_external_link(target) {
        String::from_str(target)
    } else {
        rename_target(target, index)
    }
}

/// A link, its target pointed at its renamed file where `index` holds one.
/// `whole` is the link as it stands in the text and `target` its target.
pub fn rewrite_link(whole: &str, target: &str, index: &FileNameIndex) -> (out: String)
    ensures
        out@ == rewritten_link(whole@, target@, index@),
{
    let len: usize = whole.unicode_len();
    let target_len: usize = target.unicode_len();
    proof {
        lemma_first_position(whole@, ']');
    }
    let close: usize = match first_index_of(whole, ']') {
        Some(close) => close,
        None => {
            return String::from_str(whole);
        },
    };
    if len - close < 2 || len - close - 2 < target_len {
        return String::from_str(whole);
    }
    let start: usize = close + 2;
    if whole.get_char(close + 1) != '(' {
        return String::from_str(whole);
    }
    if !str_eq(whole.substring_char(start, start + target_len), target) {
        return String::from_str(whole);
    }
    let mut out = String::from_str(whole.substring_char(0, start));
    let new_target = retarget(target, index);
    out.append(new_target.as_str());
    out.append(whole.substring_char(start + target_len, len));
    out
}

impl<'a> Rewrite<'a> {
    /// What takes the place of one match, given its text and that of its
    /// first group.
    pub fn apply(&self, whole: &str, group: &str) -> (out: String)
        ensures
            out@ == rewritten(self@, whole@, group@),
    {
        match self {
            Rewrite::Retarget(index) => rewrite_link(whole, group, index),
            Rewrite::KeepGroup => String::from_str(group),
        }
    }
}

/// Converted Markdown as it is written: every link to a renamed chapter
/// pointed at the Markdown file, then every empty link and image collapsed.
pub fn post_process_md(markdown: &str, file_name_map: &FileNameIndex) -> (out: String)
    ensures
        out@ == post_processed(markdown@, file_name_map@),
        file_name_map@.dom().is_empty() ==> out@ == empty_links_collapsed(markdown@),
{
    let retargeted = replace_matches(LINK_PATTERN, markdown, &Rewrite::Retarget(file_name_map));
    proof {
        if file_name_map@.dom().is_empty() {
            let found = regex_captures(LINK_PATTERN@, markdown@);
            let rule = RewriteRule::Retarget(file_name_map@);
            assert forall|i: int| 0 <= i < found.len() implies rewritten(
                rule,
                markdown@.subrange((#[trigger] found[i]).0, found[i].1),
                group_text(markdown@, found[i].2),
            ) == markdown@.subrange(found[i].0, found[i].1) by {
                let target = group_text(markdown@, found[i].2);
                assert(!file_name_map@.dom().contains(file_name_of(target)));
                lemma_unknown_link_unchanged(
                    markdown@.subrange(found[i].0, found[i].1),
                    target,
                    file_name_map@,
                );
            }
            lemma_spliced_unchanged(markdown@, found, rule);
        }
    }
    replace_matches(EMPTY_LINK_PATTERN, retargeted.as_str(), &Rewrite::KeepGroup)
}

} // verus!

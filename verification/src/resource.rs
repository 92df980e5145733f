//! The resources that an EPUB declares, and the two rename tables made from
//! them: full paths for the table of contents, file names for links.

use vstd::prelude::*;
use crate::path::{
    file_name, file_name_of, is_file_name, lemma_file_name_with_extension, names_file,
    path_with_extension, with_extension,
};
use crate::text::str_eq;

verus! {

/// One packaged file as the EPUB declares it.
#[derive(Debug)]
pub struct ResourceEntry {
    pub id: String,
    /// Its path inside the archive.
    pub path: String,
    pub media_type: String,
}

/// Whether a media type is one of the HTML family.
pub open spec fn is_html_media_type(media_type: Seq<char>) -> bool {
    media_type == "application/xhtml+xml"@ || media_type == "text/html"@
}

/// Whether a media type is one of the HTML family.
pub fn is_html(media_type: &str) -> (yes: bool)
    ensures
        yes == is_html_media_type(media_type@),
{
    str_eq(media_type, "application/xhtml+xml") || str_eq(media_type, "text/html")
}

/// The map that a list of renames stands for: a later pair replaces an
/// earlier one with the same key.
spec fn renames(pairs: Seq<(String, String)>) -> Map<Seq<char>, Seq<char>>
    decreases pairs.len(),
{
    if pairs.len() == 0 {
        Map::empty()
    } else {
        renames(pairs.drop_last()).insert(pairs.last().0@, pairs.last().1@)
    }
}

/// A key of the map comes from a pair of the list, and so does its value.
proof fn lemma_renames_source(pairs: Seq<(String, String)>, key: Seq<char>)
    ensures
        renames(pairs).contains_key(key) <==> exists|i: int|
            0 <= i < pairs.len() && (#[trigger] pairs[i]).0@ == key,
        renames(pairs).contains_key(key) ==> exists|i: int|
            0 <= i < pairs.len() && (#[trigger] pairs[i]).0@ == key && pairs[i].1@ == renames(
                pairs,
            )[key],
    decreases pairs.len(),
{
    if pairs.len() > 0 {
        let front = pairs.drop_last();
        let last = pairs.len() - 1;
        lemma_renames_source(front, key);
        if pairs[last].0@ == key {
        } else if renames(front).contains_key(key) {
            let i = choose|i: int|
                0 <= i < front.len() && (#[trigger] front[i]).0@ == key && front[i].1@
                    == renames(front)[key];
            assert(pairs[i] == front[i]);
        } else {
            assert forall|i: int| 0 <= i < pairs.len() implies (#[trigger] pairs[i]).0@
                != key by {
                if i < last {
                    assert(pairs[i] == front[i]);
                }
            }
        }
    }
}

/// The last pair with the given key.
fn find<'a>(pairs: &'a Vec<(String, String)>, key: &str) -> (found: Option<&'a String>)
    ensures
        match found {
            Some(value) => renames(pairs@).contains_key(key@) && renames(pairs@)[key@] == value@,
            None => !renames(pairs@).contains_key(key@),
        },
{
    let mut i: usize = pairs.len();
    assert(pairs@.take(i as int) == pairs@);
    while i > 0
        invariant
            i <= pairs.len(),
            renames(pairs@).contains_key(key@) == renames(pairs@.take(i as int)).contains_key(
                key@,
            ),
            renames(pairs@).contains_key(key@) ==> renames(pairs@)[key@] == renames(
                pairs@.take(i as int),
            )[key@],
        decreases i,
    {
        assert(pairs@.take(i as int).drop_last() == pairs@.take(i - 1));
        i = i - 1;
        if str_eq(pairs[i].0.as_str(), key) {
            return Some(&pairs[i].1);
        }
    }
    assert(pairs@.take(0).len() == 0);
    None
}

/// From the path of each HTML resource to the path of its Markdown file.
#[derive(Debug)]
pub struct ResourceMap {
    pairs: Vec<(String, String)>,
}

impl View for ResourceMap {
    type V = Map<Seq<char>, Seq<char>>;

    closed spec fn view(&self) -> Map<Seq<char>, Seq<char>> {
        Map::new(
            |path: Seq<char>| renames(self.pairs@).contains_key(path),
            |path: Seq<char>| markdown_path_of(path),
        )
    }
}

/// The Markdown path of an HTML resource: its own path with extension `md`.
pub open spec fn markdown_path_of(path: Seq<char>) -> Seq<char> {
    path_with_extension(path, "md"@)
}

/// Whether one of the first `n` resources is an HTML resource at `path`.
pub open spec fn is_html_resource(resources: Seq<ResourceEntry>, n: int, path: Seq<char>) -> bool {
    exists|i: int|
        0 <= i < n && i < resources.len() && #[trigger] resources[i].path@ == path
            && is_html_media_type(resources[i].media_type@)
}

/// The table that a list of resources calls for: its keys are the paths of
/// the HTML resources and no others, and each goes to its Markdown path.
pub open spec fn resource_map_of(resources: Seq<ResourceEntry>) -> Map<Seq<char>, Seq<char>> {
    Map::new(
        |path: Seq<char>| is_html_resource(resources, resources.len() as int, path),
        |path: Seq<char>| markdown_path_of(path),
    )
}

impl ResourceMap {
    /// Every value is its key with the extension `md`.
    #[verifier::type_invariant]
    spec fn keeps_rule(&self) -> bool {
        forall|i: int|
            0 <= i < self.pairs@.len() ==> (#[trigger] self.pairs@[i]).1@ == markdown_path_of(
                self.pairs@[i].0@,
            )
    }

    /// Every path in the table goes to its Markdown path.
    pub proof fn lemma_markdown_paths(self)
        ensures
            forall|path: Seq<char>| #[trigger]
                self@.contains_key(path) ==> self@[path] == markdown_path_of(path),
    {
    }

    /// The Markdown path that `path` goes to.
    pub fn get(&self, path: &str) -> (found: Option<&String>)
        ensures
            match found {
                Some(markdown) => self@.contains_key(path@) && self@[path@] == markdown@,
                None => !self@.contains_key(path@),
            },
    {
        proof {
            use_type_invariant(self);
            lemma_renames_source(self.pairs@, path@);
        }
        find(&self.pairs, path)
    }

    /// The table for a list of resources.
    pub fn build(resources: &Vec<ResourceEntry>) -> (map: ResourceMap)
        ensures
            map@ == resource_map_of(resources@),
    {
        let mut pairs: Vec<(String, String)> = Vec::new();
        let mut i: usize = 0;
        while i < resources.len()
            invariant
                i <= resources.len(),
                forall|path: Seq<char>|
                    renames(pairs@).contains_key(path) == is_html_resource(
                        resources@,
                        i as int,
                        path,
                    ),
                forall|k: int|
                    0 <= k < pairs@.len() ==> (#[trigger] pairs@[k]).1@ == markdown_path_of(
                        pairs@[k].0@,
                    ),
            decreases resources.len() - i,
        {
            let ghost before = pairs@;
            if is_html(resources[i].media_type.as_str()) {
                let path = resources[i].path.as_str();
                pairs.push((String::from_str(path), with_extension(path, "md")));
                assert(pairs@.drop_last() == before);
            }
            i = i + 1;
            assert forall|path: Seq<char>|
                renames(pairs@).contains_key(path) == is_html_resource(
                    resources@,
                    i as int,
                    path,
                ) by {
                if is_html_resource(resources@, i as int, path) {
                    let k = choose|k: int|
                        0 <= k < i && k < resources@.len() && #[trigger] resources@[k].path@
                            == path && is_html_media_type(resources@[k].media_type@);
                    if k < i - 1 {
                        assert(is_html_resource(resources@, i - 1, path));
                    }
                }
                if renames(before).contains_key(path) {
                    assert(is_html_resource(resources@, i - 1, path));
                }
            }
        }
        let map = ResourceMap { pairs };
        assert(map@ =~= resource_map_of(resources@));
        map
    }
}

/// From the file name of each HTML resource to the file name of its Markdown
/// file: what a link in a converted chapter is looked up by.
#[derive(Debug)]
pub struct FileNameIndex {
    pairs: Vec<(String, String)>,
}

impl View for FileNameIndex {
    type V = Map<Seq<char>, Seq<char>>;

    closed spec fn view(&self) -> Map<Seq<char>, Seq<char>> {
        renames(self.pairs@)
    }
}

/// The index that a resource table calls for: its keys are the file names of
/// the table's paths, and each goes to itself with the extension `md`.
pub open spec fn file_name_index_of(map: Map<Seq<char>, Seq<char>>) -> Map<Seq<char>, Seq<char>> {
    Map::new(
        |name: Seq<char>|
            exists|path: Seq<char>| #[trigger]
                map.contains_key(path) && names_file(file_name_of(path)) && file_name_of(path)
                    == name,
        |name: Seq<char>| markdown_path_of(name),
    )
}

impl FileNameIndex {
    /// The empty index.
    pub fn new() -> (index: FileNameIndex)
        ensures
            index@ == Map::<Seq<char>, Seq<char>>::empty(),
    {
        FileNameIndex { pairs: Vec::new() }
    }

    /// Enters a rename, in place of an earlier one of the same file name.
    pub fn insert(&mut self, name: &str, markdown_name: &str)
        ensures
            final(self)@ == old(self)@.insert(name@, markdown_name@),
    {
        self.pairs.push((String::from_str(name), String::from_str(markdown_name)));
        assert(self.pairs@.drop_last() == old(self).pairs@);
    }

    /// The Markdown file name that `name` goes to.
    pub fn get(&self, name: &str) -> (found: Option<&String>)
        ensures
            match found {
                Some(markdown_name) => self@.contains_key(name@) && self@[name@]
                    == markdown_name@,
                None => !self@.contains_key(name@),
            },
    {
        find(&self.pairs, name)
    }

    /// The index for a resource table.
    pub fn from_resource_map(map: &ResourceMap) -> (index: FileNameIndex)
        ensures
            index@ == file_name_index_of(map@),
    {
        let mut pairs: Vec<(String, String)> = Vec::new();
        let mut i: usize = 0;
        proof {
            use_type_invariant(map);
        }
        while i < map.pairs.len()
            invariant
                i <= map.pairs.len(),
                forall|k: int|
                    0 <= k < map.pairs@.len() ==> (#[trigger] map.pairs@[k]).1@
                        == markdown_path_of(map.pairs@[k].0@),
                forall|name: Seq<char>|
                    renames(pairs@).contains_key(name) == names_one_of(map.pairs@, i as int, name),
                forall|k: int|
                    0 <= k < pairs@.len() ==> (#[trigger] pairs@[k]).1@ == markdown_path_of(
                        pairs@[k].0@,
                    ),
            decreases map.pairs.len() - i,
        {
            let ghost before = pairs@;
            let name = file_name(map.pairs[i].0.as_str());
            let markdown_name = file_name(map.pairs[i].1.as_str());
            proof {
                if names_file(name@) {
                    lemma_markdown_file_name(map.pairs@[i as int].0@);
                }
            }
            if is_file_name(name.as_str()) && is_file_name(markdown_name.as_str()) {
                pairs.push((name, markdown_name));
                assert(pairs@.drop_last() == before);
            }
            i = i + 1;
            assert forall|name: Seq<char>|
                renames(pairs@).contains_key(name) == names_one_of(
                    map.pairs@,
                    i as int,
                    name,
                ) by {
                if names_one_of(map.pairs@, i as int, name) {
                    let k = choose|k: int| is_name_at(map.pairs@, k, name) && k < i;
                    if k < i - 1 {
                        assert(names_one_of(map.pairs@, i - 1, name));
                    }
                }
                if renames(before).contains_key(name) {
                    let k = choose|k: int| is_name_at(map.pairs@, k, name) && k < i - 1;
                    assert(is_name_at(map.pairs@, k, name) && k < i);
                }
                if renames(pairs@).contains_key(name) && !renames(before).contains_key(name) {
                    assert(is_name_at(map.pairs@, i - 1, name));
                }
            }
        }
        let index = FileNameIndex { pairs };
        proof {
            assert forall|name: Seq<char>|
                index@.contains_key(name) == file_name_index_of(map@).contains_key(name) by {
                if index@.contains_key(name) {
                    let k = choose|k: int| is_name_at(map.pairs@, k, name) && k < i;
                    lemma_renames_source(map.pairs@, map.pairs@[k].0@);
                    assert(map@.contains_key(map.pairs@[k].0@));
                }
                if file_name_index_of(map@).contains_key(name) {
                    let path = choose|path: Seq<char>| #[trigger]
                        map@.contains_key(path) && names_file(file_name_of(path))
                            && file_name_of(path) == name;
                    lemma_renames_source(map.pairs@, path);
                    let k = choose|k: int|
                        0 <= k < map.pairs@.len() && (#[trigger] map.pairs@[k]).0@ == path;
                    assert(is_name_at(map.pairs@, k, name) && k < i);
                }
            }
            assert forall|name: Seq<char>| index@.contains_key(name) implies index@[name]
                == markdown_path_of(name) by {
                lemma_renames_source(index.pairs@, name);
            }
            assert(index@ =~= file_name_index_of(map@));
        }
        index
    }
}

/// Whether `name` names a file and is the final segment of the `k`-th key.
spec fn is_name_at(pairs: Seq<(String, String)>, k: int, name: Seq<char>) -> bool {
    0 <= k < pairs.len() && names_file(name) && file_name_of(pairs[k].0@) == name
}

/// Whether `name` names a file and is the final segment of one of the first
/// `n` keys.
spec fn names_one_of(pairs: Seq<(String, String)>, n: int, name: Seq<char>) -> bool {
    exists|k: int| #[trigger] is_name_at(pairs, k, name) && k < n
}

/// The Markdown path of a path with a file name has the Markdown name of
/// that file name for its own file name.
proof fn lemma_markdown_file_name(path: Seq<char>)
    requires
        names_file(file_name_of(path)),
    ensures
        file_name_of(markdown_path_of(path)) == markdown_path_of(file_name_of(path)),
        names_file(file_name_of(markdown_path_of(path))),
{
    reveal_strlit("md");
    lemma_file_name_with_extension(path, "md"@);
}

} // verus!

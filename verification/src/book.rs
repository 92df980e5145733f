//! A whole conversion: from what an EPUB holds to the files of the book.

use vstd::prelude::*;
use vstd::utf8::encode_utf8;
use crate::error::Error;
use crate::extract::{
    all_extractable, extract_chapters_and_resources, is_extraction_of, is_first_failure,
    OutputFile, PackagedFile,
};
use crate::nav::{generate_summary_md, summary_of, NavEntry};
use crate::path::{path_with_extension, with_extension};
use crate::resource::{file_name_index_of, resource_map_of, ResourceEntry};
use crate::toml::{
    basic_string, basic_string_of, escaped, is_plain, lemma_basic_string_reads_back,
    lemma_plain_text_unchanged, unescaped,
};

verus! {

/// What was read from an EPUB.
#[derive(Debug)]
pub struct EpubBook {
    /// The first title of the package metadata.
    pub title: Option<String>,
    /// The first creator of the package metadata.
    pub creator: Option<String>,
    /// The resources that the package declares.
    pub resources: Vec<ResourceEntry>,
    /// The navigation tree.
    pub toc: Vec<NavEntry>,
    /// The resources that could be read, with their bytes.
    pub files: Vec<PackagedFile>,
}

/// The title and the author under which a book appears.
#[derive(Debug)]
pub struct BookMetadata {
    pub title: String,
    pub creator: Option<String>,
}

/// The files of a book, and where below the output directory they go.
#[derive(Debug)]
pub struct MdBook {
    /// The directory of the book below the output directory, empty where the
    /// book is written straight into it.
    pub directory: String,
    /// The files in the order in which they are written, each by its path
    /// below the book's directory.
    pub files: Vec<OutputFile>,
}

/// The name of a book: the name of its EPUB file without the extension.
pub open spec fn book_name_of(file_name: Seq<char>) -> Seq<char> {
    path_with_extension(file_name, Seq::empty())
}

/// The directory of a book below the output directory: one of the book's
/// name where the book gets a directory of its own, else none.
pub open spec fn book_directory_of(file_name: Seq<char>, with_file_name: bool) -> Seq<char> {
    if with_file_name {
        book_name_of(file_name)
    } else {
        Seq::empty()
    }
}

/// The title of a book: that of its metadata, or the name of the book where
/// the metadata has none.
pub open spec fn title_of(title: Option<String>, book_name: Seq<char>) -> Seq<char> {
    match title {
        Some(title) => title@,
        None => book_name,
    }
}

/// One line of `book.toml`: a key, and a text as its value.
pub open spec fn toml_line(key: Seq<char>, value: Seq<char>) -> Seq<char> {
    key + " = "@ + basic_string_of(value) + "\n"@
}

/// The line of `book.toml` that names the author, if there is one.
pub open spec fn author_line(creator: Option<String>) -> Seq<char> {
    match creator {
        Some(creator) => toml_line("author"@, creator@),
        None => Seq::empty(),
    }
}

/// The text of `book.toml`: a `[book]` table with the title and, where there
/// is one, the author, each as a basic string.
pub open spec fn book_toml_of(title: Seq<char>, creator: Option<String>) -> Seq<char> {
    "[book]\n"@ + toml_line("title"@, title) + author_line(creator)
}

/// A title of plain characters stands in its line as it is, between double
/// quotes.
pub proof fn lemma_plain_title_line(title: Seq<char>)
    requires
        forall|i: int| 0 <= i < title.len() ==> is_plain(#[trigger] title[i]),
    ensures
        toml_line("title"@, title) == "title = \""@ + title + "\"\n"@,
{
    lemma_plain_text_unchanged(title);
    reveal_strlit("title");
    reveal_strlit(" = ");
    reveal_strlit("\n");
    reveal_strlit("title = \"");
    reveal_strlit("\"\n");
    assert(toml_line("title"@, title) =~= "title = \""@ + title + "\"\n"@);
}

/// The value of a line is read back as the text that was written.
pub proof fn lemma_line_reads_back(key: Seq<char>, value: Seq<char>)
    ensures
        toml_line(key, value) == key + " = \""@ + (escaped(value) + seq!['"'] + "\n"@),
        unescaped(escaped(value) + seq!['"'] + "\n"@) == value,
{
    lemma_basic_string_reads_back(value, "\n"@);
    reveal_strlit(" = ");
    reveal_strlit(" = \"");
    assert(toml_line(key, value) =~= key + " = \""@ + (escaped(value) + seq!['"'] + "\n"@));
}

/// Whether `out` holds the files of the book: what each packaged file
/// becomes, then the table of contents, then the configuration.
pub open spec fn is_book_of(out: Seq<OutputFile>, book: EpubBook, book_name: Seq<char>) -> bool {
    let map = resource_map_of(book.resources@);
    let title = title_of(book.title, book_name);
    let n = book.files@.len() as int;
    &&& out.len() == n + 2
    &&& forall|i: int|
        0 <= i < n ==> is_extraction_of(
            #[trigger] out[i],
            book.files@[i],
            map,
            file_name_index_of(map),
        )
    &&& out[n].path@ == "src/SUMMARY.md"@
    &&& out[n].content@ == encode_utf8(summary_of(title, book.toc@, map))
    &&& out[n + 1].path@ == "book.toml"@
    &&& out[n + 1].content@ == encode_utf8(book_toml_of(title, book.creator))
}

impl BookMetadata {
    /// The metadata of a book, the name of its file standing in for a
    /// missing title.
    pub fn resolve(title: &Option<String>, creator: &Option<String>, book_name: &str) -> (metadata:
        BookMetadata)
        ensures
            metadata.title@ == title_of(*title, book_name@),
            metadata.creator == *creator,
    {
        let title = match title {
            Some(title) => title.clone(),
            None => String::from_str(book_name),
        };
        let creator = match creator {
            Some(creator) => Some(creator.clone()),
            None => None,
        };
        BookMetadata { title, creator }
    }
}

/// The name of a book: the name of its EPUB file without the extension.
pub fn book_name(file_name: &str) -> (name: String)
    ensures
        name@ == book_name_of(file_name@),
{
    proof {
        reveal_strlit("");
    }
    with_extension(file_name, "")
}

/// The directory of a book below the output directory.
pub fn book_directory(file_name: &str, with_file_name: bool) -> (directory: String)
    ensures
        directory@ == book_directory_of(file_name@, with_file_name),
{
    if with_file_name {
        book_name(file_name)
    } else {
        String::new()
    }
}

/// Appends one line of `book.toml`.
fn push_toml_line(toml: &mut String, key: &str, value: &str)
    ensures
        final(toml)@ == old(toml)@ + toml_line(key@, value@),
{
    toml.append(key);
    toml.append(" = ");
    toml.append(basic_string(value).as_str());
    toml.append("\n");
    assert(toml@ =~= old(toml)@ + toml_line(key@, value@));
}

/// The text of `book.toml`: the title, and the author where there is one.
pub fn book_toml(title: &str, creator: &Option<String>) -> (toml: String)
    ensures
        toml@ == book_toml_of(title@, *creator),
{
    let mut toml = String::from_str("[book]\n");
    push_toml_line(&mut toml, "title", title);
    match creator {
        Some(creator) => {
            push_toml_line(&mut toml, "author", creator.as_str());
            assert(toml@ =~= book_toml_of(title@, Some(*creator)));
        },
        None => {
            assert(toml@ =~= book_toml_of(title@, None));
        },
    }
    toml
}

/// The book for an EPUB. `file_name` is the name of the EPUB file, which
/// names the book and is its title where the EPUB has none; with
/// `with_file_name` the book gets a directory of that name. The files are what
/// each packaged file becomes, then `src/SUMMARY.md`, then `book.toml`.
pub fn convert_epub_to_mdbook(book: &EpubBook, file_name: &str, with_file_name: bool) -> (converted:
    Result<MdBook, Error>)
    ensures
        converted is Ok <==> all_extractable(
            book.files@,
            resource_map_of(book.resources@),
            file_name_index_of(resource_map_of(book.resources@)),
        ),
        match converted {
            Ok(made) => {
                &&& made.directory@ == book_directory_of(file_name@, with_file_name)
                &&& is_book_of(made.files@, *book, book_name_of(file_name@))
            },
            Err(error) => is_first_failure(
                error,
                book.files@,
                resource_map_of(book.resources@),
                file_name_index_of(resource_map_of(book.resources@)),
            ),
        },
{
    let name = book_name(file_name);
    let metadata = BookMetadata::resolve(&book.title, &book.creator, name.as_str());
    let (summary_md, html_to_md) = generate_summary_md(
        &book.resources,
        &book.toc,
        metadata.title.as_str(),
    );
    let mut files = match extract_chapters_and_resources(&book.files, &html_to_md) {
        Ok(files) => files,
        Err(error) => {
            return Err(error);
        },
    };
    let ghost extracted = files@;
    files.push(
        OutputFile {
            path: String::from_str("src/SUMMARY.md"),
            content: summary_md.as_str().as_bytes_vec(),
        },
    );
    let toml = book_toml(metadata.title.as_str(), &metadata.creator);
    files.push(
        OutputFile { path: String::from_str("book.toml"), content: toml.as_str().as_bytes_vec() },
    );
    proof {
        let n = book.files@.len() as int;
        assert forall|i: int| 0 <= i < n implies is_extraction_of(
            #[trigger] files@[i],
            book.files@[i],
            html_to_md@,
            file_name_index_of(html_to_md@),
        ) by {
            assert(files@[i] == extracted[i]);
        }
    }
    Ok(MdBook { directory: book_directory(file_name, with_file_name), files })
}

} // verus!

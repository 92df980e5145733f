//! What each packaged file of an EPUB becomes in the book: a chapter is
//! converted to Markdown and its links are rewritten, any other file is copied.

use vstd::prelude::*;
use vstd::slice::slice_to_vec;
use vstd::utf8::{decode_utf8, encode_utf8, valid_utf8};
use crate::error::Error;
use crate::links::{post_process_md, post_processed};
use crate::resource::{file_name_index_of, FileNameIndex, ResourceMap};
use crate::text::str_eq;

verus! {

/// A file of the EPUB: its path inside the archive and its bytes.
#[derive(Debug)]
pub struct PackagedFile {
    pub path: String,
    pub content: Vec<u8>,
}

/// What reading one declared resource gave: its path inside the archive, and
/// its bytes where it could be read.
#[derive(Debug)]
pub struct ResourceRead {
    pub path: String,
    pub content: Option<Vec<u8>>,
}

/// A file of the book: its path below the book's root and its bytes.
#[derive(Debug)]
pub struct OutputFile {
    pub path: String,
    pub content: Vec<u8>,
}

/// Why a chapter could not be converted.
pub enum Failure {
    /// Its bytes are not valid UTF-8.
    Encoding,
    /// The HTML-to-Markdown conversion gave up on it.
    Conversion,
}

/// What htmd makes of an HTML document: its Markdown, or `None` where the
/// conversion fails.
pub uninterp spec fn htmd_markdown(html: Seq<char>) -> Option<Seq<char>>;

/// Where a resource goes below `src/`: a chapter to its Markdown path, any
/// other file to its own path.
pub open spec fn output_name_of(path: Seq<char>, map: Map<Seq<char>, Seq<char>>) -> Seq<char> {
    if map.contains_key(path) {
        map[path]
    } else {
        path
    }
}

/// The path of a resource in the book. The name of the table of contents is
/// taken: a resource that would land on it gets an underscore in front.
pub open spec fn target_path_of(path: Seq<char>, map: Map<Seq<char>, Seq<char>>) -> Seq<char> {
    if output_name_of(path, map) == "SUMMARY.md"@ {
        "src/_SUMMARY.md"@
    } else {
        "src/"@ + output_name_of(path, map)
    }
}

/// The Markdown file of a chapter, as bytes.
pub open spec fn converted(content: Seq<u8>, index: Map<Seq<char>, Seq<char>>) -> Result<
    Seq<u8>,
    Failure,
> {
    if !valid_utf8(content) {
        Err(Failure::Encoding)
    } else {
        match htmd_markdown(decode_utf8(content)) {
            Some(markdown) => Ok(encode_utf8(post_processed(markdown, index))),
            None => Err(Failure::Conversion),
        }
    }
}

/// The bytes that a resource has in the book: those of its Markdown where the
/// table holds its path, else its own.
pub open spec fn extracted_content(
    path: Seq<char>,
    content: Seq<u8>,
    map: Map<Seq<char>, Seq<char>>,
    index: Map<Seq<char>, Seq<char>>,
) -> Result<Seq<u8>, Failure> {
    if map.contains_key(path) {
        converted(content, index)
    } else {
        Ok(content)
    }
}

/// Whether `out` is what `file` becomes in the book.
pub open spec fn is_extraction_of(
    out: OutputFile,
    file: PackagedFile,
    map: Map<Seq<char>, Seq<char>>,
    index: Map<Seq<char>, Seq<char>>,
) -> bool {
    &&& out.path@ == target_path_of(file.path@, map)
    &&& extracted_content(file.path@, file.content@, map, index) == Ok::<Seq<u8>, Failure>(
        out.content@,
    )
}

/// Whether `error` reports that `file` could not be converted, and why.
pub open spec fn is_failure_of(
    error: Error,
    file: PackagedFile,
    map: Map<Seq<char>, Seq<char>>,
    index: Map<Seq<char>, Seq<char>>,
) -> bool {
    match extracted_content(file.path@, file.content@, map, index) {
        Ok(_) => false,
        Err(Failure::Encoding) => error is Utf8,
        Err(Failure::Conversion) => error is Io,
    }
}

/// The files among the resources that were asked for: a resource that could
/// not be read is passed over, the others stay in their order.
pub open spec fn readable(read: Seq<ResourceRead>) -> Seq<PackagedFile>
    decreases read.len(),
{
    if read.len() == 0 {
        Seq::empty()
    } else {
        match read.last().content {
            Some(content) => readable(read.drop_last()).push(
                PackagedFile { path: read.last().path, content },
            ),
            None => readable(read.drop_last()),
        }
    }
}

/// Whether `error` reports the first of the files that cannot be converted.
pub open spec fn is_first_failure(
    error: Error,
    files: Seq<PackagedFile>,
    map: Map<Seq<char>, Seq<char>>,
    index: Map<Seq<char>, Seq<char>>,
) -> bool {
    exists|i: int|
        {
            &&& 0 <= i < files.len()
            &&& is_failure_of(error, #[trigger] files[i], map, index)
            &&& all_extractable(files.take(i), map, index)
        }
}

/// Whether every one of the files can be extracted.
pub open spec fn all_extractable(
    files: Seq<PackagedFile>,
    map: Map<Seq<char>, Seq<char>>,
    index: Map<Seq<char>, Seq<char>>,
) -> bool {
    forall|i: int|
        0 <= i < files.len() ==> extracted_content(
            (#[trigger] files[i]).path@,
            files[i].content@,
            map,
            index,
        ) is Ok
}

/// No resource lands on the table of contents: its path in the book is
/// never `src/SUMMARY.md`, and where it would be, it is `src/_SUMMARY.md`.
pub proof fn lemma_summary_is_kept(path: Seq<char>, map: Map<Seq<char>, Seq<char>>)
    ensures
        target_path_of(path, map) != "src/SUMMARY.md"@,
        output_name_of(path, map) == "SUMMARY.md"@ ==> target_path_of(path, map)
            == "src/_SUMMARY.md"@,
{
    reveal_strlit("src/");
    reveal_strlit("SUMMARY.md");
    reveal_strlit("src/SUMMARY.md");
    reveal_strlit("src/_SUMMARY.md");
    let name = output_name_of(path, map);
    if name == "SUMMARY.md"@ {
        assert("src/_SUMMARY.md"@[4] != "src/SUMMARY.md"@[4]);
    } else {
        let target = "src/"@ + name;
        if target == "src/SUMMARY.md"@ {
            assert(name =~= target.subrange(4, target.len() as int));
            assert("src/SUMMARY.md"@.subrange(4, 14) =~= "SUMMARY.md"@);
        }
    }
}

/// `String::from_utf8`: the text that the bytes encode where they are valid
/// UTF-8, and an error where they are not.
#[verifier::external_body]
fn text_from_utf8(bytes: Vec<u8>) -> (text: Result<String, std::string::FromUtf8Error>)
    ensures
        text is Ok <==> valid_utf8(bytes@),
        text matches Ok(s) ==> s@ == decode_utf8(bytes@),
{
    String::from_utf8(bytes)
}

/// `htmd::convert`: the Markdown for an HTML document. What it is, and on
/// which documents the conversion fails, is named, not stated.
#[verifier::external_body]
fn html_to_markdown(html: &str) -> (markdown: Result<String, std::io::Error>)
    ensures
        match markdown {
            Ok(text) => htmd_markdown(html@) == Some(text@),
            Err(_) => htmd_markdown(html@) is None,
        },
{
    htmd::convert(html)
}

/// The files among the resources that were asked for.
pub fn readable_files(read: Vec<ResourceRead>) -> (files: Vec<PackagedFile>)
    ensures
        files@ == readable(read@),
{
    let ghost all = read@;
    let mut files: Vec<PackagedFile> = Vec::new();
    for item in it: read
        invariant
            it.seq() == all,
            files@ == readable(all.take(it.index() as int)),
    {
        assert(all.take(it.index() + 1).drop_last() == all.take(it.index() as int));
        match item.content {
            Some(content) => {
                files.push(PackagedFile { path: item.path, content });
            },
            None => {},
        }
    }
    assert(all.take(all.len() as int) == all);
    files
}

/// The path of a resource in the book.
pub fn target_path(path: &str, html_to_md: &ResourceMap) -> (target: String)
    ensures
        target@ == target_path_of(path@, html_to_md@),
{
    let name: &str = match html_to_md.get(path) {
        Some(markdown) => markdown.as_str(),
        None => path,
    };
    proof {
        reveal_strlit("src/");
        reveal_strlit("_SUMMARY.md");
        reveal_strlit("src/_SUMMARY.md");
    }
    let mut target = String::from_str("src/");
    if str_eq(name, "SUMMARY.md") {
        target.append("_SUMMARY.md");
        assert(target@ =~= "src/_SUMMARY.md"@);
    } else {
        target.append(name);
    }
    target
}

/// What one packaged file becomes in the book. A chapter, that is a file
/// whose path the table holds, is decoded, converted to Markdown and has its
/// links rewritten; any other file keeps its bytes.
pub fn extract_resource(
    file: &PackagedFile,
    html_to_md: &ResourceMap,
    file_name_map: &FileNameIndex,
) -> (extracted: Result<OutputFile, Error>)
    ensures
        match extracted {
            Ok(out) => is_extraction_of(out, *file, html_to_md@, file_name_map@),
            Err(error) => is_failure_of(error, *file, html_to_md@, file_name_map@),
        },
        !html_to_md@.contains_key(file.path@) ==> extracted is Ok && extracted->Ok_0.content@
            == file.content@,
{
    let path = target_path(file.path.as_str(), html_to_md);
    let bytes = slice_to_vec(file.content.as_slice());
    if html_to_md.get(file.path.as_str()).is_none() {
        return Ok(OutputFile { path, content: bytes });
    }
    let html = match text_from_utf8(bytes) {
        Ok(html) => html,
        Err(error) => {
            return Err(Error::Utf8(error));
        },
    };
    let markdown = match html_to_markdown(html.as_str()) {
        Ok(markdown) => markdown,
        Err(error) => {
            return Err(Error::Io(error));
        },
    };
    let content = post_process_md(markdown.as_str(), file_name_map).as_str().as_bytes_vec();
    Ok(OutputFile { path, content })
}

/// What the packaged files become in the book, in their order. The first
/// chapter that cannot be converted stops the work with its error.
pub fn extract_chapters_and_resources(files: &Vec<PackagedFile>, html_to_md: &ResourceMap) -> (extracted:
    Result<Vec<OutputFile>, Error>)
    ensures
        extracted is Ok <==> all_extractable(
            files@,
            html_to_md@,
            file_name_index_of(html_to_md@),
        ),
        match extracted {
            Ok(out) => {
                &&& out@.len() == files@.len()
                &&& forall|i: int|
                    0 <= i < files@.len() ==> is_extraction_of(
                        #[trigger] out@[i],
                        files@[i],
                        html_to_md@,
                        file_name_index_of(html_to_md@),
                    )
            },
            Err(error) => is_first_failure(
                error,
                files@,
                html_to_md@,
                file_name_index_of(html_to_md@),
            ),
        },
{
    let file_name_map = FileNameIndex::from_resource_map(html_to_md);
    let mut out: Vec<OutputFile> = Vec::new();
    let mut i: usize = 0;
    while i < files.len()
        invariant
            i <= files.len(),
            out@.len() == i,
            file_name_map@ == file_name_index_of(html_to_md@),
            forall|j: int|
                0 <= j < i ==> is_extraction_of(
                    #[trigger] out@[j],
                    files@[j],
                    html_to_md@,
                    file_name_map@,
                ),
        decreases files.len() - i,
    {
        match extract_resource(&files[i], html_to_md, &file_name_map) {
            Ok(file) => {
                out.push(file);
            },
            Err(error) => {
                assert(is_failure_of(error, files@[i as int], html_to_md@, file_name_map@));
                assert forall|j: int| 0 <= j < i implies extracted_content(
                    (#[trigger] files@.take(i as int)[j]).path@,
                    files@.take(i as int)[j].content@,
                    html_to_md@,
                    file_name_map@,
                ) is Ok by {
                    assert(is_extraction_of(out@[j], files@[j], html_to_md@, file_name_map@));
                }
                return Err(error);
            },
        }
        i = i + 1;
    }
    assert forall|j: int| 0 <= j < files@.len() implies extracted_content(
        (#[trigger] files@[j]).path@,
        files@[j].content@,
        html_to_md@,
        file_name_map@,
    ) is Ok by {
        assert(is_extraction_of(out@[j], files@[j], html_to_md@, file_name_map@));
    }
    Ok(out)
}

} // verus!

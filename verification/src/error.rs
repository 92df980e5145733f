//! What can stop a conversion.

use vstd::prelude::*;

verus! {

/// `std::io::Error`, carried through as it came.
#[verifier::external_type_specification]
#[verifier::external_body]
pub struct ExIoError(std::io::Error);

/// `std::string::FromUtf8Error`, carried through as it came.
#[verifier::external_type_specification]
#[verifier::external_body]
pub struct ExFromUtf8Error(std::string::FromUtf8Error);

/// `epub::doc::DocError`, carried through as it came.
#[verifier::external_type_specification]
#[verifier::external_body]
pub struct ExDocError(epub::doc::DocError);

/// Why a conversion stopped.
#[derive(Debug)]
pub enum Error {
    /// The HTML-to-Markdown conversion, a directory or a file failed.
    Io(std::io::Error),
    /// The EPUB container could not be read.
    Epub(epub::doc::DocError),
    /// A chapter is not valid UTF-8.
    Utf8(std::string::FromUtf8Error),
    /// The input path names no regular file.
    NotAFile(String),
}

} // verus!

//! Errors reported by the indexer, the search engine and the store.
use vstd::prelude::*;
use crate::text::{chars_of, push_all, slice_chars, string_of};

verus! {

/// Errors that can occur while indexing, searching or storing trees.
#[derive(Debug)]
pub enum PageIndexError {
    /// Reading or writing a file failed.
    Io { path: String, message: String },
    /// Encoding or decoding a tree failed.
    Serialization(String),
    /// The document path does not exist.
    DocumentNotFound(String),
    /// The corpus path does not exist or is not a directory.
    InvalidCorpusPath(String),
    /// No documents were found in the corpus.
    EmptyCorpus(String),
    /// The index file does not exist.
    IndexNotFound(String),
    /// The configuration is invalid.
    InvalidConfig(String),
    /// The reasoning service reported an error.
    LlmApi(String),
    /// The reasoning service's response could not be read.
    LlmParse(String),
    /// The request to the reasoning service failed.
    Http(String),
    /// The configuration file could not be read.
    Config(String),
    /// The tree is malformed.
    TreeError(String),
}

/// At most the first 200 characters of a response, kept for diagnostics.
pub open spec fn excerpt(s: Seq<char>) -> Seq<char> {
    if s.len() <= 200 {
        s
    } else {
        s.subrange(0, 200)
    }
}

impl PageIndexError {
    /// An I/O error for `path`.
    pub fn io(path: &str, message: &str) -> (r: PageIndexError)
        ensures
            r matches PageIndexError::Io { path: p, message: m } && p@ == path@ && m@ == message@,
    {
        PageIndexError::Io { path: path.to_string(), message: message.to_string() }
    }

    /// The error for a response that could not be read: `detail`, then a
    /// bounded excerpt of the response.
    pub fn unparsable(detail: &str, response: &str) -> (r: PageIndexError)
        ensures
            r matches PageIndexError::LlmParse(m) && m@ == detail@ + excerpt(response@),
    {
        let s = chars_of(response);
        let n: usize = if s.len() <= 200 {
            s.len()
        } else {
            200
        };
        let head = slice_chars(&s, 0, n);
        let mut out = chars_of(detail);
        push_all(&mut out, &head);
        assert(s@.subrange(0, s@.len() as int) =~= s@);
        PageIndexError::LlmParse(string_of(&out))
    }
}

} // verus!

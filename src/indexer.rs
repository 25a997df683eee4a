//! The computing steps of indexing a document: the structure-extraction
//! prompt, the choice among the answer's accepted shapes, and the tree.
use vstd::prelude::*;
use crate::builder::{build, build_tree_from_toc, RawTocItem};
use crate::document::{tagged_all, Document};
use crate::error::{excerpt, PageIndexError};
use crate::prompts::GENERATE_TOC_INIT;
use crate::text::{chars_of, push_all, string_of};
use crate::tree::{DocumentTree, DocumentTreeView};

verus! {

/// Options for building a tree index.
#[derive(Debug, Clone, Copy)]
pub struct IndexerOptions {
    /// Largest number of tokens sent in one request.
    pub max_tokens_per_chunk: usize,
    /// Whether page indices are checked after generation.
    pub verify_indices: bool,
    /// Largest number of attempts to mend a wrong index.
    pub max_fix_attempts: usize,
}

impl Default for IndexerOptions {
    fn default() -> (r: IndexerOptions)
        ensures
            r.max_tokens_per_chunk == 20000,
            r.verify_indices,
            r.max_fix_attempts == 3,
    {
        IndexerOptions { max_tokens_per_chunk: 20000, verify_indices: true, max_fix_attempts: 3 }
    }
}

/// The structure-extraction prompt for a document's tagged text.
pub fn toc_init_prompt(content: &str) -> (r: String)
    ensures
        r@ == GENERATE_TOC_INIT@ + "\nGiven text\n:"@ + content@,
{
    let mut out = chars_of(GENERATE_TOC_INIT);
    let mid = chars_of("\nGiven text\n:");
    push_all(&mut out, &mid);
    let c = chars_of(content);
    push_all(&mut out, &c);
    string_of(&out)
}

/// The descriptors of a structure-extraction answer, given what reading it
/// as a bare list and as an object with a `table_of_contents` list gave:
/// the list when there is one, else the object's list, else an error that
/// quotes the start of the response.
pub fn toc_items_from(
    listed: Option<Vec<RawTocItem>>,
    wrapped: Option<Vec<RawTocItem>>,
    response: &str,
) -> (r: Result<Vec<RawTocItem>, PageIndexError>)
    ensures
        listed is Some ==> r == Ok::<Vec<RawTocItem>, PageIndexError>(listed->0),
        listed is None && wrapped is Some ==> r == Ok::<Vec<RawTocItem>, PageIndexError>(
            wrapped->0,
        ),
        listed is None && wrapped is None ==> (r matches Err(PageIndexError::LlmParse(m)) && m@
            == "Failed to parse TOC response: "@ + excerpt(response@)),
{
    match listed {
        Some(items) => Ok(items),
        None => match wrapped {
            Some(items) => Ok(items),
            None => Err(PageIndexError::unparsable("Failed to parse TOC response: ", response)),
        },
    }
}

/// The tree of `document` from the descriptors that the service found in it.
pub fn index_from_toc(document: &Document, items: &Vec<RawTocItem>) -> (r: DocumentTree)
    ensures
        r@ == (DocumentTreeView {
            name: document.name@,
            sections: build(items@, document.pages@.len() as int),
            total_pages: document.pages@.len() as int,
            description: None,
        }),
{
    let pages = document.page_count();
    let nodes = build_tree_from_toc(items, pages);
    DocumentTree::new(document.name.as_str(), nodes, pages)
}

/// The text sent for structure extraction: every page in its markers.
pub fn tagged_content(document: &Document) -> (r: String)
    ensures
        r@ == tagged_all(document.pages@),
{
    document.content_with_tags()
}

} // verus!

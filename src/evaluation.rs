//! Settings and records of the comparison between tree search and a
//! chunk-and-embed baseline.
use vstd::prelude::*;
use crate::text::{chars_of, slice_chars, string_of, trim, trim_bounds};

verus! {

/// How a document is cut into chunks for the baseline.
#[derive(Debug, Clone, Copy)]
pub struct ChunkConfig {
    /// Largest number of characters in a chunk.
    pub chunk_size: usize,
    /// Characters shared by consecutive chunks.
    pub chunk_overlap: usize,
}

impl Default for ChunkConfig {
    fn default() -> (r: ChunkConfig)
        ensures
            r.chunk_size == 512,
            r.chunk_overlap == 50,
    {
        ChunkConfig { chunk_size: 512, chunk_overlap: 50 }
    }
}

/// A piece of a document, with its place in the document.
#[derive(Debug, Clone)]
pub struct Chunk {
    pub text: String,
    /// Start character position in the document.
    pub start_pos: usize,
    /// End character position in the document.
    pub end_pos: usize,
    /// Position of the chunk among the document's chunks.
    pub index: usize,
}

/// Settings of a comparison run.
#[derive(Debug, Clone, Copy)]
pub struct BenchmarkConfig {
    /// Number of results retrieved per question.
    pub top_k: usize,
    /// Chunking of the baseline.
    pub chunk_config: ChunkConfig,
    /// Whether tree search runs.
    pub run_pageindex: bool,
    /// Whether the baseline runs.
    pub run_vector: bool,
    /// Largest number of items evaluated.
    pub max_items: Option<usize>,
    /// Whether progress is reported item by item.
    pub verbose: bool,
}

impl Default for BenchmarkConfig {
    fn default() -> (r: BenchmarkConfig)
        ensures
            r.top_k == 3,
            r.chunk_config.chunk_size == 512,
            r.chunk_config.chunk_overlap == 50,
            r.run_pageindex,
            r.run_vector,
            r.max_items is None,
            !r.verbose,
    {
        BenchmarkConfig {
            top_k: 3,
            chunk_config: ChunkConfig::default(),
            run_pageindex: true,
            run_vector: true,
            max_items: None,
            verbose: false,
        }
    }
}

/// A judge's verdict on one retrieval.
#[derive(Debug, Clone)]
pub struct JudgeResult {
    /// Relevance score, 1 to 5.
    pub relevance: u8,
    /// Whether the retrieved text answers the question.
    pub answerable: bool,
    pub explanation: String,
}

/// A judge's comparison of two systems on one question.
#[derive(Debug, Clone)]
pub struct ComparisonResult {
    /// 1 when the first system wins, 2 when the second does, 0 for a tie.
    pub winner: u8,
    /// Score of the first system, 1 to 5.
    pub score_system1: u8,
    /// Score of the second system, 1 to 5.
    pub score_system2: u8,
    pub explanation: String,
}

/// The outcome of one item of a comparison run.
#[derive(Debug, Clone)]
pub struct ItemResult {
    pub item_id: String,
    /// Text that tree search retrieved.
    pub pageindex_content: Option<String>,
    /// Answer generated from it.
    pub pageindex_answer: Option<String>,
    /// Retrieval time of tree search, in milliseconds.
    pub pageindex_time_ms: Option<u64>,
    /// Text that the baseline retrieved.
    pub vector_content: Option<String>,
    /// Answer generated from it.
    pub vector_answer: Option<String>,
    /// Retrieval time of the baseline, in milliseconds.
    pub vector_time_ms: Option<u64>,
    /// The judge's comparison.
    pub comparison: Option<ComparisonResult>,
    /// Error message, if the item failed.
    pub error: Option<String>,
}

/// Whether `c` ends a sentence.
pub open spec fn is_sentence_end(c: char) -> bool {
    c == '.' || c == '!' || c == '?'
}

/// Position of the last sentence end in `s[lo..hi]`.
pub open spec fn last_sentence_end(s: Seq<char>, lo: int, hi: int) -> Option<int>
    decreases hi - lo,
{
    if hi <= lo {
        None
    } else if is_sentence_end(s[hi - 1]) {
        Some(hi - 1)
    } else {
        last_sentence_end(s, lo, hi - 1)
    }
}

/// Where the chunk that starts at `start` ends (exclusive): `size`
/// characters on, pulled back to just after the last sentence end among
/// the final 100 characters when the text goes on, and always past `start`.
pub open spec fn chunk_end(s: Seq<char>, start: int, size: int) -> int {
    let n = s.len() as int;
    let end = if start + size < n {
        start + size
    } else {
        n
    };
    let adjusted = if end < n && end > start {
        let from = if end - 100 > start {
            end - 100
        } else {
            start
        };
        match last_sentence_end(s, from, end) {
            Some(p) => if p + 1 > start {
                p + 1
            } else {
                end
            },
            None => end,
        }
    } else {
        end
    };
    let at_least = if adjusted > start + 1 {
        adjusted
    } else {
        start + 1
    };
    if at_least < n {
        at_least
    } else {
        n
    }
}

/// Where the chunk after one spanning `start..end` starts: `overlap`
/// characters before `end`, but always after `start`.
pub open spec fn next_chunk_start(start: int, end: int, overlap: int) -> int {
    let next = if overlap > 0 && end > overlap {
        end - overlap
    } else {
        end
    };
    if next <= start {
        start + 1
    } else {
        next
    }
}

/// The chunks of `s` from position `start` on, numbered from `index`:
/// (trimmed text, start, end, index), blank pieces left out.
pub open spec fn chunks_from(s: Seq<char>, start: int, index: int, config: ChunkConfig) -> Seq<
    (Seq<char>, int, int, int),
>
    decreases s.len() - start,
{
    if start < 0 || start >= s.len() {
        seq![]
    } else {
        let end = chunk_end(s, start, config.chunk_size as int);
        let t = trim(s.subrange(start, end));
        let here = if t.len() > 0 {
            seq![(t, start, end, index)]
        } else {
            seq![]
        };
        let next_index = if t.len() > 0 {
            index + 1
        } else {
            index
        };
        if end >= s.len() {
            here
        } else {
            here + chunks_from(
                s,
                next_chunk_start(start, end, config.chunk_overlap as int),
                next_index,
                config,
            )
        }
    }
}

pub open spec fn chunk_view(c: Chunk) -> (Seq<char>, int, int, int) {
    (c.text@, c.start_pos as int, c.end_pos as int, c.index as int)
}

fn last_sentence_end_in(s: &Vec<char>, lo: usize, hi: usize) -> (r: Option<usize>)
    requires
        lo <= hi <= s.len(),
    ensures
        match r {
            Some(p) => last_sentence_end(s@, lo as int, hi as int) == Some(p as int) && lo <= p < hi,
            None => last_sentence_end(s@, lo as int, hi as int) is None,
        },
{
    let mut j: usize = hi;
    while j > lo
        invariant
            lo <= j <= hi <= s.len(),
            last_sentence_end(s@, lo as int, hi as int) == last_sentence_end(s@, lo as int, j as int),
        decreases j,
    {
        let c = s[j - 1];
        if c == '.' || c == '!' || c == '?' {
            return Some(j - 1);
        }
        j -= 1;
    }
    None
}

fn chunk_end_at(s: &Vec<char>, start: usize, size: usize) -> (r: usize)
    requires
        start < s.len(),
    ensures
        r as int == chunk_end(s@, start as int, size as int),
        start < r <= s.len(),
{
    let n = s.len();
    let end = if size < n - start {
        start + size
    } else {
        n
    };
    let adjusted = if end < n && end > start {
        let from = if end > 100 && end - 100 > start {
            end - 100
        } else {
            start
        };
        match last_sentence_end_in(s, from, end) {
            Some(p) => if p + 1 > start {
                p + 1
            } else {
                end
            },
            None => end,
        }
    } else {
        end
    };
    let at_least = if adjusted > start + 1 {
        adjusted
    } else {
        start + 1
    };
    if at_least < n {
        at_least
    } else {
        n
    }
}

/// Cuts `text` into overlapping chunks of about `chunk_size` characters,
/// preferring to end each at a sentence end, and keeps the non-blank ones,
/// trimmed and numbered in order.
pub fn chunk_text(text: &str, config: &ChunkConfig) -> (r: Vec<Chunk>)
    ensures
        r@.map_values(|c: Chunk| chunk_view(c)) == chunks_from(text@, 0, 0, *config),
{
    let s = chars_of(text);
    let n = s.len();
    let mut chunks: Vec<Chunk> = Vec::new();
    if n == 0 {
        assert(chunks@.map_values(|c: Chunk| chunk_view(c)) =~= Seq::<(Seq<char>, int, int, int)>::empty());
        return chunks;
    }
    let mut start: usize = 0;
    let mut index: usize = 0;
    while start < n
        invariant
            n == s.len(),
            s@ == text@,
            start < n,
            index <= start,
            chunks@.map_values(|c: Chunk| chunk_view(c)) + chunks_from(
                s@,
                start as int,
                index as int,
                *config,
            ) == chunks_from(s@, 0, 0, *config),
        decreases n - start,
    {
        let end = chunk_end_at(&s, start, config.chunk_size);
        let (lo, hi) = trim_bounds(&s, start, end);
        let ghost t = trim(s@.subrange(start as int, end as int));
        let ghost before = chunks@.map_values(|c: Chunk| chunk_view(c));
        let kept = lo < hi;
        if kept {
            let piece = slice_chars(&s, lo, hi);
            chunks.push(Chunk { text: string_of(&piece), start_pos: start, end_pos: end, index });
            assert(chunks@.map_values(|c: Chunk| chunk_view(c)) =~= before.push(
                (t, start as int, end as int, index as int),
            ));
            index += 1;
        } else {
            assert(chunks@.map_values(|c: Chunk| chunk_view(c)) =~= before);
        }
        if end >= n {
            assert(chunks@.map_values(|c: Chunk| chunk_view(c)) =~= before + chunks_from(
                s@,
                start as int,
                (if kept { index - 1 } else { index as int }),
                *config,
            ));
            return chunks;
        }
        let overlap = config.chunk_overlap;
        let next = if overlap > 0 && end > overlap {
            end - overlap
        } else {
            end
        };
        let next_start = if next <= start {
            start + 1
        } else {
            next
        };
        proof {
            let old_index = if kept { index - 1 } else { index as int };
            let rest = chunks_from(s@, next_start as int, index as int, *config);
            assert(chunks_from(s@, start as int, old_index, *config) == (if kept {
                seq![(t, start as int, end as int, old_index)]
            } else {
                seq![]
            }) + rest);
            assert(chunks@.map_values(|c: Chunk| chunk_view(c)) + rest =~= before + chunks_from(
                s@,
                start as int,
                old_index,
                *config,
            ));
        }
        start = next_start;
    }
    chunks
}

} // verus!

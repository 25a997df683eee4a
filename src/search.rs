//! Ranking of the sections that the reasoning service finds relevant, and
//! extraction of their page text.
use vstd::prelude::*;
use crate::document::{tagged_range, Document};
use crate::builder::marker_prefix;
use crate::prompts::TREE_SEARCH;
use crate::text::{
    chars_eq, chars_of, lowercase_of, matches_at, push_all, replace, replace_all, slice_chars,
    starts_with, string_of, to_lowercase, trim, trim_bounds,
};

verus! {

/// How relevant a section is to a query.
#[derive(Debug, Clone, Copy, PartialEq, Eq, Structural)]
pub enum Relevance {
    High,
    Medium,
    Low,
}

/// Numeric rank of a relevance level: High 3, Medium 2, Low 1.
pub open spec fn rank(r: Relevance) -> int {
    match r {
        Relevance::High => 3,
        Relevance::Medium => 2,
        Relevance::Low => 1,
    }
}

/// The level that a lowercased relevance word names; anything unknown is Low.
pub open spec fn relevance_of(lower: Seq<char>) -> Relevance {
    if lower == "high"@ {
        Relevance::High
    } else if lower == "medium"@ {
        Relevance::Medium
    } else {
        Relevance::Low
    }
}

impl Relevance {
    /// Reads a relevance word, ignoring case; unknown words give Low.
    pub fn from_str(s: &str) -> (r: Relevance)
        ensures
            r == relevance_of(lowercase_of(s@)),
    {
        let lower = to_lowercase(s);
        Relevance::from_lowercase(lower.as_str())
    }

    /// Reads an already lowercased relevance word; unknown words give Low.
    pub fn from_lowercase(lower: &str) -> (r: Relevance)
        ensures
            r == relevance_of(lower@),
    {
        let l = chars_of(lower);
        let high = chars_of("high");
        let medium = chars_of("medium");
        if chars_eq(&l, &high) {
            Relevance::High
        } else if chars_eq(&l, &medium) {
            Relevance::Medium
        } else {
            Relevance::Low
        }
    }

    /// Numeric score used for ordering: High 3, Medium 2, Low 1.
    pub fn score(&self) -> (r: u8)
        ensures
            r as int == rank(*self),
    {
        match self {
            Relevance::High => 3,
            Relevance::Medium => 2,
            Relevance::Low => 1,
        }
    }
}

/// A section found relevant to a query.
#[derive(Debug)]
pub struct SearchResult {
    /// Section title.
    pub title: String,
    /// First page of the section.
    pub start_index: usize,
    /// Last page of the section.
    pub end_index: usize,
    /// Relevance level.
    pub relevance: Relevance,
    /// Why the section is relevant.
    pub reason: String,
    /// Text of the section's pages, when requested.
    pub content: Option<String>,
}

/// One entry of the service's answer, before its relevance word is read.
pub struct RawSearchResult {
    pub title: String,
    pub start_index: usize,
    pub end_index: usize,
    pub relevance: String,
    pub reason: String,
}

/// Search options.
#[derive(Debug, Clone, Copy)]
pub struct SearchOptions {
    /// Largest number of results returned.
    pub top_k: usize,
    /// Lowest relevance kept.
    pub min_relevance: Relevance,
    /// Whether results carry their section's text.
    pub include_content: bool,
}

impl Default for SearchOptions {
    fn default() -> (r: SearchOptions)
        ensures
            r.top_k == 10,
            r.min_relevance == Relevance::Low,
            !r.include_content,
    {
        SearchOptions { top_k: 10, min_relevance: Relevance::Low, include_content: false }
    }
}

/// The results that the service's entries stand for, in the same order.
pub fn results_from_raw(raw: Vec<RawSearchResult>) -> (r: Vec<SearchResult>)
    ensures
        r@.len() == raw@.len(),
        forall|i: int|
            0 <= i < r@.len() ==> {
                &&& (#[trigger] r@[i]).title@ == raw@[i].title@
                &&& r@[i].start_index == raw@[i].start_index
                &&& r@[i].end_index == raw@[i].end_index
                &&& r@[i].relevance == relevance_of(lowercase_of(raw@[i].relevance@))
                &&& r@[i].reason@ == raw@[i].reason@
                &&& r@[i].content is None
            },
{
    let ghost orig = raw@;
    let mut rest = raw;
    let _n: usize = rest.len();
    let mut out: Vec<SearchResult> = Vec::new();
    let mut i: usize = 0;
    while rest.len() > 0
        invariant
            i + rest@.len() == orig.len(),
            orig.len() <= usize::MAX,
            rest@ == orig.subrange(i as int, orig.len() as int),
            out@.len() == i,
            forall|k: int|
                0 <= k < i ==> {
                    &&& (#[trigger] out@[k]).title@ == orig[k].title@
                    &&& out@[k].start_index == orig[k].start_index
                    &&& out@[k].end_index == orig[k].end_index
                    &&& out@[k].relevance == relevance_of(lowercase_of(orig[k].relevance@))
                    &&& out@[k].reason@ == orig[k].reason@
                    &&& out@[k].content is None
                },
        decreases rest.len(),
    {
        assert(rest@[0] == orig[i as int]);
        let e = rest.remove(0);
        let relevance = Relevance::from_str(e.relevance.as_str());
        out.push(
            SearchResult {
                title: e.title,
                start_index: e.start_index,
                end_index: e.end_index,
                relevance,
                reason: e.reason,
                content: None,
            },
        );
        assert(rest@ =~= orig.subrange(i + 1, orig.len() as int));
        i += 1;
    }
    out
}

/// The results of level `level`, in the order given.
pub open spec fn at_level(rs: Seq<SearchResult>, level: Relevance) -> Seq<SearchResult>
    decreases rs.len(),
{
    if rs.len() == 0 {
        seq![]
    } else {
        at_level(rs.drop_last(), level) + if rs.last().relevance == level {
            seq![rs.last()]
        } else {
            seq![]
        }
    }
}

/// The results at or above `min`, highest level first; within a level the
/// order given is kept.
pub open spec fn ranked(rs: Seq<SearchResult>, min: Relevance) -> Seq<SearchResult> {
    at_level(rs, Relevance::High) + (if rank(Relevance::Medium) >= rank(min) {
        at_level(rs, Relevance::Medium)
    } else {
        seq![]
    }) + (if rank(Relevance::Low) >= rank(min) {
        at_level(rs, Relevance::Low)
    } else {
        seq![]
    })
}

/// At most the first `k` elements of `s`.
pub open spec fn first_k<T>(s: Seq<T>, k: int) -> Seq<T> {
    if s.len() <= k {
        s
    } else {
        s.subrange(0, k)
    }
}

/// What a search returns for the service's results `rs`: those at or above
/// the minimum relevance, highest first and otherwise in the service's
/// order, at most `top_k` of them.
pub open spec fn selected(rs: Seq<SearchResult>, options: SearchOptions) -> Seq<SearchResult> {
    first_k(ranked(rs, options.min_relevance), options.top_k as int)
}

/// Filters, orders and truncates the service's results.
pub fn rank_results(results: Vec<SearchResult>, options: &SearchOptions) -> (r: Vec<SearchResult>)
    ensures
        r@ == selected(results@, *options),
{
    let ghost orig = results@;
    let mut rest = results;
    let _n: usize = rest.len();
    let mut high: Vec<SearchResult> = Vec::new();
    let mut medium: Vec<SearchResult> = Vec::new();
    let mut low: Vec<SearchResult> = Vec::new();
    let mut i: usize = 0;
    while rest.len() > 0
        invariant
            i + rest@.len() == orig.len(),
            orig.len() <= usize::MAX,
            rest@ == orig.subrange(i as int, orig.len() as int),
            high@ == at_level(orig.subrange(0, i as int), Relevance::High),
            medium@ == at_level(orig.subrange(0, i as int), Relevance::Medium),
            low@ == at_level(orig.subrange(0, i as int), Relevance::Low),
        decreases rest.len(),
    {
        assert(rest@[0] == orig[i as int]);
        let e = rest.remove(0);
        let ghost next = orig.subrange(0, i + 1);
        assert(next.drop_last() =~= orig.subrange(0, i as int));
        assert(next.last() == e);
        match e.relevance {
            Relevance::High => {
                high.push(e);
            },
            Relevance::Medium => {
                medium.push(e);
            },
            Relevance::Low => {
                low.push(e);
            },
        }
        assert(high@ =~= at_level(next, Relevance::High));
        assert(medium@ =~= at_level(next, Relevance::Medium));
        assert(low@ =~= at_level(next, Relevance::Low));
        assert(rest@ =~= orig.subrange(i + 1, orig.len() as int));
        i += 1;
    }
    assert(orig.subrange(0, i as int) =~= orig);
    let min = options.min_relevance.score();
    let mut out = high;
    if min <= 2 {
        out.append(&mut medium);
    }
    if min <= 1 {
        out.append(&mut low);
    }
    assert(out@ =~= ranked(orig, options.min_relevance));
    out.truncate(options.top_k);
    out
}

/// Every result that a search returns is at or above the minimum
/// relevance, no result follows one of a lower level, and there are at
/// most `top_k` of them.
pub proof fn lemma_selected_ordered(rs: Seq<SearchResult>, options: SearchOptions)
    ensures
        selected(rs, options).len() <= options.top_k,
        forall|i: int|
            0 <= i < selected(rs, options).len() ==> rank(
                (#[trigger] selected(rs, options)[i]).relevance,
            ) >= rank(options.min_relevance),
        forall|i: int, j: int|
            0 <= i < j < selected(rs, options).len() ==> rank(
                (#[trigger] selected(rs, options)[i]).relevance,
            ) >= rank((#[trigger] selected(rs, options)[j]).relevance),
{
    let h = at_level(rs, Relevance::High);
    let m = at_level(rs, Relevance::Medium);
    let l = at_level(rs, Relevance::Low);
    lemma_at_level_all(rs, Relevance::High);
    lemma_at_level_all(rs, Relevance::Medium);
    lemma_at_level_all(rs, Relevance::Low);
    let all = ranked(rs, options.min_relevance);
    let s = selected(rs, options);
    assert forall|i: int| 0 <= i < all.len() implies rank(#[trigger] all[i].relevance) >= rank(
        options.min_relevance,
    ) && (i < h.len() ==> all[i].relevance == Relevance::High) && (h.len() <= i ==> all[i].relevance
        != Relevance::High) by {
        if i < h.len() {
            assert(all[i] == h[i]);
        } else if rank(Relevance::Medium) >= rank(options.min_relevance) && i < h.len() + m.len() {
            assert(all[i] == m[i - h.len()]);
        } else if rank(Relevance::Medium) >= rank(options.min_relevance) {
            assert(all[i] == l[i - h.len() - m.len()]);
        } else {
            assert(all[i] == l[i - h.len()]);
        }
    }
    assert forall|i: int, j: int| 0 <= i < j < s.len() implies rank(
        (#[trigger] s[i]).relevance,
    ) >= rank((#[trigger] s[j]).relevance) by {
        assert(s[i] == all[i]);
        assert(s[j] == all[j]);
        if rank(Relevance::Medium) >= rank(options.min_relevance) {
            if i >= h.len() + m.len() {
                assert(all[i] == l[i - h.len() - m.len()]);
                assert(all[j] == l[j - h.len() - m.len()]);
            } else if i >= h.len() && j >= h.len() + m.len() {
                assert(all[j] == l[j - h.len() - m.len()]);
            } else if i >= h.len() {
                assert(all[i] == m[i - h.len()]);
                assert(all[j] == m[j - h.len()]);
            }
        } else if i >= h.len() {
            assert(all[i] == l[i - h.len()]);
            assert(all[j] == l[j - h.len()]);
        }
    }
    assert forall|i: int| 0 <= i < s.len() implies rank(
        (#[trigger] s[i]).relevance,
    ) >= rank(options.min_relevance) by {
        assert(s[i] == all[i]);
    }
}

proof fn lemma_at_level_all(rs: Seq<SearchResult>, level: Relevance)
    ensures
        forall|i: int|
            0 <= i < at_level(rs, level).len() ==> (#[trigger] at_level(rs, level)[i]).relevance
                == level,
    decreases rs.len(),
{
    if rs.len() > 0 {
        lemma_at_level_all(rs.drop_last(), level);
        let a = at_level(rs.drop_last(), level);
        assert forall|i: int| 0 <= i < at_level(rs, level).len() implies (#[trigger] at_level(
            rs,
            level,
        )[i]).relevance == level by {
            if i < a.len() {
                assert(at_level(rs, level)[i] == a[i]);
            }
        }
    }
}

/// The lines of `s` as `str::lines` gives them: split at '\n', a '\r'
/// before a '\n' dropped, no empty line after a final '\n'.
pub open spec fn line_pieces(s: Seq<char>) -> Seq<Seq<char>>
    decreases s.len(),
{
    if s.len() == 0 {
        seq![seq![]]
    } else {
        let p = line_pieces(s.drop_last());
        if s.last() == '\n' {
            p.push(seq![])
        } else {
            p.update(p.len() - 1, p.last().push(s.last()))
        }
    }
}

pub open spec fn without_cr(l: Seq<char>) -> Seq<char> {
    if l.len() > 0 && l.last() == '\r' {
        l.drop_last()
    } else {
        l
    }
}

/// Whether a line is kept: it does not begin with a page marker.
pub open spec fn kept_line(l: Seq<char>) -> bool {
    !starts_with(l, marker_prefix())
}

/// The kept lines among the '\n'-terminated pieces `ps`.
pub open spec fn kept_terminated(ps: Seq<Seq<char>>) -> Seq<Seq<char>>
    decreases ps.len(),
{
    if ps.len() == 0 {
        seq![]
    } else {
        let l = without_cr(ps.last());
        kept_terminated(ps.drop_last()) + if kept_line(l) {
            seq![l]
        } else {
            seq![]
        }
    }
}

/// The lines of `s` that do not begin with a page marker, in order.
pub open spec fn kept_lines(s: Seq<char>) -> Seq<Seq<char>> {
    let p = line_pieces(s);
    let tail = p.last();
    kept_terminated(p.drop_last()) + if tail.len() > 0 && kept_line(tail) {
        seq![tail]
    } else {
        seq![]
    }
}

/// Lines joined by '\n'.
pub open spec fn join_lines(ls: Seq<Seq<char>>) -> Seq<char>
    decreases ls.len(),
{
    if ls.len() == 0 {
        seq![]
    } else if ls.len() == 1 {
        ls[0]
    } else {
        join_lines(ls.drop_last()) + seq!['\n'] + ls.last()
    }
}

/// Text without its page-marker lines, trimmed.
pub open spec fn without_markers(s: Seq<char>) -> Seq<char> {
    trim(join_lines(kept_lines(s)))
}

/// The text of pages `start..=end` of `document`, without page markers.
pub open spec fn section_text(document: Document, start: int, end: int) -> Seq<char> {
    without_markers(tagged_range(document.pages@, start, end))
}

fn push_line(lines: &mut Vec<Vec<char>>, s: &Vec<char>, lo: usize, hi: usize, terminated: bool)
    requires
        lo <= hi <= s.len(),
    ensures
        ({
            let l = s@.subrange(lo as int, hi as int);
            let l2 = if terminated {
                without_cr(l)
            } else {
                l
            };
            final(lines)@.map_values(|v: Vec<char>| v@) == old(lines)@.map_values(|v: Vec<char>| v@)
                + if kept_line(l2) && (terminated || l2.len() > 0) {
                seq![l2]
            } else {
                seq![]
            }
        }),
{
    let mut h = hi;
    if terminated && h > lo && s[h - 1] == '\r' {
        h = h - 1;
    }
    let line = slice_chars(s, lo, h);
    proof {
        let l = s@.subrange(lo as int, hi as int);
        if terminated && l.len() > 0 && l.last() == '\r' {
            assert(l.drop_last() =~= s@.subrange(lo as int, h as int));
        }
    }
    let marker = chars_of("<physical_index_");
    let keep = !matches_at(&line, 0, &marker);
    assert(line@.subrange(0, line@.len() as int) =~= line@);
    if keep && (terminated || h > lo) {
        let ghost before = lines@;
        lines.push(line);
        assert(lines@.map_values(|v: Vec<char>| v@) =~= before.map_values(|v: Vec<char>| v@).push(
            line@,
        ));
    } else {
        assert(lines@.map_values(|v: Vec<char>| v@) =~= old(lines)@.map_values(
            |v: Vec<char>| v@,
        ) + Seq::<Seq<char>>::empty());
    }
}

/// Removes the page-marker lines from `text`, joins the rest with '\n'
/// and trims the result.
pub fn strip_page_markers(text: &str) -> (r: String)
    ensures
        r@ == without_markers(text@),
{
    let s = chars_of(text);
    let mut lines: Vec<Vec<char>> = Vec::new();
    let mut seg_start: usize = 0;
    let mut i: usize = 0;
    proof {
        assert(s@.subrange(0, 0) =~= Seq::<char>::empty());
        assert(lines@.map_values(|v: Vec<char>| v@) =~= Seq::<Seq<char>>::empty());
    }
    while i < s.len()
        invariant
            seg_start <= i <= s.len(),
            line_pieces(s@.subrange(0, i as int)).len() >= 1,
            line_pieces(s@.subrange(0, i as int)).last() == s@.subrange(seg_start as int, i as int),
            lines@.map_values(|v: Vec<char>| v@) == kept_terminated(
                line_pieces(s@.subrange(0, i as int)).drop_last(),
            ),
        decreases s.len() - i,
    {
        let ghost pre = s@.subrange(0, i as int);
        let ghost ps = line_pieces(pre);
        let ghost next = s@.subrange(0, i + 1);
        assert(next.drop_last() =~= pre);
        assert(next.last() == s@[i as int]);
        if s[i] == '\n' {
            push_line(&mut lines, &s, seg_start, i, true);
            assert(line_pieces(next) == ps.push(seq![]));
            assert(line_pieces(next).drop_last() =~= ps);
            assert(ps.drop_last() =~= ps.subrange(0, ps.len() - 1));
            seg_start = i + 1;
            assert(s@.subrange(seg_start as int, i + 1) =~= Seq::<char>::empty());
        } else {
            assert(line_pieces(next) == ps.update(ps.len() - 1, ps.last().push(s@[i as int])));
            assert(line_pieces(next).drop_last() =~= ps.drop_last());
            assert(s@.subrange(seg_start as int, i + 1) =~= s@.subrange(seg_start as int, i as int).push(
                s@[i as int],
            ));
        }
        i += 1;
    }
    assert(s@.subrange(0, s@.len() as int) =~= s@);
    push_line(&mut lines, &s, seg_start, s.len(), false);
    let ghost ls = lines@.map_values(|v: Vec<char>| v@);
    assert(ls =~= kept_lines(s@));
    let mut joined: Vec<char> = Vec::new();
    let mut k: usize = 0;
    while k < lines.len()
        invariant
            k <= lines.len(),
            ls == lines@.map_values(|v: Vec<char>| v@),
            joined@ == join_lines(ls.subrange(0, k as int)),
        decreases lines.len() - k,
    {
        if k > 0 {
            joined.push('\n');
        }
        push_all(&mut joined, &lines[k]);
        let ghost nk = ls.subrange(0, k + 1);
        assert(nk.drop_last() =~= ls.subrange(0, k as int));
        assert(nk.last() == lines@[k as int]@);
        if k == 0 {
            assert(joined@ =~= join_lines(nk));
        }
        k += 1;
    }
    assert(ls.subrange(0, k as int) =~= ls);
    let (lo, hi) = trim_bounds(&joined, 0, joined.len());
    assert(joined@.subrange(0, joined@.len() as int) =~= joined@);
    let out = slice_chars(&joined, lo, hi);
    string_of(&out)
}

/// The results with the text of their pages attached: pages
/// `start_index..=end_index` of `document`, page markers removed. A range
/// outside the document gives empty text.
pub fn attach_content(results: Vec<SearchResult>, document: &Document) -> (r: Vec<SearchResult>)
    ensures
        r@.len() == results@.len(),
        forall|i: int|
            0 <= i < r@.len() ==> {
                &&& (#[trigger] r@[i]).title == results@[i].title
                &&& r@[i].start_index == results@[i].start_index
                &&& r@[i].end_index == results@[i].end_index
                &&& r@[i].relevance == results@[i].relevance
                &&& r@[i].reason == results@[i].reason
                &&& r@[i].content matches Some(c) && c@ == section_text(
                    *document,
                    results@[i].start_index as int,
                    results@[i].end_index as int,
                )
            },
{
    let ghost orig = results@;
    let mut rest = results;
    let _n: usize = rest.len();
    let mut out: Vec<SearchResult> = Vec::new();
    let mut i: usize = 0;
    while rest.len() > 0
        invariant
            i + rest@.len() == orig.len(),
            orig.len() <= usize::MAX,
            rest@ == orig.subrange(i as int, orig.len() as int),
            out@.len() == i,
            forall|k: int|
                0 <= k < i ==> {
                    &&& (#[trigger] out@[k]).title == orig[k].title
                    &&& out@[k].start_index == orig[k].start_index
                    &&& out@[k].end_index == orig[k].end_index
                    &&& out@[k].relevance == orig[k].relevance
                    &&& out@[k].reason == orig[k].reason
                    &&& out@[k].content matches Some(c) && c@ == section_text(
                        *document,
                        orig[k].start_index as int,
                        orig[k].end_index as int,
                    )
                },
        decreases rest.len(),
    {
        assert(rest@[0] == orig[i as int]);
        let e = rest.remove(0);
        let raw = document.content_range(e.start_index, e.end_index);
        let clean = strip_page_markers(raw.as_str());
        out.push(
            SearchResult {
                title: e.title,
                start_index: e.start_index,
                end_index: e.end_index,
                relevance: e.relevance,
                reason: e.reason,
                content: Some(clean),
            },
        );
        assert(rest@ =~= orig.subrange(i + 1, orig.len() as int));
        i += 1;
    }
    out
}

/// The ranking prompt: the tree's JSON text and the query put in the
/// template's placeholders, in that order.
pub fn tree_search_prompt(tree_json: &str, query: &str) -> (r: String)
    ensures
        r@ == replace_all(
            replace_all(TREE_SEARCH@, "{tree_structure}"@, tree_json@),
            "{query}"@,
            query@,
        ),
{
    proof {
        reveal_strlit("{tree_structure}");
        reveal_strlit("{query}");
    }
    let with_tree = replace(TREE_SEARCH, "{tree_structure}", tree_json);
    replace(with_tree.as_str(), "{query}", query)
}

} // verus!

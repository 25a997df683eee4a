//! Documents as ordered pages, each addressed by its 1-based number.
use vstd::prelude::*;
use crate::text::{
    chars_of, decimal, is_whitespace, is_ws, matches_at, push_all, push_decimal, slice_chars,
    starts_with, string_of, trim, trim_bounds,
};

verus! {

/// A single page of a document.
pub struct Page {
    /// 1-indexed page number.
    pub number: usize,
    /// Text of the page.
    pub content: String,
    /// Approximate token count (four tokens per three words).
    pub token_count: usize,
}

/// Number of whitespace-separated words in `s`.
pub open spec fn word_count(s: Seq<char>) -> nat
    decreases s.len(),
{
    if s.len() == 0 {
        0
    } else {
        let starts_word = !is_ws(s.last()) && (s.len() == 1 || is_ws(s[s.len() - 2]));
        word_count(s.drop_last()) + if starts_word {
            1nat
        } else {
            0nat
        }
    }
}

/// Token estimate: words divided by 0.75, rounded down, capped at `usize::MAX`.
pub open spec fn token_estimate(s: Seq<char>) -> int {
    let t = word_count(s) * 4 / 3;
    if t > usize::MAX {
        usize::MAX as int
    } else {
        t as int
    }
}

/// Estimates the token count of `text` from its word count.
pub fn estimate_tokens(text: &str) -> (r: usize)
    ensures
        r as int == token_estimate(text@),
{
    let s = chars_of(text);
    let mut words: usize = 0;
    let mut i: usize = 0;
    while i < s.len()
        invariant
            i <= s.len(),
            words <= i,
            words == word_count(s@.subrange(0, i as int)),
        decreases s.len() - i,
    {
        let ghost next = s@.subrange(0, i + 1);
        assert(next.drop_last() =~= s@.subrange(0, i as int));
        assert(next.last() == s@[i as int]);
        if i > 0 {
            assert(next[next.len() - 2] == s@[i - 1]);
        }
        if !is_whitespace(s[i]) && (i == 0 || is_whitespace(s[i - 1])) {
            words = words + 1;
        }
        i += 1;
    }
    assert(s@.subrange(0, s@.len() as int) =~= s@);
    let q = words / 3;
    let rem = words % 3;
    assert(words * 4 / 3 == q * 4 + rem * 4 / 3) by (nonlinear_arith)
        requires
            q == words / 3,
            rem == words % 3,
    ;
    if q > (usize::MAX - 2) / 4 {
        return usize::MAX;
    }
    q * 4 + rem * 4 / 3
}

/// A page wrapped in its page-boundary markers.
pub open spec fn tagged(number: int, content: Seq<char>) -> Seq<char> {
    "<physical_index_"@ + decimal(number as nat) + ">\n"@ + content + "\n<physical_index_"@
        + decimal(number as nat) + ">\n\n"@
}

impl Page {
    pub fn new(number: usize, content: String) -> (r: Page)
        ensures
            r.number == number,
            r.content@ == content@,
            r.token_count as int == token_estimate(content@),
    {
        let token_count = estimate_tokens(content.as_str());
        Page { number, content, token_count }
    }

    /// The page wrapped in `<physical_index_N>` markers, as it is shown to
    /// the reasoning service.
    pub fn with_index_tags(&self) -> (r: String)
        ensures
            r@ == tagged(self.number as int, self.content@),
    {
        let mut out: Vec<char> = Vec::new();
        self.push_tagged(&mut out);
        assert(out@ =~= tagged(self.number as int, self.content@));
        string_of(&out)
    }

    fn push_tagged(&self, out: &mut Vec<char>)
        ensures
            final(out)@ == old(out)@ + tagged(self.number as int, self.content@),
    {
        let a = chars_of("<physical_index_");
        push_all(out, &a);
        push_decimal(out, self.number);
        let b = chars_of(">\n");
        push_all(out, &b);
        let c = chars_of(self.content.as_str());
        push_all(out, &c);
        let d = chars_of("\n<physical_index_");
        push_all(out, &d);
        push_decimal(out, self.number);
        let e = chars_of(">\n\n");
        push_all(out, &e);
        assert(out@ =~= old(out)@ + tagged(self.number as int, self.content@));
    }
}

/// A document made of pages.
pub struct Document {
    /// Document name.
    pub name: String,
    /// Path the document was read from, if any.
    pub path: Option<String>,
    /// Pages, in order.
    pub pages: Vec<Page>,
}

/// Sum of the token estimates of `pages`.
pub open spec fn tokens_of(pages: Seq<Page>) -> int
    decreases pages.len(),
{
    if pages.len() == 0 {
        0
    } else {
        tokens_of(pages.drop_last()) + pages.last().token_count
    }
}

/// All pages wrapped in their markers, concatenated.
pub open spec fn tagged_all(pages: Seq<Page>) -> Seq<char>
    decreases pages.len(),
{
    if pages.len() == 0 {
        seq![]
    } else {
        tagged_all(pages.drop_last()) + tagged(pages.last().number as int, pages.last().content@)
    }
}

/// The pages numbered `start..=end`, each wrapped in its markers,
/// concatenated in document order.
pub open spec fn tagged_range(pages: Seq<Page>, start: int, end: int) -> Seq<char>
    decreases pages.len(),
{
    if pages.len() == 0 {
        seq![]
    } else {
        let p = pages.last();
        tagged_range(pages.drop_last(), start, end) + if start <= p.number && p.number <= end {
            tagged(p.number as int, p.content@)
        } else {
            seq![]
        }
    }
}

/// The page texts joined by blank lines.
pub open spec fn joined(pages: Seq<Page>) -> Seq<char>
    decreases pages.len(),
{
    if pages.len() == 0 {
        seq![]
    } else if pages.len() == 1 {
        pages[0].content@
    } else {
        joined(pages.drop_last()) + "\n\n"@ + pages.last().content@
    }
}

/// Pages numbered 1, 2, 3, ... in order.
pub open spec fn numbered_from_one(pages: Seq<Page>) -> bool {
    forall|i: int| 0 <= i < pages.len() ==> #[trigger] pages[i].number == i + 1
}

impl Document {
    pub fn new(name: &str, pages: Vec<Page>) -> (r: Document)
        ensures
            r.name@ == name@,
            r.path is None,
            r.pages@ == pages@,
    {
        Document { name: name.to_string(), path: None, pages }
    }

    /// A one-page document holding `content` as page 1.
    pub fn from_text(name: &str, content: String) -> (r: Document)
        ensures
            r.name@ == name@,
            r.path is None,
            r.pages@.len() == 1,
            r.pages@[0].number == 1,
            r.pages@[0].content@ == content@,
            r.pages@[0].token_count == token_estimate(content@),
            numbered_from_one(r.pages@),
    {
        let mut pages: Vec<Page> = Vec::new();
        pages.push(Page::new(1, content));
        Document { name: name.to_string(), path: None, pages }
    }

    pub fn page_count(&self) -> (r: usize)
        ensures
            r == self.pages@.len(),
    {
        self.pages.len()
    }

    /// Sum of the pages' token estimates.
    pub fn total_tokens(&self) -> (r: usize)
        requires
            tokens_of(self.pages@) <= usize::MAX,
        ensures
            r == tokens_of(self.pages@),
    {
        let mut total: usize = 0;
        let mut i: usize = 0;
        while i < self.pages.len()
            invariant
                i <= self.pages.len(),
                tokens_of(self.pages@) <= usize::MAX,
                total == tokens_of(self.pages@.subrange(0, i as int)),
            decreases self.pages.len() - i,
        {
            proof {
                lemma_tokens_prefix(self.pages@, i as int);
            }
            total = total + self.pages[i].token_count;
            i += 1;
        }
        assert(self.pages@.subrange(0, i as int) =~= self.pages@);
        total
    }

    /// The page at position `number` (1-indexed), if there is one.
    pub fn get_page(&self, number: usize) -> (r: Option<&Page>)
        ensures
            number == 0 || number > self.pages@.len() ==> r is None,
            1 <= number <= self.pages@.len() ==> r == Some(&self.pages@[number - 1]),
    {
        if number == 0 || number > self.pages.len() {
            None
        } else {
            Some(&self.pages[number - 1])
        }
    }

    /// All pages wrapped in their markers, concatenated.
    pub fn content_with_tags(&self) -> (r: String)
        ensures
            r@ == tagged_all(self.pages@),
    {
        let mut out: Vec<char> = Vec::new();
        let mut i: usize = 0;
        while i < self.pages.len()
            invariant
                i <= self.pages.len(),
                out@ == tagged_all(self.pages@.subrange(0, i as int)),
            decreases self.pages.len() - i,
        {
            self.pages[i].push_tagged(&mut out);
            assert(self.pages@.subrange(0, i + 1).drop_last() =~= self.pages@.subrange(0, i as int));
            i += 1;
        }
        assert(self.pages@.subrange(0, i as int) =~= self.pages@);
        string_of(&out)
    }

    /// The pages numbered `start..=end`, each wrapped in its markers.
    pub fn content_range(&self, start: usize, end: usize) -> (r: String)
        ensures
            r@ == tagged_range(self.pages@, start as int, end as int),
    {
        let out = self.content_range_chars(start, end);
        string_of(&out)
    }

    pub fn content_range_chars(&self, start: usize, end: usize) -> (r: Vec<char>)
        ensures
            r@ == tagged_range(self.pages@, start as int, end as int),
    {
        let mut out: Vec<char> = Vec::new();
        let mut i: usize = 0;
        while i < self.pages.len()
            invariant
                i <= self.pages.len(),
                out@ == tagged_range(self.pages@.subrange(0, i as int), start as int, end as int),
            decreases self.pages.len() - i,
        {
            let ghost before = out@;
            let p = &self.pages[i];
            if p.number >= start && p.number <= end {
                p.push_tagged(&mut out);
            }
            assert(self.pages@.subrange(0, i + 1).drop_last() =~= self.pages@.subrange(0, i as int));
            assert(out@ =~= tagged_range(self.pages@.subrange(0, i + 1), start as int, end as int));
            i += 1;
        }
        assert(self.pages@.subrange(0, i as int) =~= self.pages@);
        out
    }

    /// The page texts joined by blank lines, without markers.
    pub fn raw_content(&self) -> (r: String)
        ensures
            r@ == joined(self.pages@),
    {
        let mut out: Vec<char> = Vec::new();
        let sep = chars_of("\n\n");
        let mut i: usize = 0;
        while i < self.pages.len()
            invariant
                i <= self.pages.len(),
                sep@ == "\n\n"@,
                out@ == joined(self.pages@.subrange(0, i as int)),
            decreases self.pages.len() - i,
        {
            if i > 0 {
                push_all(&mut out, &sep);
            }
            let c = chars_of(self.pages[i].content.as_str());
            push_all(&mut out, &c);
            let ghost next = self.pages@.subrange(0, i + 1);
            assert(next.drop_last() =~= self.pages@.subrange(0, i as int));
            if i == 0 {
                assert(out@ =~= joined(next));
            }
            i += 1;
        }
        assert(self.pages@.subrange(0, i as int) =~= self.pages@);
        string_of(&out)
    }
}

proof fn lemma_tokens_prefix(pages: Seq<Page>, i: int)
    requires
        0 <= i < pages.len(),
    ensures
        tokens_of(pages.subrange(0, i + 1)) == tokens_of(pages.subrange(0, i)) + pages[i].token_count,
        tokens_of(pages.subrange(0, i + 1)) <= tokens_of(pages),
    decreases pages.len() - i,
{
    assert(pages.subrange(0, i + 1).drop_last() =~= pages.subrange(0, i));
    if i + 1 < pages.len() {
        lemma_tokens_prefix(pages, i + 1);
    } else {
        assert(pages.subrange(0, i + 1) =~= pages);
    }
}

/// The pieces of `s` between non-overlapping occurrences of the non-empty
/// pattern `p`, scanned left to right; `cur` is the piece read so far.
pub open spec fn split_from(s: Seq<char>, p: Seq<char>, cur: Seq<char>) -> Seq<Seq<char>>
    decreases s.len(),
{
    if p.len() > 0 && starts_with(s, p) {
        seq![cur] + split_from(s.subrange(p.len() as int, s.len() as int), p, seq![])
    } else if s.len() == 0 {
        seq![cur]
    } else {
        split_from(s.drop_first(), p, cur.push(s[0]))
    }
}

/// The pieces of `s` that `str::split` gives for the pattern `p`, up to
/// empty pieces: for an empty pattern, each character on its own.
pub open spec fn split_pieces(s: Seq<char>, p: Seq<char>) -> Seq<Seq<char>> {
    if p.len() == 0 {
        s.map_values(|c: char| seq![c])
    } else {
        split_from(s, p, seq![])
    }
}

/// The pieces that hold something besides whitespace, in order.
pub open spec fn non_blank(ps: Seq<Seq<char>>) -> Seq<Seq<char>>
    decreases ps.len(),
{
    if ps.len() == 0 {
        seq![]
    } else {
        non_blank(ps.drop_last()) + if trim(ps.last()).len() > 0 {
            seq![ps.last()]
        } else {
            seq![]
        }
    }
}

/// The pages of a text cut at each `delimiter`: the pieces that are not
/// blank, numbered 1, 2, 3, ... in order.
pub open spec fn delimited_pages(pages: Seq<Page>, content: Seq<char>, delimiter: Seq<char>) -> bool {
    let kept = non_blank(split_pieces(content, delimiter));
    &&& pages.len() == kept.len()
    &&& numbered_from_one(pages)
    &&& forall|i: int|
        0 <= i < pages.len() ==> {
            &&& (#[trigger] pages[i]).content@ == kept[i]
            &&& pages[i].token_count == token_estimate(kept[i])
        }
}

fn split_chars(s: &Vec<char>, p: &Vec<char>) -> (r: Vec<Vec<char>>)
    ensures
        r@.map_values(|v: Vec<char>| v@) == split_pieces(s@, p@),
{
    let mut out: Vec<Vec<char>> = Vec::new();
    if p.len() == 0 {
        let mut i: usize = 0;
        while i < s.len()
            invariant
                i <= s.len(),
                out@.map_values(|v: Vec<char>| v@) == s@.subrange(0, i as int).map_values(
                    |c: char| seq![c],
                ),
            decreases s.len() - i,
        {
            let mut one: Vec<char> = Vec::new();
            one.push(s[i]);
            assert(one@ =~= seq![s@[i as int]]);
            let ghost before = out@;
            out.push(one);
            assert(s@.subrange(0, i + 1) =~= s@.subrange(0, i as int).push(s@[i as int]));
            assert(out@.map_values(|v: Vec<char>| v@) =~= before.map_values(|v: Vec<char>| v@).push(
                seq![s@[i as int]],
            ));
            assert(s@.subrange(0, i + 1).map_values(|c: char| seq![c]) =~= s@.subrange(
                0,
                i as int,
            ).map_values(|c: char| seq![c]).push(seq![s@[i as int]]));
            i += 1;
        }
        assert(s@.subrange(0, i as int) =~= s@);
        return out;
    }
    let mut i: usize = 0;
    let mut cur_start: usize = 0;
    assert(s@.subrange(0, s@.len() as int) =~= s@);
    assert(s@.subrange(0, 0) =~= Seq::<char>::empty());
    while i < s.len()
        invariant
            cur_start <= i <= s.len(),
            p@.len() > 0,
            split_pieces(s@, p@) == out@.map_values(|v: Vec<char>| v@) + split_from(
                s@.subrange(i as int, s@.len() as int),
                p@,
                s@.subrange(cur_start as int, i as int),
            ),
        decreases s.len() - i,
    {
        let ghost rest = s@.subrange(i as int, s@.len() as int);
        let ghost cur = s@.subrange(cur_start as int, i as int);
        if matches_at(s, i, p) {
            let piece = slice_chars(s, cur_start, i);
            let ghost before = out@.map_values(|v: Vec<char>| v@);
            out.push(piece);
            assert(out@.map_values(|v: Vec<char>| v@) =~= before.push(cur));
            assert(rest.subrange(p@.len() as int, rest.len() as int) =~= s@.subrange(
                i + p@.len(),
                s@.len() as int,
            ));
            i = i + p.len();
            cur_start = i;
            assert(s@.subrange(cur_start as int, i as int) =~= Seq::<char>::empty());
            assert(before.push(cur) + split_from(s@.subrange(i as int, s@.len() as int), p@, seq![])
                =~= before + (seq![cur] + split_from(
                s@.subrange(i as int, s@.len() as int),
                p@,
                seq![],
            )));
        } else {
            assert(rest.drop_first() =~= s@.subrange(i + 1, s@.len() as int));
            assert(rest[0] == s@[i as int]);
            assert(cur.push(s@[i as int]) =~= s@.subrange(cur_start as int, i + 1));
            i += 1;
        }
    }
    let ghost before = out@.map_values(|v: Vec<char>| v@);
    let ghost cur = s@.subrange(cur_start as int, i as int);
    assert(s@.subrange(i as int, s@.len() as int) =~= Seq::<char>::empty());
    assert(!starts_with(Seq::<char>::empty(), p@));
    let piece = slice_chars(s, cur_start, i);
    out.push(piece);
    assert(out@.map_values(|v: Vec<char>| v@) =~= before + seq![cur]);
    out
}

/// Cuts `content` at each `delimiter` and makes a page of every piece that
/// is not blank, numbering the pages from 1.
pub fn split_pages(content: &str, delimiter: &str) -> (r: Vec<Page>)
    ensures
        delimited_pages(r@, content@, delimiter@),
{
    let s = chars_of(content);
    let p = chars_of(delimiter);
    let pieces = split_chars(&s, &p);
    let ghost ps = pieces@.map_values(|v: Vec<char>| v@);
    let mut pages: Vec<Page> = Vec::new();
    let mut k: usize = 0;
    while k < pieces.len()
        invariant
            k <= pieces.len(),
            ps == pieces@.map_values(|v: Vec<char>| v@),
            pages@.len() == non_blank(ps.subrange(0, k as int)).len(),
            pages@.len() <= k,
            numbered_from_one(pages@),
            forall|i: int|
                0 <= i < pages@.len() ==> {
                    &&& (#[trigger] pages@[i]).content@ == non_blank(ps.subrange(0, k as int))[i]
                    &&& pages@[i].token_count == token_estimate(
                        non_blank(ps.subrange(0, k as int))[i],
                    )
                },
        decreases pieces.len() - k,
    {
        let ghost prev = ps.subrange(0, k as int);
        let ghost next = ps.subrange(0, k + 1);
        assert(next.drop_last() =~= prev);
        assert(next.last() == pieces@[k as int]@);
        let (lo, hi) = trim_bounds(&pieces[k], 0, pieces[k].len());
        assert(pieces@[k as int]@.subrange(0, pieces@[k as int]@.len() as int) =~= pieces@[k as int]@);
        if lo < hi {
            let text = string_of(&pieces[k]);
            let n = pages.len() + 1;
            pages.push(Page::new(n, text));
            assert(non_blank(next) =~= non_blank(prev).push(pieces@[k as int]@));
        } else {
            assert(non_blank(next) =~= non_blank(prev));
        }
        k += 1;
    }
    assert(ps.subrange(0, k as int) =~= ps);
    pages
}

} // verus!

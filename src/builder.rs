//! Turns the flat, ordered list of section descriptors that the reasoning
//! service returns into a tree of closed page ranges.
use vstd::prelude::*;
use crate::text::{
    all_digits, chars_of, decimal, decimal_value, digit_char, digit_value, is_digit, matches_at,
    parse_usize, parse_usize_at, starts_with,
};
use crate::tree::{
    count, count_all, lemma_sections_index, lemma_sections_push, opt_view, section_of, sections_of,
    spans_ok, Section, TreeNode,
};

verus! {

/// A page reference as the service gives it: a bare number, or text such as
/// `"<physical_index_7>"` or `"7"`.
pub enum PageRef {
    Number(usize),
    Text(String),
}

/// One section descriptor, before it is placed in the tree.
pub struct RawTocItem {
    /// Structure code such as "1.2.3".
    pub structure: Option<String>,
    /// Section title.
    pub title: String,
    /// Page on which the section starts.
    pub physical_index: Option<PageRef>,
}

pub open spec fn marker_prefix() -> Seq<char> {
    "<physical_index_"@
}

/// `s` with every leading copy of `p` removed, as `str::trim_start_matches`.
pub open spec fn strip_prefixes(s: Seq<char>, p: Seq<char>) -> Seq<char>
    decreases s.len(),
{
    if p.len() > 0 && starts_with(s, p) {
        strip_prefixes(s.subrange(p.len() as int, s.len() as int), p)
    } else {
        s
    }
}

/// `s` with every trailing `c` removed, as `str::trim_end_matches`.
pub open spec fn strip_trailing(s: Seq<char>, c: char) -> Seq<char>
    decreases s.len(),
{
    if s.len() > 0 && s.last() == c {
        strip_trailing(s.drop_last(), c)
    } else {
        s
    }
}

/// The page that a textual reference names: the number inside a page
/// marker, or the text read as a number.
pub open spec fn text_page(s: Seq<char>) -> Option<int> {
    if starts_with(s, marker_prefix()) {
        parse_usize(strip_trailing(strip_prefixes(s, marker_prefix()), '>'))
    } else {
        parse_usize(s)
    }
}

pub open spec fn page_number(r: Option<PageRef>) -> Option<int> {
    match r {
        Some(PageRef::Number(n)) => Some(n as int),
        Some(PageRef::Text(t)) => text_page(t@),
        None => None,
    }
}

pub open spec fn opt_int(o: Option<usize>) -> Option<int> {
    match o {
        Some(v) => Some(v as int),
        None => None,
    }
}

impl RawTocItem {
    /// The page that `physical_index` names, if it names one.
    pub fn get_page_number(&self) -> (r: Option<usize>)
        ensures
            opt_int(r) == page_number(self.physical_index),
    {
        match &self.physical_index {
            Some(PageRef::Number(n)) => Some(*n),
            Some(PageRef::Text(t)) => {
                let s = chars_of(t.as_str());
                text_page_of(&s)
            },
            None => None,
        }
    }
}

fn text_page_of(s: &Vec<char>) -> (r: Option<usize>)
    ensures
        opt_int(r) == text_page(s@),
{
    let p = chars_of("<physical_index_");
    proof {
        reveal_strlit("<physical_index_");
    }
    assert(s@.subrange(0, s@.len() as int) =~= s@);
    if !matches_at(s, 0, &p) {
        return parse_usize_at(s, 0, s.len());
    }
    let mut at: usize = 0;
    while matches_at(s, at, &p)
        invariant
            at <= s.len(),
            p@ == marker_prefix(),
            p@.len() > 0,
            strip_prefixes(s@, p@) == strip_prefixes(s@.subrange(at as int, s@.len() as int), p@),
        decreases s.len() - at,
    {
        let ghost rest = s@.subrange(at as int, s@.len() as int);
        assert(rest.subrange(p@.len() as int, rest.len() as int) =~= s@.subrange(
            at + p@.len(),
            s@.len() as int,
        ));
        at = at + p.len();
    }
    let mut hi: usize = s.len();
    while hi > at && s[hi - 1] == '>'
        invariant
            at <= hi <= s.len(),
            strip_trailing(s@.subrange(at as int, s@.len() as int), '>') == strip_trailing(
                s@.subrange(at as int, hi as int),
                '>',
            ),
        decreases hi,
    {
        assert(s@.subrange(at as int, hi as int).drop_last() =~= s@.subrange(at as int, hi - 1));
        hi -= 1;
    }
    proof {
        let u = s@.subrange(at as int, hi as int);
        if u.len() > 0 {
            assert(u.last() == s@[hi - 1]);
        }
        assert(strip_trailing(u, '>') == u);
    }
    parse_usize_at(s, at, hi)
}

/// The code split at each '.', empty pieces included.
pub open spec fn segments(s: Seq<char>) -> Seq<Seq<char>>
    decreases s.len(),
{
    if s.len() == 0 {
        seq![seq![]]
    } else {
        let p = segments(s.drop_last());
        if s.last() == '.' {
            p.push(seq![])
        } else {
            p.update(p.len() - 1, p.last().push(s.last()))
        }
    }
}

/// How many of the pieces read as numbers.
pub open spec fn count_numeric(segs: Seq<Seq<char>>) -> nat
    decreases segs.len(),
{
    if segs.len() == 0 {
        0
    } else {
        count_numeric(segs.drop_last()) + if parse_usize(segs.last()) is Some {
            1nat
        } else {
            0nat
        }
    }
}

/// Depth of a structure code: the number of its numeric parts.
pub open spec fn structure_depth(s: Seq<char>) -> nat {
    count_numeric(segments(s))
}

/// Depth of a structure code such as "1.2.3" (here 3).
pub fn structure_depth_of(code: &str) -> (r: usize)
    ensures
        r == structure_depth(code@),
{
    let s = chars_of(code);
    let mut count: usize = 0;
    let mut seg_start: usize = 0;
    let mut i: usize = 0;
    proof {
        assert(s@.subrange(0, 0) =~= Seq::<char>::empty());
    }
    while i < s.len()
        invariant
            seg_start <= i <= s.len(),
            2 * count <= seg_start,
            segments(s@.subrange(0, i as int)).len() >= 1,
            segments(s@.subrange(0, i as int)).last() == s@.subrange(seg_start as int, i as int),
            count == count_numeric(segments(s@.subrange(0, i as int)).drop_last()),
        decreases s.len() - i,
    {
        let ghost pre = s@.subrange(0, i as int);
        let ghost segs = segments(pre);
        let ghost next = s@.subrange(0, i + 1);
        assert(next.drop_last() =~= pre);
        assert(next.last() == s@[i as int]);
        if s[i] == '.' {
            let v = parse_usize_at(&s, seg_start, i);
            assert(segments(next) == segs.push(seq![]));
            assert(segments(next).drop_last() =~= segs);
            assert(segs.drop_last() =~= segs.subrange(0, segs.len() - 1));
            if v.is_some() {
                count = count + 1;
            }
            seg_start = i + 1;
            assert(s@.subrange(seg_start as int, i + 1) =~= Seq::<char>::empty());
        } else {
            assert(segments(next) == segs.update(segs.len() - 1, segs.last().push(s@[i as int])));
            assert(segments(next).drop_last() =~= segs.drop_last());
            assert(s@.subrange(seg_start as int, i + 1) =~= s@.subrange(seg_start as int, i as int).push(
                s@[i as int],
            ));
        }
        i += 1;
    }
    assert(s@.subrange(0, s@.len() as int) =~= s@);
    let last = parse_usize_at(&s, seg_start, s.len());
    proof {
        let segs = segments(s@);
        assert(segs.drop_last() =~= segs.subrange(0, segs.len() - 1));
    }
    if last.is_some() {
        count + 1
    } else {
        count
    }
}

/// Depth at which a descriptor is placed; one without a code is a root.
pub open spec fn item_depth(item: RawTocItem) -> int {
    match item.structure {
        Some(s) => structure_depth(s@) as int,
        None => 1,
    }
}

/// The page a descriptor starts on; 1 when its reference names none.
pub open spec fn resolved_page(items: Seq<RawTocItem>, i: int) -> int {
    match page_number(items[i].physical_index) {
        Some(p) => p,
        None => 1,
    }
}

/// The last page of descriptor `i`: the page before the next descriptor's
/// start (the document's last page for the last one), never before its own
/// start.
pub open spec fn end_page(items: Seq<RawTocItem>, i: int, total_pages: int) -> int {
    let candidate = if i + 1 < items.len() {
        resolved_page(items, i + 1) - 1
    } else {
        total_pages
    };
    if candidate < resolved_page(items, i) {
        resolved_page(items, i)
    } else {
        candidate
    }
}

/// The section for descriptor `i`, before it has children.
pub open spec fn leaf_section(items: Seq<RawTocItem>, i: int, total_pages: int) -> Section {
    Section {
        title: items[i].title@,
        structure: opt_view(items[i].structure),
        start: resolved_page(items, i),
        end: end_page(items, i, total_pages),
        children: seq![],
        summary: None,
        node_id: None,
    }
}

/// `p` with `node` added as the last child of the node `r - 1` levels down
/// its chain of last children, or higher where that chain ends.
pub open spec fn attach(p: Section, node: Section, r: int) -> Section
    decreases r,
{
    if r <= 1 || p.children.len() == 0 {
        Section { children: p.children.push(node), ..p }
    } else {
        Section {
            children: p.children.update(
                p.children.len() - 1,
                attach(p.children.last(), node, r - 1),
            ),
            ..p
        }
    }
}

/// The forest after `node`, of depth `d`, arrives: a new root at depth 1
/// (or when there is no root yet), else attached below the last root.
pub open spec fn place(forest: Seq<Section>, node: Section, d: int) -> Seq<Section> {
    if d <= 1 || forest.len() == 0 {
        forest.push(node)
    } else {
        forest.update(forest.len() - 1, attach(forest.last(), node, d - 1))
    }
}

/// The forest after the first `k` descriptors have been placed.
pub open spec fn placed(items: Seq<RawTocItem>, k: int, total_pages: int) -> Seq<Section>
    decreases k,
{
    if k <= 0 {
        seq![]
    } else {
        place(
            placed(items, k - 1, total_pages),
            leaf_section(items, k - 1, total_pages),
            item_depth(items[k - 1]),
        )
    }
}

/// Largest end page among `cs`, and `e`.
pub open spec fn max_end(cs: Seq<Section>, e: int) -> int
    decreases cs.len(),
{
    if cs.len() == 0 {
        e
    } else {
        let m = max_end(cs.drop_last(), e);
        if cs.last().end > m {
            cs.last().end
        } else {
            m
        }
    }
}

/// `s` with every section widened, bottom-up, to end no earlier than its
/// children.
pub open spec fn widened(s: Section) -> Section
    decreases s,
{
    let cs = widened_all(s.children);
    Section { children: cs, end: max_end(cs, s.end), ..s }
}

pub open spec fn widened_all(cs: Seq<Section>) -> Seq<Section>
    decreases cs,
{
    if cs.len() == 0 {
        seq![]
    } else {
        widened_all(cs.drop_last()).push(widened(cs.last()))
    }
}

/// The tree that the builder produces from `items`.
pub open spec fn build(items: Seq<RawTocItem>, total_pages: int) -> Seq<Section> {
    widened_all(placed(items, items.len() as int, total_pages))
}

proof fn lemma_sections_pop(s: Seq<TreeNode>)
    requires
        s.len() > 0,
    ensures
        sections_of(s) == sections_of(s.drop_last()).push(section_of(s.last())),
{
}

/// Adds `node` below `parent` at relative depth `depth`: directly for
/// depth 1, else below the last child, down to where the chain of last
/// children ends.
pub fn add_to_tree(parent: &mut TreeNode, depth: usize, node: TreeNode)
    ensures
        final(parent)@ == attach(old(parent)@, node@, depth as int),
    decreases depth,
{
    proof {
        lemma_sections_index(parent.nodes@);
    }
    if depth <= 1 || parent.nodes.len() == 0 {
        proof {
            lemma_sections_push(parent.nodes@, node);
        }
        parent.nodes.push(node);
    } else {
        let ghost before = parent.nodes@;
        let mut last = parent.nodes.pop().unwrap();
        proof {
            lemma_sections_pop(before);
            assert(before.drop_last() =~= parent.nodes@);
        }
        add_to_tree(&mut last, depth - 1, node);
        proof {
            lemma_sections_push(parent.nodes@, last);
            assert(sections_of(before).drop_last() =~= sections_of(parent.nodes@));
            assert(sections_of(parent.nodes@).push(section_of(last)) =~= sections_of(before).update(
                sections_of(before).len() - 1,
                section_of(last),
            ));
        }
        parent.nodes.push(last);
    }
}

/// The node widened so that it ends no earlier than any of its children,
/// which are widened first.
fn widen_node(node: TreeNode) -> (r: TreeNode)
    ensures
        r@ == widened(node@),
    decreases node,
{
    let ghost orig = node;
    let TreeNode { title, structure, start_index, end_index, nodes, summary, node_id } = node;
    let children = widen_all(nodes);
    let ghost cs = sections_of(children@);
    proof {
        lemma_sections_index(children@);
    }
    let mut end = end_index;
    let mut i: usize = 0;
    while i < children.len()
        invariant
            cs == sections_of(children@),
            cs.len() == children@.len(),
            forall|k: int| 0 <= k < cs.len() ==> #[trigger] cs[k] == section_of(children@[k]),
            i <= children.len(),
            end as int == max_end(cs.subrange(0, i as int), end_index as int),
        decreases children.len() - i,
    {
        assert(cs.subrange(0, i + 1).drop_last() =~= cs.subrange(0, i as int));
        if children[i].end_index > end {
            end = children[i].end_index;
        }
        i += 1;
    }
    assert(cs.subrange(0, i as int) =~= cs);
    TreeNode { title, structure, start_index, end_index: end, nodes: children, summary, node_id }
}

/// Each node widened, in order.
fn widen_all(nodes: Vec<TreeNode>) -> (r: Vec<TreeNode>)
    ensures
        sections_of(r@) == widened_all(sections_of(nodes@)),
    decreases nodes,
{
    let ghost orig = nodes;
    let ghost cs = sections_of(nodes@);
    proof {
        lemma_sections_index(nodes@);
    }
    let mut rest = nodes;
    let _n: usize = rest.len();
    let mut out: Vec<TreeNode> = Vec::new();
    let mut i: usize = 0;
    while rest.len() > 0
        invariant
            orig == nodes,
            orig@.len() <= usize::MAX,
            cs == sections_of(orig@),
            cs.len() == orig@.len(),
            forall|k: int| 0 <= k < cs.len() ==> #[trigger] cs[k] == section_of(orig@[k]),
            i + rest@.len() == orig@.len(),
            rest@ == orig@.subrange(i as int, orig@.len() as int),
            sections_of(out@) == widened_all(cs.subrange(0, i as int)),
        decreases rest.len(),
    {
        assert(rest@[0] == orig@[i as int]);
        let child = rest.remove(0);
        proof {
            assert(child == orig@[i as int]);
            assert(decreases_to!(orig => orig[i as int]));
        }
        let w = widen_node(child);
        proof {
            lemma_sections_push(out@, w);
            assert(cs.subrange(0, i + 1).drop_last() =~= cs.subrange(0, i as int));
            assert(rest@ =~= orig@.subrange(i + 1, orig@.len() as int));
        }
        out.push(w);
        i += 1;
    }
    assert(cs.subrange(0, i as int) =~= cs);
    out
}

/// Widens `node` and, first, all of its descendants, so that every node
/// ends no earlier than its children.
pub fn fix_end_indices(node: &mut TreeNode)
    ensures
        final(node)@ == widened(old(node)@),
{
    let mut taken = TreeNode {
        title: String::new(),
        structure: None,
        start_index: 0,
        end_index: 0,
        nodes: Vec::new(),
        summary: None,
        node_id: None,
    };
    std::mem::swap(node, &mut taken);
    let w = widen_node(taken);
    *node = w;
}

fn resolve_page(item: &RawTocItem) -> (r: usize)
    ensures
        r as int == match page_number(item.physical_index) {
            Some(p) => p,
            None => 1,
        },
{
    match item.get_page_number() {
        Some(p) => p,
        None => 1,
    }
}

fn copy_text(o: &Option<String>) -> (r: Option<String>)
    ensures
        opt_view(r) == opt_view(*o),
{
    match o {
        Some(s) => Some(s.clone()),
        None => None,
    }
}

fn item_depth_of(item: &RawTocItem) -> (r: usize)
    ensures
        r as int == item_depth(*item),
{
    match &item.structure {
        Some(code) => structure_depth_of(code.as_str()),
        None => 1,
    }
}

/// Builds the section tree from descriptors in document order: each node
/// runs from its own start page to the page before the next descriptor's
/// (the last to `total_pages`), is placed by the depth of its structure
/// code, and parents are then widened to span their children.
pub fn build_tree_from_toc(items: &Vec<RawTocItem>, total_pages: usize) -> (r: Vec<TreeNode>)
    ensures
        sections_of(r@) == build(items@, total_pages as int),
{
    let mut nodes: Vec<TreeNode> = Vec::new();
    let mut i: usize = 0;
    while i < items.len()
        invariant
            i <= items.len(),
            sections_of(nodes@) == placed(items@, i as int, total_pages as int),
        decreases items.len() - i,
    {
        let start = resolve_page(&items[i]);
        let end = if i + 1 < items.len() {
            let next = resolve_page(&items[i + 1]);
            if next == 0 || next - 1 < start {
                start
            } else {
                next - 1
            }
        } else if total_pages < start {
            start
        } else {
            total_pages
        };
        let mut node = TreeNode::new(items[i].title.as_str(), start, end);
        node.structure = copy_text(&items[i].structure);
        assert(node@ == leaf_section(items@, i as int, total_pages as int));
        let d = item_depth_of(&items[i]);
        let ghost before = nodes@;
        proof {
            lemma_sections_index(nodes@);
        }
        if d <= 1 || nodes.len() == 0 {
            proof {
                lemma_sections_push(nodes@, node);
            }
            nodes.push(node);
        } else {
            let mut last = nodes.pop().unwrap();
            proof {
                lemma_sections_pop(before);
                assert(before.drop_last() =~= nodes@);
            }
            add_to_tree(&mut last, d - 1, node);
            proof {
                lemma_sections_push(nodes@, last);
                assert(sections_of(nodes@).push(section_of(last)) =~= sections_of(before).update(
                    sections_of(before).len() - 1,
                    section_of(last),
                ));
            }
            nodes.push(last);
        }
        i += 1;
    }
    widen_all(nodes)
}

/// Every section has `start <= end`, all the way down.
pub open spec fn starts_ok(s: Section) -> bool
    decreases s,
{
    &&& s.start <= s.end
    &&& forall|i: int| 0 <= i < s.children.len() ==> starts_ok(#[trigger] s.children[i])
}

proof fn lemma_attach_starts_ok(p: Section, node: Section, r: int)
    requires
        starts_ok(p),
        starts_ok(node),
    ensures
        starts_ok(attach(p, node, r)),
    decreases r,
{
    let a = attach(p, node, r);
    if r <= 1 || p.children.len() == 0 {
        assert forall|i: int| 0 <= i < a.children.len() implies starts_ok(#[trigger] a.children[i]) by {
            if i < p.children.len() {
                assert(a.children[i] == p.children[i]);
            }
        }
    } else {
        let last = p.children.len() - 1;
        lemma_attach_starts_ok(p.children.last(), node, r - 1);
        assert forall|i: int| 0 <= i < a.children.len() implies starts_ok(#[trigger] a.children[i]) by {
            if i < last {
                assert(a.children[i] == p.children[i]);
            }
        }
    }
}

proof fn lemma_placed_starts_ok(items: Seq<RawTocItem>, k: int, total_pages: int)
    requires
        0 <= k <= items.len(),
    ensures
        forall|i: int|
            0 <= i < placed(items, k, total_pages).len() ==> starts_ok(
                #[trigger] placed(items, k, total_pages)[i],
            ),
    decreases k,
{
    if k > 0 {
        lemma_placed_starts_ok(items, k - 1, total_pages);
        let f = placed(items, k - 1, total_pages);
        let leaf = leaf_section(items, k - 1, total_pages);
        assert(starts_ok(leaf));
        let g = placed(items, k, total_pages);
        let d = item_depth(items[k - 1]);
        if d <= 1 || f.len() == 0 {
            assert forall|i: int| 0 <= i < g.len() implies starts_ok(#[trigger] g[i]) by {
                if i < f.len() {
                    assert(g[i] == f[i]);
                }
            }
        } else {
            lemma_attach_starts_ok(f.last(), leaf, d - 1);
            assert forall|i: int| 0 <= i < g.len() implies starts_ok(#[trigger] g[i]) by {
                if i < f.len() - 1 {
                    assert(g[i] == f[i]);
                }
            }
        }
    }
}

proof fn lemma_max_end_bounds(cs: Seq<Section>, e: int)
    ensures
        max_end(cs, e) >= e,
        forall|i: int| 0 <= i < cs.len() ==> #[trigger] cs[i].end <= max_end(cs, e),
    decreases cs.len(),
{
    if cs.len() > 0 {
        lemma_max_end_bounds(cs.drop_last(), e);
        assert forall|i: int| 0 <= i < cs.len() implies #[trigger] cs[i].end <= max_end(cs, e) by {
            if i < cs.len() - 1 {
                assert(cs[i] == cs.drop_last()[i]);
            }
        }
    }
}

proof fn lemma_widened_all_index(cs: Seq<Section>)
    ensures
        widened_all(cs).len() == cs.len(),
        forall|i: int| 0 <= i < cs.len() ==> #[trigger] widened_all(cs)[i] == widened(cs[i]),
    decreases cs.len(),
{
    if cs.len() > 0 {
        lemma_widened_all_index(cs.drop_last());
    }
}

proof fn lemma_widened_spans(s: Section)
    requires
        starts_ok(s),
    ensures
        spans_ok(widened(s)),
        widened(s).start == s.start,
    decreases s,
{
    let cs = widened_all(s.children);
    lemma_widened_all_index(s.children);
    lemma_max_end_bounds(cs, s.end);
    let w = widened(s);
    assert forall|i: int| 0 <= i < w.children.len() implies #[trigger] w.children[i].end <= w.end
        && spans_ok(w.children[i]) by {
        assert(starts_ok(s.children[i]));
        lemma_widened_spans(s.children[i]);
    }
}

/// Every section that the builder produces starts no later than it ends,
/// and every parent ends no earlier than any of its children.
pub proof fn lemma_build_spans(items: Seq<RawTocItem>, total_pages: int)
    ensures
        forall|i: int|
            0 <= i < build(items, total_pages).len() ==> spans_ok(
                #[trigger] build(items, total_pages)[i],
            ),
{
    let f = placed(items, items.len() as int, total_pages);
    lemma_placed_starts_ok(items, items.len() as int, total_pages);
    lemma_widened_all_index(f);
    assert forall|i: int| 0 <= i < build(items, total_pages).len() implies spans_ok(
        #[trigger] build(items, total_pages)[i],
    ) by {
        lemma_widened_spans(f[i]);
    }
}

/// Two descriptor lists with the same titles, codes and pages.
pub open spec fn same_descriptors(a: Seq<RawTocItem>, b: Seq<RawTocItem>) -> bool {
    &&& a.len() == b.len()
    &&& forall|i: int|
        0 <= i < a.len() ==> {
            &&& #[trigger] a[i].title@ == b[i].title@
            &&& opt_view(a[i].structure) == opt_view(b[i].structure)
            &&& page_number(a[i].physical_index) == page_number(b[i].physical_index)
        }
}

proof fn lemma_placed_same(a: Seq<RawTocItem>, b: Seq<RawTocItem>, k: int, total_pages: int)
    requires
        same_descriptors(a, b),
        0 <= k <= a.len(),
    ensures
        placed(a, k, total_pages) == placed(b, k, total_pages),
    decreases k,
{
    if k > 0 {
        lemma_placed_same(a, b, k - 1, total_pages);
        assert(a[k - 1].title@ == b[k - 1].title@);
        if k < a.len() {
            assert(a[k].title@ == b[k].title@);
        }
        assert(leaf_section(a, k - 1, total_pages) == leaf_section(b, k - 1, total_pages));
        assert(item_depth(a[k - 1]) == item_depth(b[k - 1]));
    }
}

/// Building twice from the same descriptors and page count gives the same
/// tree: the result depends on nothing but the descriptors' titles, codes
/// and pages.
pub proof fn lemma_build_deterministic(a: Seq<RawTocItem>, b: Seq<RawTocItem>, total_pages: int)
    requires
        same_descriptors(a, b),
    ensures
        build(a, total_pages) == build(b, total_pages),
{
    lemma_placed_same(a, b, a.len() as int, total_pages);
}

proof fn lemma_decimal_digits(n: nat)
    ensures
        decimal(n).len() >= 1,
        all_digits(decimal(n)),
        decimal_value(decimal(n)) == n,
    decreases n,
{
    if n >= 10 {
        lemma_decimal_digits(n / 10);
        let d = decimal(n);
        assert(d.drop_last() =~= decimal(n / 10));
        assert(is_digit(digit_char((n % 10) as int)));
        assert forall|k: int| 0 <= k < d.len() implies is_digit(#[trigger] d[k]) by {
            if k < d.len() - 1 {
                assert(d[k] == decimal(n / 10)[k]);
            }
        }
        assert(digit_value(d.last()) == n % 10);
        assert((n / 10) * 10 + n % 10 == n) by (nonlinear_arith);
        assert(decimal_value(d) == decimal_value(decimal(n / 10)) * 10 + digit_value(d.last()));
    } else {
        let d = decimal(n);
        assert(is_digit(d[0]));
        assert(d.drop_last() =~= Seq::<char>::empty());
        assert(digit_value(d.last()) == n);
        assert(decimal_value(d) == decimal_value(d.drop_last()) * 10 + digit_value(d.last()));
    }
}

/// A page given as the number `n` and one given as the marker text
/// `<physical_index_n>` name the same page, `n`.
pub proof fn lemma_page_ref_forms_agree(n: usize, t: String)
    requires
        t@ == "<physical_index_"@ + decimal(n as nat) + ">"@,
    ensures
        page_number(Some(PageRef::Text(t))) == Some(n as int),
        page_number(Some(PageRef::Number(n))) == Some(n as int),
{
    reveal_strlit("<physical_index_");
    reveal_strlit(">");
    let p = marker_prefix();
    let d = decimal(n as nat);
    let s = t@;
    lemma_decimal_digits(n as nat);
    assert(s.subrange(0, p.len() as int) =~= p);
    let rest = s.subrange(p.len() as int, s.len() as int);
    assert(rest =~= d + seq!['>']);
    assert(is_digit(rest[0]));
    assert(!starts_with(rest, p)) by {
        if starts_with(rest, p) {
            assert(rest.subrange(0, p.len() as int)[0] == p[0]);
        }
    }
    assert(strip_prefixes(rest, p) == rest);
    assert(starts_with(s, p));
    assert(strip_prefixes(s, p) == strip_prefixes(rest, p));
    assert(rest.drop_last() =~= d);
    assert(is_digit(d.last()));
    assert(strip_trailing(d, '>') == d);
    assert(strip_trailing(rest, '>') == d);
    assert(is_digit(d[0]));
}

proof fn lemma_count_all_push(cs: Seq<Section>, x: Section)
    ensures
        count_all(cs.push(x)) == count_all(cs) + count(x),
{
    assert(cs.push(x).drop_last() =~= cs);
}

proof fn lemma_count_all_update_last(cs: Seq<Section>, y: Section)
    requires
        cs.len() > 0,
    ensures
        count_all(cs.update(cs.len() - 1, y)) == count_all(cs) - count(cs.last()) + count(y),
{
    assert(cs.update(cs.len() - 1, y).drop_last() =~= cs.drop_last());
}

proof fn lemma_attach_count(p: Section, node: Section, r: int)
    ensures
        count(attach(p, node, r)) == count(p) + count(node),
    decreases r,
{
    if r <= 1 || p.children.len() == 0 {
        lemma_count_all_push(p.children, node);
    } else {
        lemma_attach_count(p.children.last(), node, r - 1);
        lemma_count_all_update_last(p.children, attach(p.children.last(), node, r - 1));
    }
}

proof fn lemma_placed_count(items: Seq<RawTocItem>, k: int, total_pages: int)
    requires
        0 <= k <= items.len(),
    ensures
        count_all(placed(items, k, total_pages)) == k,
    decreases k,
{
    if k > 0 {
        lemma_placed_count(items, k - 1, total_pages);
        let f = placed(items, k - 1, total_pages);
        let leaf = leaf_section(items, k - 1, total_pages);
        assert(count(leaf) == 1);
        let d = item_depth(items[k - 1]);
        if d <= 1 || f.len() == 0 {
            lemma_count_all_push(f, leaf);
        } else {
            lemma_attach_count(f.last(), leaf, d - 1);
            lemma_count_all_update_last(f, attach(f.last(), leaf, d - 1));
        }
    }
}

proof fn lemma_widened_count(s: Section)
    ensures
        count(widened(s)) == count(s),
    decreases s,
{
    lemma_widened_all_count(s.children);
}

proof fn lemma_widened_all_count(cs: Seq<Section>)
    ensures
        count_all(widened_all(cs)) == count_all(cs),
    decreases cs,
{
    if cs.len() > 0 {
        lemma_widened_all_count(cs.drop_last());
        lemma_widened_count(cs.last());
        lemma_count_all_push(widened_all(cs.drop_last()), widened(cs.last()));
    }
}

/// Every descriptor becomes exactly one node of the built tree.
pub proof fn lemma_build_node_count(items: Seq<RawTocItem>, total_pages: int)
    ensures
        count_all(build(items, total_pages)) == items.len(),
{
    lemma_placed_count(items, items.len() as int, total_pages);
    lemma_widened_all_count(placed(items, items.len() as int, total_pages));
}

/// Titles of a subtree in pre-order.
pub open spec fn preorder_titles(s: Section) -> Seq<Seq<char>>
    decreases s,
{
    seq![s.title] + preorder_titles_all(s.children)
}

pub open spec fn preorder_titles_all(cs: Seq<Section>) -> Seq<Seq<char>>
    decreases cs,
{
    if cs.len() == 0 {
        seq![]
    } else {
        preorder_titles_all(cs.drop_last()) + preorder_titles(cs.last())
    }
}

proof fn lemma_titles_all_push(cs: Seq<Section>, x: Section)
    ensures
        preorder_titles_all(cs.push(x)) == preorder_titles_all(cs) + preorder_titles(x),
{
    assert(cs.push(x).drop_last() =~= cs);
}

proof fn lemma_titles_all_update_last(cs: Seq<Section>, y: Section, t: Seq<char>)
    requires
        cs.len() > 0,
        preorder_titles(y) == preorder_titles(cs.last()).push(t),
    ensures
        preorder_titles_all(cs.update(cs.len() - 1, y)) == preorder_titles_all(cs).push(t),
{
    let u = cs.update(cs.len() - 1, y);
    assert(u.drop_last() =~= cs.drop_last());
    assert(preorder_titles_all(cs.drop_last()) + preorder_titles(cs.last()).push(t) =~= (
    preorder_titles_all(cs.drop_last()) + preorder_titles(cs.last())).push(t));
}

proof fn lemma_attach_titles(p: Section, leaf: Section, r: int)
    requires
        leaf.children.len() == 0,
    ensures
        preorder_titles(attach(p, leaf, r)) == preorder_titles(p).push(leaf.title),
    decreases r,
{
    assert(preorder_titles(leaf) =~= seq![leaf.title]) by {
        assert(preorder_titles_all(leaf.children) =~= Seq::<Seq<char>>::empty());
    }
    if r <= 1 || p.children.len() == 0 {
        lemma_titles_all_push(p.children, leaf);
        assert(seq![p.title] + (preorder_titles_all(p.children) + seq![leaf.title]) =~= (seq![
            p.title,
        ] + preorder_titles_all(p.children)).push(leaf.title));
    } else {
        lemma_attach_titles(p.children.last(), leaf, r - 1);
        lemma_titles_all_update_last(
            p.children,
            attach(p.children.last(), leaf, r - 1),
            leaf.title,
        );
        assert(seq![p.title] + preorder_titles_all(p.children).push(leaf.title) =~= (seq![
            p.title,
        ] + preorder_titles_all(p.children)).push(leaf.title));
    }
}

/// Titles of the first `k` descriptors, in order.
pub open spec fn descriptor_titles(items: Seq<RawTocItem>, k: int) -> Seq<Seq<char>>
    decreases k,
{
    if k <= 0 {
        seq![]
    } else {
        descriptor_titles(items, k - 1).push(items[k - 1].title@)
    }
}

proof fn lemma_placed_titles(items: Seq<RawTocItem>, k: int, total_pages: int)
    requires
        0 <= k <= items.len(),
    ensures
        preorder_titles_all(placed(items, k, total_pages)) == descriptor_titles(items, k),
    decreases k,
{
    if k > 0 {
        lemma_placed_titles(items, k - 1, total_pages);
        let f = placed(items, k - 1, total_pages);
        let leaf = leaf_section(items, k - 1, total_pages);
        let d = item_depth(items[k - 1]);
        assert(preorder_titles(leaf) =~= seq![leaf.title]) by {
            assert(preorder_titles_all(leaf.children) =~= Seq::<Seq<char>>::empty());
        }
        if d <= 1 || f.len() == 0 {
            lemma_titles_all_push(f, leaf);
        } else {
            lemma_attach_titles(f.last(), leaf, d - 1);
            lemma_titles_all_update_last(f, attach(f.last(), leaf, d - 1), leaf.title);
        }
    }
}

proof fn lemma_widened_titles(s: Section)
    ensures
        preorder_titles(widened(s)) == preorder_titles(s),
    decreases s,
{
    lemma_widened_all_titles(s.children);
}

proof fn lemma_widened_all_titles(cs: Seq<Section>)
    ensures
        preorder_titles_all(widened_all(cs)) == preorder_titles_all(cs),
    decreases cs,
{
    if cs.len() > 0 {
        lemma_widened_all_titles(cs.drop_last());
        lemma_widened_titles(cs.last());
        lemma_titles_all_push(widened_all(cs.drop_last()), widened(cs.last()));
    }
}

/// The builder keeps the descriptors' order: read in pre-order, the built
/// tree lists the descriptors' titles in the order they were given.
pub proof fn lemma_build_keeps_order(items: Seq<RawTocItem>, total_pages: int)
    ensures
        preorder_titles_all(build(items, total_pages)) == descriptor_titles(
            items,
            items.len() as int,
        ),
{
    lemma_placed_titles(items, items.len() as int, total_pages);
    lemma_widened_all_titles(placed(items, items.len() as int, total_pages));
}

} // verus!

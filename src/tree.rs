//! The section tree: nodes with inclusive page ranges and ordered children,
//! and the document-level wrapper around the root nodes.
use vstd::prelude::*;
use crate::text::{chars_eq, chars_of, decimal, lowercase_of, push_all, push_decimal, string_of, to_lowercase};

verus! {

/// What a `TreeNode` means: its fields as mathematical values.
pub ghost struct Section {
    pub title: Seq<char>,
    pub structure: Option<Seq<char>>,
    pub start: int,
    pub end: int,
    pub children: Seq<Section>,
    pub summary: Option<Seq<char>>,
    pub node_id: Option<Seq<char>>,
}

/// A node in the document tree: one section of the document.
pub struct TreeNode {
    /// Section title.
    pub title: String,
    /// Hierarchical structure code ("1", "1.1", "1.2.3").
    pub structure: Option<String>,
    /// First page of the section (1-indexed).
    pub start_index: usize,
    /// Last page of the section (1-indexed, inclusive).
    pub end_index: usize,
    /// Subsections, in document order.
    pub nodes: Vec<TreeNode>,
    /// Optional summary of the section.
    pub summary: Option<String>,
    /// Optional node identifier.
    pub node_id: Option<String>,
}

pub open spec fn opt_view(o: Option<String>) -> Option<Seq<char>> {
    match o {
        Some(s) => Some(s@),
        None => None,
    }
}

pub open spec fn section_of(n: TreeNode) -> Section
    decreases n,
{
    Section {
        title: n.title@,
        structure: opt_view(n.structure),
        start: n.start_index as int,
        end: n.end_index as int,
        children: sections_of(n.nodes@),
        summary: opt_view(n.summary),
        node_id: opt_view(n.node_id),
    }
}

pub open spec fn sections_of(s: Seq<TreeNode>) -> Seq<Section>
    decreases s,
{
    if s.len() == 0 {
        seq![]
    } else {
        sections_of(s.drop_last()).push(section_of(s.last()))
    }
}

impl View for TreeNode {
    type V = Section;

    open spec fn view(&self) -> Section {
        section_of(*self)
    }
}


/// The sections of nodes after one more is appended.
pub proof fn lemma_sections_push(s: Seq<TreeNode>, x: TreeNode)
    ensures
        sections_of(s.push(x)) == sections_of(s).push(section_of(x)),
{
    assert(s.push(x).drop_last() =~= s);
}

/// The sections of a sequence of nodes, position by position.
pub proof fn lemma_sections_index(s: Seq<TreeNode>)
    ensures
        sections_of(s).len() == s.len(),
        forall|i: int| 0 <= i < s.len() ==> #[trigger] sections_of(s)[i] == section_of(s[i]),
    decreases s.len(),
{
    if s.len() > 0 {
        lemma_sections_index(s.drop_last());
    }
}

/// Number of sections in a subtree, the root included.
pub open spec fn count(s: Section) -> nat
    decreases s,
{
    1 + count_all(s.children)
}

pub open spec fn count_all(cs: Seq<Section>) -> nat
    decreases cs,
{
    if cs.len() == 0 {
        0
    } else {
        count_all(cs.drop_last()) + count(cs.last())
    }
}

proof fn lemma_count_all_prefix(cs: Seq<Section>, i: int)
    requires
        0 <= i < cs.len(),
    ensures
        count_all(cs.subrange(0, i + 1)) == count_all(cs.subrange(0, i)) + count(cs[i]),
        count_all(cs.subrange(0, i + 1)) <= count_all(cs),
    decreases cs.len() - i,
{
    assert(cs.subrange(0, i + 1).drop_last() =~= cs.subrange(0, i));
    if i + 1 < cs.len() {
        lemma_count_all_prefix(cs, i + 1);
    } else {
        assert(cs.subrange(0, i + 1) =~= cs);
    }
}

/// Length of the longest root-to-leaf chain below and including `s`.
pub open spec fn depth(s: Section) -> nat
    decreases s,
{
    1 + depth_all(s.children)
}

/// Largest depth among `cs`, 0 when there is none.
pub open spec fn depth_all(cs: Seq<Section>) -> nat
    decreases cs,
{
    if cs.len() == 0 {
        0
    } else {
        let a = depth_all(cs.drop_last());
        let b = depth(cs.last());
        if a >= b {
            a
        } else {
            b
        }
    }
}

proof fn lemma_depth_all_bound(cs: Seq<Section>, i: int)
    requires
        0 <= i < cs.len(),
    ensures
        depth(cs[i]) <= depth_all(cs),
    decreases cs.len(),
{
    if i < cs.len() - 1 {
        lemma_depth_all_bound(cs.drop_last(), i);
    }
}

/// The leaves below `s`, left to right (`s` itself when it has no children).
pub open spec fn leaves_of(s: Section) -> Seq<Section>
    decreases s,
{
    if s.children.len() == 0 {
        seq![s]
    } else {
        leaves_all(s.children)
    }
}

pub open spec fn leaves_all(cs: Seq<Section>) -> Seq<Section>
    decreases cs,
{
    if cs.len() == 0 {
        seq![]
    } else {
        leaves_all(cs.drop_last()) + leaves_of(cs.last())
    }
}

/// First section in pre-order whose lowercased title is `q`.
pub open spec fn find_in(s: Section, q: Seq<char>) -> Option<Section>
    decreases s,
{
    if lowercase_of(s.title) == q {
        Some(s)
    } else {
        find_in_all(s.children, q)
    }
}

pub open spec fn find_in_all(cs: Seq<Section>, q: Seq<char>) -> Option<Section>
    decreases cs,
{
    if cs.len() == 0 {
        None
    } else {
        match find_in_all(cs.drop_last(), q) {
            Some(x) => Some(x),
            None => find_in(cs.last(), q),
        }
    }
}

pub open spec fn repeat_spaces(n: nat) -> Seq<char>
    decreases n,
{
    if n == 0 {
        seq![]
    } else {
        repeat_spaces((n - 1) as nat) + seq![' ', ' ']
    }
}

/// The display form of one node: indentation, structure code, title and
/// page range, then its children one level deeper.
pub open spec fn outline(s: Section, indent: nat) -> Seq<char>
    decreases s,
{
    let code = match s.structure {
        Some(c) => c + seq![' '],
        None => seq![],
    };
    repeat_spaces(indent) + code + s.title + " [pages "@ + decimal(s.start as nat) + "-"@
        + decimal(s.end as nat) + "]\n"@ + outline_all(s.children, indent + 1)
}

pub open spec fn outline_all(cs: Seq<Section>, indent: nat) -> Seq<char>
    decreases cs,
{
    if cs.len() == 0 {
        seq![]
    } else {
        outline_all(cs.drop_last(), indent) + outline(cs.last(), indent)
    }
}

/// Spans hold: each section starts no later than it ends, and ends no
/// earlier than any of its children.
pub open spec fn spans_ok(s: Section) -> bool
    decreases s,
{
    &&& s.start <= s.end
    &&& forall|i: int|
        0 <= i < s.children.len() ==> #[trigger] s.children[i].end <= s.end && spans_ok(
            s.children[i],
        )
}

impl TreeNode {
    /// A node without structure code, children, summary or id.
    pub fn new(title: &str, start_index: usize, end_index: usize) -> (r: TreeNode)
        ensures
            r@ == (Section {
                title: title@,
                structure: None,
                start: start_index as int,
                end: end_index as int,
                children: seq![],
                summary: None,
                node_id: None,
            }),
    {
        let r = TreeNode {
            title: title.to_string(),
            structure: None,
            start_index,
            end_index,
            nodes: Vec::new(),
            summary: None,
            node_id: None,
        };
        assert(r.nodes@ =~= Seq::<TreeNode>::empty());
        r
    }

    /// Sets the structure code.
    pub fn with_structure(self, structure: &str) -> (r: TreeNode)
        ensures
            r@ == (Section { structure: Some(structure@), ..self@ }),
    {
        TreeNode { structure: Some(structure.to_string()), ..self }
    }

    /// Appends a child after the existing ones.
    pub fn add_child(&mut self, child: TreeNode)
        ensures
            final(self)@ == (Section { children: old(self)@.children.push(child@), ..old(self)@ }),
    {
        proof {
            lemma_sections_push(self.nodes@, child);
        }
        self.nodes.push(child);
    }

    pub fn has_children(&self) -> (r: bool)
        ensures
            r == (self@.children.len() > 0),
    {
        proof {
            lemma_sections_index(self.nodes@);
        }
        self.nodes.len() > 0
    }

    /// Number of pages covered, 0 when the range is inverted.
    pub fn page_span(&self) -> (r: usize)
        requires
            self.end_index - self.start_index < usize::MAX,
        ensures
            r == (if self@.end >= self@.start {
                self@.end - self@.start + 1
            } else {
                0
            }),
    {
        if self.end_index >= self.start_index {
            self.end_index - self.start_index + 1
        } else {
            0
        }
    }

    /// Number of nodes in this subtree, itself included.
    pub fn node_count(&self) -> (r: usize)
        requires
            count(self@) <= usize::MAX,
        ensures
            r == count(self@),
        decreases self,
    {
        let ghost cs = sections_of(self.nodes@);
        proof {
            lemma_sections_index(self.nodes@);
        }
        let mut total: usize = 1;
        let mut i: usize = 0;
        while i < self.nodes.len()
            invariant
                cs == sections_of(self.nodes@),
                cs.len() == self.nodes@.len(),
                forall|k: int| 0 <= k < cs.len() ==> #[trigger] cs[k] == section_of(self.nodes@[k]),
                count(self@) == 1 + count_all(cs),
                count(self@) <= usize::MAX,
                i <= self.nodes.len(),
                total == 1 + count_all(cs.subrange(0, i as int)),
            decreases self.nodes.len() - i,
        {
            proof {
                lemma_count_all_prefix(cs, i as int);
            }
            let c = self.nodes[i].node_count();
            total = total + c;
            i += 1;
        }
        assert(cs.subrange(0, i as int) =~= cs);
        total
    }

    /// The leaf nodes of this subtree, left to right.
    pub fn leaves(&self) -> (r: Vec<&TreeNode>)
        ensures
            r@.map_values(|n: &TreeNode| n@) == leaves_of(self@),
        decreases self,
    {
        let ghost cs = sections_of(self.nodes@);
        proof {
            lemma_sections_index(self.nodes@);
        }
        let mut out: Vec<&TreeNode> = Vec::new();
        if self.nodes.len() == 0 {
            out.push(self);
            assert(out@.map_values(|n: &TreeNode| n@) =~= seq![self@]);
            return out;
        }
        let mut i: usize = 0;
        while i < self.nodes.len()
            invariant
                cs == sections_of(self.nodes@),
                cs.len() == self.nodes@.len(),
                forall|k: int| 0 <= k < cs.len() ==> #[trigger] cs[k] == section_of(self.nodes@[k]),
                i <= self.nodes.len(),
                out@.map_values(|n: &TreeNode| n@) == leaves_all(cs.subrange(0, i as int)),
            decreases self.nodes.len() - i,
        {
            let mut sub = self.nodes[i].leaves();
            let ghost before = out@;
            out.append(&mut sub);
            proof {
                assert(cs.subrange(0, i + 1).drop_last() =~= cs.subrange(0, i as int));
                assert(out@.map_values(|n: &TreeNode| n@) =~= before.map_values(|n: &TreeNode| n@)
                    + leaves_of(cs[i as int]));
            }
            i += 1;
        }
        assert(cs.subrange(0, i as int) =~= cs);
        out
    }

    /// The first node of this subtree, in pre-order, whose lowercased title
    /// equals `query`, itself a lowercased title.
    pub fn find_by_lowercase_title(&self, query: &Vec<char>) -> (r: Option<&TreeNode>)
        ensures
            match r {
                Some(n) => find_in(self@, query@) == Some(n@),
                None => find_in(self@, query@) is None,
            },
        decreases self,
    {
        let lower = to_lowercase(self.title.as_str());
        let lower = chars_of(lower.as_str());
        if chars_eq(&lower, query) {
            return Some(self);
        }
        let ghost cs = sections_of(self.nodes@);
        proof {
            lemma_sections_index(self.nodes@);
        }
        let mut i: usize = 0;
        while i < self.nodes.len()
            invariant
                cs == sections_of(self.nodes@),
                cs.len() == self.nodes@.len(),
                forall|k: int| 0 <= k < cs.len() ==> #[trigger] cs[k] == section_of(self.nodes@[k]),
                i <= self.nodes.len(),
                find_in_all(cs.subrange(0, i as int), query@) is None,
                lowercase_of(self@.title) != query@,
            decreases self.nodes.len() - i,
        {
            let found = self.nodes[i].find_by_lowercase_title(query);
            assert(cs.subrange(0, i + 1).drop_last() =~= cs.subrange(0, i as int));
            if found.is_some() {
                proof {
                    assert(cs.subrange(0, i + 1).last() == cs[i as int]);
                    assert(find_in_all(cs.subrange(0, i + 1), query@) == find_in(cs[i as int], query@));
                    lemma_find_in_all_prefix(cs, i + 1, query@);
                    assert(self@.children == cs);
                    assert(lowercase_of(self@.title) != query@);
                }
                return found;
            }
            i += 1;
        }
        assert(cs.subrange(0, i as int) =~= cs);
        None
    }

    /// The first node of this subtree, in pre-order, whose title equals
    /// `title` ignoring case.
    pub fn find_by_title(&self, title: &str) -> (r: Option<&TreeNode>)
        ensures
            match r {
                Some(n) => find_in(self@, lowercase_of(title@)) == Some(n@),
                None => find_in(self@, lowercase_of(title@)) is None,
            },
    {
        let lower = to_lowercase(title);
        let query = chars_of(lower.as_str());
        self.find_by_lowercase_title(&query)
    }

    /// Every page number from the start to the end of the range, in order.
    pub fn all_page_indices(&self) -> (r: Vec<usize>)
        ensures
            r@.len() == (if self@.end >= self@.start {
                self@.end - self@.start + 1
            } else {
                0
            }),
            forall|k: int| 0 <= k < r@.len() ==> #[trigger] r@[k] == self@.start + k,
    {
        let mut out: Vec<usize> = Vec::new();
        if self.start_index > self.end_index {
            return out;
        }
        let mut p: usize = self.start_index;
        while p < self.end_index
            invariant
                self.start_index <= p <= self.end_index,
                out@.len() == p - self.start_index,
                forall|k: int| 0 <= k < out@.len() ==> #[trigger] out@[k] == self.start_index + k,
            decreases self.end_index - p,
        {
            out.push(p);
            p += 1;
        }
        out.push(p);
        out
    }

    /// The outline of this subtree, one line per node, indented two spaces
    /// per level starting at `indent`.
    pub fn format_tree(&self, indent: usize) -> (r: String)
        requires
            indent + depth(self@) <= usize::MAX,
        ensures
            r@ == outline(self@, indent as nat),
    {
        let mut out: Vec<char> = Vec::new();
        self.write_outline(indent, &mut out);
        assert(out@ =~= outline(self@, indent as nat));
        string_of(&out)
    }

    fn write_outline(&self, indent: usize, out: &mut Vec<char>)
        requires
            indent + depth(self@) <= usize::MAX,
        ensures
            final(out)@ == old(out)@ + outline(self@, indent as nat),
        decreases self,
    {
        let ghost start = out@;
        let mut k: usize = 0;
        while k < indent
            invariant
                k <= indent,
                out@ == start + repeat_spaces(k as nat),
            decreases indent - k,
        {
            out.push(' ');
            out.push(' ');
            assert(start + repeat_spaces((k + 1) as nat) =~= start + repeat_spaces(k as nat) + seq![' ', ' ']);
            k += 1;
        }
        let ghost code: Seq<char> = match self@.structure {
            Some(c) => c + seq![' '],
            None => seq![],
        };
        match &self.structure {
            Some(c) => {
                let cv = chars_of(c.as_str());
                push_all(out, &cv);
                out.push(' ');
            },
            None => {},
        }
        assert(out@ =~= start + repeat_spaces(indent as nat) + code);
        let tv = chars_of(self.title.as_str());
        push_all(out, &tv);
        let a = chars_of(" [pages ");
        push_all(out, &a);
        push_decimal(out, self.start_index);
        let b = chars_of("-");
        push_all(out, &b);
        push_decimal(out, self.end_index);
        let c = chars_of("]\n");
        push_all(out, &c);
        let ghost head = out@;
        assert(head =~= start + (repeat_spaces(indent as nat) + code + self@.title + " [pages "@
            + decimal(self@.start as nat) + "-"@ + decimal(self@.end as nat) + "]\n"@));
        let ghost cs = sections_of(self.nodes@);
        proof {
            lemma_sections_index(self.nodes@);
        }
        let mut i: usize = 0;
        while i < self.nodes.len()
            invariant
                cs == sections_of(self.nodes@),
                cs.len() == self.nodes@.len(),
                forall|j: int| 0 <= j < cs.len() ==> #[trigger] cs[j] == section_of(self.nodes@[j]),
                i <= self.nodes.len(),
                indent + depth(self@) <= usize::MAX,
                depth(self@) == 1 + depth_all(cs),
                out@ == head + outline_all(cs.subrange(0, i as int), (indent + 1) as nat),
            decreases self.nodes.len() - i,
        {
            proof {
                lemma_depth_all_bound(cs, i as int);
            }
            self.nodes[i].write_outline(indent + 1, out);
            proof {
                assert(cs.subrange(0, i + 1).drop_last() =~= cs.subrange(0, i as int));
            }
            i += 1;
        }
        assert(cs.subrange(0, i as int) =~= cs);
    }
}

proof fn lemma_find_in_all_prefix(cs: Seq<Section>, i: int, q: Seq<char>)
    requires
        0 < i <= cs.len(),
        find_in_all(cs.subrange(0, i), q) is Some,
    ensures
        find_in_all(cs, q) == find_in_all(cs.subrange(0, i), q),
    decreases cs.len(),
{
    if i == cs.len() {
        assert(cs.subrange(0, i) =~= cs);
    } else {
        let d = cs.drop_last();
        assert(d.subrange(0, i) =~= cs.subrange(0, i));
        lemma_find_in_all_prefix(d, i, q);
    }
}

/// A document's tree: its name, root sections and page count.
pub struct DocumentTree {
    /// Document name.
    pub name: String,
    /// Root-level nodes, in document order.
    pub nodes: Vec<TreeNode>,
    /// Total page count.
    pub total_pages: usize,
    /// Optional document description.
    pub description: Option<String>,
}

pub ghost struct DocumentTreeView {
    pub name: Seq<char>,
    pub sections: Seq<Section>,
    pub total_pages: int,
    pub description: Option<Seq<char>>,
}

impl View for DocumentTree {
    type V = DocumentTreeView;

    open spec fn view(&self) -> DocumentTreeView {
        DocumentTreeView {
            name: self.name@,
            sections: sections_of(self.nodes@),
            total_pages: self.total_pages as int,
            description: opt_view(self.description),
        }
    }
}

pub open spec fn repeat_char(c: char, n: nat) -> Seq<char>
    decreases n,
{
    if n == 0 {
        seq![]
    } else {
        repeat_char(c, (n - 1) as nat).push(c)
    }
}

/// The display form of a whole tree: a header line, a rule, then the
/// outline of each root.
pub open spec fn document_outline(t: DocumentTreeView) -> Seq<char> {
    "Document: "@ + t.name + " ("@ + decimal(t.total_pages as nat) + " pages, "@ + decimal(
        count_all(t.sections),
    ) + " sections)\n"@ + repeat_char('\u{2500}', 50) + "\n"@ + outline_all(t.sections, 0)
}

impl DocumentTree {
    pub fn new(name: &str, nodes: Vec<TreeNode>, total_pages: usize) -> (r: DocumentTree)
        ensures
            r@ == (DocumentTreeView {
                name: name@,
                sections: sections_of(nodes@),
                total_pages: total_pages as int,
                description: None,
            }),
    {
        DocumentTree { name: name.to_string(), nodes, total_pages, description: None }
    }

    /// Number of nodes over all roots.
    pub fn node_count(&self) -> (r: usize)
        requires
            count_all(self@.sections) <= usize::MAX,
        ensures
            r == count_all(self@.sections),
    {
        let ghost cs = sections_of(self.nodes@);
        proof {
            lemma_sections_index(self.nodes@);
        }
        let mut total: usize = 0;
        let mut i: usize = 0;
        while i < self.nodes.len()
            invariant
                cs == sections_of(self.nodes@),
                cs.len() == self.nodes@.len(),
                forall|k: int| 0 <= k < cs.len() ==> #[trigger] cs[k] == section_of(self.nodes@[k]),
                count_all(cs) <= usize::MAX,
                i <= self.nodes.len(),
                total == count_all(cs.subrange(0, i as int)),
            decreases self.nodes.len() - i,
        {
            proof {
                lemma_count_all_prefix(cs, i as int);
                lemma_count_le_all(cs, i as int);
            }
            let c = self.nodes[i].node_count();
            total = total + c;
            i += 1;
        }
        assert(cs.subrange(0, i as int) =~= cs);
        total
    }

    /// Length of the longest root-to-leaf chain, 0 for a tree without roots.
    pub fn max_depth(&self) -> (r: usize)
        requires
            depth_all(self@.sections) <= usize::MAX,
        ensures
            r == depth_all(self@.sections),
    {
        let ghost cs = sections_of(self.nodes@);
        proof {
            lemma_sections_index(self.nodes@);
        }
        let mut best: usize = 0;
        let mut i: usize = 0;
        while i < self.nodes.len()
            invariant
                cs == sections_of(self.nodes@),
                cs.len() == self.nodes@.len(),
                forall|k: int| 0 <= k < cs.len() ==> #[trigger] cs[k] == section_of(self.nodes@[k]),
                depth_all(cs) <= usize::MAX,
                i <= self.nodes.len(),
                best == depth_all(cs.subrange(0, i as int)),
            decreases self.nodes.len() - i,
        {
            proof {
                lemma_depth_all_bound(cs, i as int);
                assert(cs.subrange(0, i + 1).drop_last() =~= cs.subrange(0, i as int));
            }
            let d = node_depth(&self.nodes[i]);
            if d > best {
                best = d;
            }
            i += 1;
        }
        assert(cs.subrange(0, i as int) =~= cs);
        best
    }

    /// The first node, over the roots in order and each in pre-order, whose
    /// title equals `title` ignoring case.
    pub fn find_by_title(&self, title: &str) -> (r: Option<&TreeNode>)
        ensures
            match r {
                Some(n) => find_in_all(self@.sections, lowercase_of(title@)) == Some(n@),
                None => find_in_all(self@.sections, lowercase_of(title@)) is None,
            },
    {
        let lower = to_lowercase(title);
        let query = chars_of(lower.as_str());
        let ghost cs = sections_of(self.nodes@);
        proof {
            lemma_sections_index(self.nodes@);
        }
        let mut i: usize = 0;
        while i < self.nodes.len()
            invariant
                cs == sections_of(self.nodes@),
                cs.len() == self.nodes@.len(),
                forall|k: int| 0 <= k < cs.len() ==> #[trigger] cs[k] == section_of(self.nodes@[k]),
                i <= self.nodes.len(),
                find_in_all(cs.subrange(0, i as int), query@) is None,
                query@ == lowercase_of(title@),
            decreases self.nodes.len() - i,
        {
            let found = self.nodes[i].find_by_lowercase_title(&query);
            assert(cs.subrange(0, i + 1).drop_last() =~= cs.subrange(0, i as int));
            if found.is_some() {
                proof {
                    assert(cs.subrange(0, i + 1).last() == cs[i as int]);
                    lemma_find_in_all_prefix(cs, i + 1, query@);
                }
                return found;
            }
            i += 1;
        }
        assert(cs.subrange(0, i as int) =~= cs);
        None
    }

    /// The tree for display: header, rule, then one indented line per node.
    pub fn format(&self) -> (r: String)
        requires
            count_all(self@.sections) <= usize::MAX,
            depth_all(self@.sections) < usize::MAX,
        ensures
            r@ == document_outline(self@),
    {
        let mut out: Vec<char> = chars_of("Document: ");
        let name = chars_of(self.name.as_str());
        push_all(&mut out, &name);
        let a = chars_of(" (");
        push_all(&mut out, &a);
        push_decimal(&mut out, self.total_pages);
        let b = chars_of(" pages, ");
        push_all(&mut out, &b);
        let n = self.node_count();
        push_decimal(&mut out, n);
        let c = chars_of(" sections)\n");
        push_all(&mut out, &c);
        let ghost before_rule = out@;
        assert(before_rule =~= "Document: "@ + self@.name + " ("@ + decimal(self@.total_pages as nat)
            + " pages, "@ + decimal(count_all(self@.sections)) + " sections)\n"@);
        let mut k: usize = 0;
        while k < 50
            invariant
                k <= 50,
                out@ == before_rule + repeat_char('\u{2500}', k as nat),
                before_rule == "Document: "@ + self@.name + " ("@ + decimal(self@.total_pages as nat)
                    + " pages, "@ + decimal(count_all(self@.sections)) + " sections)\n"@,
            decreases 50 - k,
        {
            out.push('\u{2500}');
            k += 1;
        }
        out.push('\n');
        proof {
            reveal_strlit("\n");
        }
        let ghost head = out@;
        assert(head =~= "Document: "@ + self@.name + " ("@ + decimal(self@.total_pages as nat)
            + " pages, "@ + decimal(count_all(self@.sections)) + " sections)\n"@ + repeat_char(
            '\u{2500}',
            50,
        ) + "\n"@);
        let ghost cs = sections_of(self.nodes@);
        proof {
            lemma_sections_index(self.nodes@);
        }
        let mut i: usize = 0;
        while i < self.nodes.len()
            invariant
                cs == sections_of(self.nodes@),
                cs.len() == self.nodes@.len(),
                forall|j: int| 0 <= j < cs.len() ==> #[trigger] cs[j] == section_of(self.nodes@[j]),
                depth_all(cs) < usize::MAX,
                i <= self.nodes.len(),
                out@ == head + outline_all(cs.subrange(0, i as int), 0),
                head == "Document: "@ + self@.name + " ("@ + decimal(self@.total_pages as nat)
                    + " pages, "@ + decimal(count_all(self@.sections)) + " sections)\n"@
                    + repeat_char('\u{2500}', 50) + "\n"@,
            decreases self.nodes.len() - i,
        {
            proof {
                lemma_depth_all_bound(cs, i as int);
            }
            self.nodes[i].write_outline(0, &mut out);
            proof {
                assert(cs.subrange(0, i + 1).drop_last() =~= cs.subrange(0, i as int));
            }
            i += 1;
        }
        assert(cs.subrange(0, i as int) =~= cs);
        assert(out@ =~= document_outline(self@));
        string_of(&out)
    }
}

proof fn lemma_count_le_all(cs: Seq<Section>, i: int)
    requires
        0 <= i < cs.len(),
    ensures
        count(cs[i]) <= count_all(cs),
    decreases cs.len(),
{
    if i < cs.len() - 1 {
        lemma_count_le_all(cs.drop_last(), i);
    }
}

/// Depth of the subtree rooted at `n`.
fn node_depth(n: &TreeNode) -> (r: usize)
    requires
        depth(n@) <= usize::MAX,
    ensures
        r == depth(n@),
    decreases n,
{
    let ghost cs = sections_of(n.nodes@);
    proof {
        lemma_sections_index(n.nodes@);
    }
    let mut best: usize = 0;
    let mut i: usize = 0;
    while i < n.nodes.len()
        invariant
            cs == sections_of(n.nodes@),
            cs.len() == n.nodes@.len(),
            forall|k: int| 0 <= k < cs.len() ==> #[trigger] cs[k] == section_of(n.nodes@[k]),
            depth(n@) == 1 + depth_all(cs),
            depth(n@) <= usize::MAX,
            i <= n.nodes.len(),
            best == depth_all(cs.subrange(0, i as int)),
        decreases n.nodes.len() - i,
    {
        proof {
            lemma_depth_all_bound(cs, i as int);
            assert(cs.subrange(0, i + 1).drop_last() =~= cs.subrange(0, i as int));
        }
        let d = node_depth(&n.nodes[i]);
        if d > best {
            best = d;
        }
        i += 1;
    }
    assert(cs.subrange(0, i as int) =~= cs);
    best + 1
}

} // verus!

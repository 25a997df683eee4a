//! Question sets used to compare retrieval methods.
use vstd::prelude::*;

verus! {

broadcast use vstd::string::group_string_axioms;

/// One question about one document.
#[derive(Debug, Clone)]
pub struct DatasetItem {
    /// Identifier of the item.
    pub id: String,
    /// Text of the document.
    pub document: String,
    /// The question.
    pub question: String,
    /// Expected answer, when known.
    pub answer: Option<String>,
    /// Answer choices, for multiple-choice items.
    pub options: Option<Vec<String>>,
    /// Index of the right choice (0-based), for multiple-choice items.
    pub correct_option: Option<usize>,
    /// Name of the source collection.
    pub source: String,
}

/// A named set of items.
#[derive(Debug, Clone)]
pub struct Dataset {
    pub name: String,
    pub items: Vec<DatasetItem>,
}

pub open spec fn opt_text(o: Option<String>) -> Option<Seq<char>> {
    match o {
        Some(s) => Some(s@),
        None => None,
    }
}

pub open spec fn texts(v: Seq<String>) -> Seq<Seq<char>> {
    v.map_values(|s: String| s@)
}

/// Two items with the same field values.
pub open spec fn same_item(a: DatasetItem, b: DatasetItem) -> bool {
    &&& a.id@ == b.id@
    &&& a.document@ == b.document@
    &&& a.question@ == b.question@
    &&& opt_text(a.answer) == opt_text(b.answer)
    &&& match (a.options, b.options) {
        (Some(x), Some(y)) => texts(x@) == texts(y@),
        (None, None) => true,
        _ => false,
    }
    &&& a.correct_option == b.correct_option
    &&& a.source@ == b.source@
}

fn copy_strings(v: &Vec<String>) -> (r: Vec<String>)
    ensures
        texts(r@) == texts(v@),
{
    let mut out: Vec<String> = Vec::new();
    let mut i: usize = 0;
    while i < v.len()
        invariant
            i <= v.len(),
            out@.len() == i,
            forall|k: int| 0 <= k < i ==> (#[trigger] out@[k])@ == v@[k]@,
        decreases v.len() - i,
    {
        out.push(v[i].clone());
        i += 1;
    }
    assert(texts(out@) =~= texts(v@));
    out
}

fn copy_text(o: &Option<String>) -> (r: Option<String>)
    ensures
        opt_text(r) == opt_text(*o),
{
    match o {
        Some(s) => Some(s.clone()),
        None => None,
    }
}

impl DatasetItem {
    /// A copy of the item.
    pub fn duplicate(&self) -> (r: DatasetItem)
        ensures
            same_item(r, *self),
    {
        DatasetItem {
            id: self.id.clone(),
            document: self.document.clone(),
            question: self.question.clone(),
            answer: copy_text(&self.answer),
            options: match &self.options {
                Some(v) => Some(copy_strings(v)),
                None => None,
            },
            correct_option: self.correct_option,
            source: self.source.clone(),
        }
    }
}

impl Dataset {
    /// An empty dataset.
    pub fn new(name: &str) -> (r: Dataset)
        ensures
            r.name@ == name@,
            r.items@.len() == 0,
    {
        Dataset { name: name.to_string(), items: Vec::new() }
    }

    /// Appends an item.
    pub fn add_item(&mut self, item: DatasetItem)
        ensures
            final(self).name == old(self).name,
            final(self).items@ == old(self).items@.push(item),
    {
        self.items.push(item);
    }

    pub fn len(&self) -> (r: usize)
        ensures
            r == self.items@.len(),
    {
        self.items.len()
    }

    pub fn is_empty(&self) -> (r: bool)
        ensures
            r == (self.items@.len() == 0),
    {
        self.items.len() == 0
    }

    /// A dataset of the same name holding copies of the first `n` items.
    pub fn take(&self, n: usize) -> (r: Dataset)
        ensures
            r.name@ == self.name@,
            r.items@.len() == if n < self.items@.len() {
                n as int
            } else {
                self.items@.len() as int
            },
            forall|i: int| 0 <= i < r.items@.len() ==> same_item(#[trigger] r.items@[i], self.items@[i]),
    {
        let mut items: Vec<DatasetItem> = Vec::new();
        let mut i: usize = 0;
        while i < n && i < self.items.len()
            invariant
                i <= self.items.len(),
                i <= n,
                items@.len() == i,
                forall|k: int| 0 <= k < i ==> same_item(#[trigger] items@[k], self.items@[k]),
            decreases self.items.len() - i,
        {
            items.push(self.items[i].duplicate());
            i += 1;
        }
        Dataset { name: self.name.clone(), items }
    }
}

/// A small built-in dataset of three questions about short documents, each
/// with its expected answer.
pub fn create_sample_dataset() -> (r: Dataset)
    ensures
        r.name@ == "sample"@,
        r.items@.len() == 3,
        forall|i: int|
            0 <= i < 3 ==> {
                &&& (#[trigger] r.items@[i]).answer is Some
                &&& r.items@[i].options is None
                &&& r.items@[i].source@ == "sample"@
            },
{
    let mut dataset = Dataset::new("sample");
    dataset.add_item(
        DatasetItem {
            id: "sample_1".to_string(),
            document: r#"
Rust is a systems programming language focused on safety, speed, and concurrency.
It achieves memory safety without garbage collection through its ownership system.
The borrow checker ensures references are valid and prevents data races at compile time.
Rust was originally designed by Graydon Hoare at Mozilla Research.
The first stable release, Rust 1.0, was announced in May 2015.
"#.to_string(),
            question: "What mechanism does Rust use to achieve memory safety?".to_string(),
            answer: Some("Rust uses an ownership system and borrow checker to achieve memory safety without garbage collection.".to_string()),
            options: None,
            correct_option: None,
            source: "sample".to_string(),
        },
    );
    dataset.add_item(
        DatasetItem {
            id: "sample_2".to_string(),
            document: r#"
Python is a high-level, interpreted programming language known for its clear syntax.
Created by Guido van Rossum, Python was first released in 1991.
Python supports multiple programming paradigms including procedural, object-oriented, and functional programming.
The Python Package Index (PyPI) hosts thousands of third-party packages.
Python is widely used in data science, machine learning, and web development.
"#.to_string(),
            question: "Who created Python and when was it first released?".to_string(),
            answer: Some("Python was created by Guido van Rossum and first released in 1991.".to_string()),
            options: None,
            correct_option: None,
            source: "sample".to_string(),
        },
    );
    dataset.add_item(
        DatasetItem {
            id: "sample_3".to_string(),
            document: r#"
Machine learning is a subset of artificial intelligence that enables systems to learn from data.
Supervised learning uses labeled data to train models, while unsupervised learning finds patterns in unlabeled data.
Neural networks are computing systems inspired by biological neural networks in animal brains.
Deep learning uses neural networks with many layers to model complex patterns.
Common applications include image recognition, natural language processing, and recommendation systems.
"#.to_string(),
            question: "What is the difference between supervised and unsupervised learning?".to_string(),
            answer: Some("Supervised learning uses labeled data to train models, while unsupervised learning finds patterns in unlabeled data.".to_string()),
            options: None,
            correct_option: None,
            source: "sample".to_string(),
        },
    );
    proof {
        reveal_strlit("sample");
    }
    dataset
}

} // verus!

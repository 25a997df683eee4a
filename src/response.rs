//! Normalization of the reasoning service's answers before they are read as
//! JSON: code fences and surrounding prose are stripped.
use vstd::prelude::*;
use crate::text::{chars_of, matches_at, slice_chars, starts_with, string_of, trim, trim_bounds};

verus! {

/// Position of the first `c` in `s` at or after `i`.
pub open spec fn find_from(s: Seq<char>, c: char, i: int) -> Option<int>
    decreases s.len() - i,
{
    if i < 0 || i >= s.len() {
        None
    } else if s[i] == c {
        Some(i)
    } else {
        find_from(s, c, i + 1)
    }
}

/// Position of the last `c` in `s` before `j`.
pub open spec fn rfind_below(s: Seq<char>, c: char, j: int) -> Option<int>
    decreases j,
{
    if j <= 0 || j > s.len() {
        None
    } else if s[j - 1] == c {
        Some(j - 1)
    } else {
        rfind_below(s, c, j - 1)
    }
}

/// Last position, at or before `k`, where `p` occurs in `s`.
pub open spec fn rfind_seq_from(s: Seq<char>, p: Seq<char>, k: int) -> Option<int>
    decreases k + 1,
{
    if k < 0 {
        None
    } else if starts_with(s.subrange(k, s.len() as int), p) {
        Some(k)
    } else {
        rfind_seq_from(s, p, k - 1)
    }
}

pub open spec fn fence() -> Seq<char> {
    "```"@
}

pub open spec fn json_fence() -> Seq<char> {
    "```json"@
}

/// Last position of a code fence in `t`.
pub open spec fn last_fence(t: Seq<char>) -> Option<int> {
    rfind_seq_from(t, fence(), t.len() - 3)
}

/// The text from the first `open` to the last `close`, both included,
/// when the latter comes after the former.
pub open spec fn enclosed(t: Seq<char>, open: char, close: char) -> Option<Seq<char>> {
    match find_from(t, open, 0) {
        Some(a) => match rfind_below(t, close, t.len() as int) {
            Some(b) => if b > a {
                Some(t.subrange(a, b + 1))
            } else {
                None
            },
            None => None,
        },
        None => None,
    }
}

/// Where the body of a plain code fence starts: after the first line break,
/// or after the fence itself when there is none.
pub open spec fn fence_body_start(t: Seq<char>) -> int {
    match find_from(t, '\n', 0) {
        Some(n) => n + 1,
        None => 3,
    }
}

/// The JSON text inside a response: the body of a ```json or ``` fence,
/// else (when `arrays`) the outermost `[...]`, else the outermost `{...}`,
/// else the whole response; always from the trimmed response.
pub open spec fn extracted(response: Seq<char>, arrays: bool) -> Seq<char> {
    let t = trim(response);
    let e = last_fence(t);
    if starts_with(t, json_fence()) && e is Some && e->0 > 7 {
        trim(t.subrange(7, e->0))
    } else if starts_with(t, fence()) && e is Some && e->0 > fence_body_start(t) {
        trim(t.subrange(fence_body_start(t), e->0))
    } else if arrays && enclosed(t, '[', ']') is Some {
        enclosed(t, '[', ']')->0
    } else if enclosed(t, '{', '}') is Some {
        enclosed(t, '{', '}')->0
    } else {
        t
    }
}

fn find_char(s: &Vec<char>, c: char) -> (r: Option<usize>)
    ensures
        opt_pos(r) == find_from(s@, c, 0),
        r matches Some(v) ==> v < s@.len(),
{
    let mut i: usize = 0;
    while i < s.len()
        invariant
            i <= s.len(),
            find_from(s@, c, 0) == find_from(s@, c, i as int),
        decreases s.len() - i,
    {
        if s[i] == c {
            return Some(i);
        }
        i += 1;
    }
    None
}

fn rfind_char(s: &Vec<char>, c: char) -> (r: Option<usize>)
    ensures
        opt_pos(r) == rfind_below(s@, c, s@.len() as int),
        r matches Some(v) ==> v < s@.len(),
{
    let mut j: usize = s.len();
    while j > 0
        invariant
            j <= s.len(),
            rfind_below(s@, c, s@.len() as int) == rfind_below(s@, c, j as int),
        decreases j,
    {
        if s[j - 1] == c {
            return Some(j - 1);
        }
        j -= 1;
    }
    None
}

fn rfind_fence(s: &Vec<char>, p: &Vec<char>) -> (r: Option<usize>)
    requires
        p@ == fence(),
    ensures
        opt_pos(r) == last_fence(s@),
        r matches Some(v) ==> v + 3 <= s@.len(),
{
    proof {
        reveal_strlit("```");
    }
    if s.len() < 3 {
        assert(rfind_seq_from(s@, p@, s@.len() - 3) is None);
        return None;
    }
    let mut k: usize = s.len() - 3 + 1;
    while k > 0
        invariant
            k <= s.len() - 2,
            p@ == fence(),
            last_fence(s@) == rfind_seq_from(s@, p@, k - 1),
        decreases k,
    {
        if matches_at(s, k - 1, p) {
            return Some(k - 1);
        }
        k -= 1;
    }
    None
}

pub open spec fn opt_pos(o: Option<usize>) -> Option<int> {
    match o {
        Some(v) => Some(v as int),
        None => None,
    }
}

/// Text from the first `open` to the last `close` of `t`, if there is such.
fn enclosed_in(t: &Vec<char>, open: char, close: char) -> (r: Option<Vec<char>>)
    ensures
        match r {
            Some(v) => enclosed(t@, open, close) == Some(v@),
            None => enclosed(t@, open, close) is None,
        },
{
    let _n: usize = t.len();
    match find_char(t, open) {
        Some(a) => match rfind_char(t, close) {
            Some(b) => if b > a {
                Some(slice_chars(t, a, b + 1))
            } else {
                None
            },
            None => None,
        },
        None => None,
    }
}

fn extract(response: &str, arrays: bool) -> (r: String)
    ensures
        r@ == extracted(response@, arrays),
{
    let raw = chars_of(response);
    let (lo, hi) = trim_bounds(&raw, 0, raw.len());
    assert(raw@.subrange(0, raw@.len() as int) =~= raw@);
    let t = slice_chars(&raw, lo, hi);
    assert(t@.subrange(0, t@.len() as int) =~= t@);
    let f = chars_of("```");
    let fj = chars_of("```json");
    let e = rfind_fence(&t, &f);
    if matches_at(&t, 0, &fj) {
        match e {
            Some(end) => {
                if end > 7 {
                    let (a, b) = trim_bounds(&t, 7, end);
                    return string_of(&slice_chars(&t, a, b));
                }
            },
            None => {},
        }
    }
    if matches_at(&t, 0, &f) {
        match e {
            Some(end) => {
                let start = match find_char(&t, '\n') {
                    Some(n) => n + 1,
                    None => 3,
                };
                if end > start {
                    let (a, b) = trim_bounds(&t, start, end);
                    return string_of(&slice_chars(&t, a, b));
                }
            },
            None => {},
        }
    }
    if arrays {
        match enclosed_in(&t, '[', ']') {
            Some(v) => {
                return string_of(&v);
            },
            None => {},
        }
    }
    match enclosed_in(&t, '{', '}') {
        Some(v) => string_of(&v),
        None => string_of(&t),
    }
}

/// The JSON text of a structure-extraction answer: a fenced body, else the
/// outermost array, else the outermost object, else the trimmed answer.
pub fn extract_json(response: &str) -> (r: String)
    ensures
        r@ == extracted(response@, true),
{
    extract(response, true)
}

/// The JSON text of a ranking answer: a fenced body, else the outermost
/// object, else the trimmed answer.
pub fn extract_json_object(response: &str) -> (r: String)
    ensures
        r@ == extracted(response@, false),
{
    extract(response, false)
}

} // verus!

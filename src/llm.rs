//! Messages exchanged with the reasoning service, and the small decisions
//! taken around a request: where it goes and whether a reply confirms the
//! connection.
use vstd::prelude::*;
use crate::builder::strip_trailing;
use crate::text::{chars_of, contains_text, lowercase_of, occurs, push_all, string_of, to_lowercase};

verus! {

/// Who speaks a message.
#[derive(Debug, Clone, Copy, PartialEq, Eq, Structural)]
pub enum Role {
    System,
    User,
    Assistant,
}

/// A message in a conversation.
#[derive(Debug, Clone)]
pub struct Message {
    pub role: Role,
    pub content: String,
}

impl Message {
    pub fn system(content: &str) -> (r: Message)
        ensures
            r.role == Role::System,
            r.content@ == content@,
    {
        Message { role: Role::System, content: content.to_string() }
    }

    pub fn user(content: &str) -> (r: Message)
        ensures
            r.role == Role::User,
            r.content@ == content@,
    {
        Message { role: Role::User, content: content.to_string() }
    }

    pub fn assistant(content: &str) -> (r: Message)
        ensures
            r.role == Role::Assistant,
            r.content@ == content@,
    {
        Message { role: Role::Assistant, content: content.to_string() }
    }
}

/// Token usage that the service reports.
#[derive(Debug, Clone, Copy)]
pub struct TokenUsage {
    pub prompt_tokens: u32,
    pub completion_tokens: u32,
    pub total_tokens: u32,
}

/// A reply of the service, with its metadata.
#[derive(Debug)]
pub struct LlmResponse {
    /// The generated text.
    pub content: String,
    /// Why the service stopped generating.
    pub finish_reason: Option<String>,
    /// Token usage, when reported.
    pub usage: Option<TokenUsage>,
}

/// The messages of a one-turn request: the system prompt, if any, then
/// the user prompt.
pub fn prompt_messages(system: Option<&str>, user: &str) -> (r: Vec<Message>)
    ensures
        system is Some ==> r@.len() == 2 && r@[0].role == Role::System && r@[0].content@
            == system->0@ && r@[1].role == Role::User && r@[1].content@ == user@,
        system is None ==> r@.len() == 1 && r@[0].role == Role::User && r@[0].content@ == user@,
{
    let mut messages: Vec<Message> = Vec::new();
    match system {
        Some(s) => {
            messages.push(Message::system(s));
        },
        None => {},
    }
    messages.push(Message::user(user));
    messages
}

/// The chat-completion address under `api_base`, which may end in '/'.
pub fn chat_endpoint(api_base: &str) -> (r: String)
    ensures
        r@ == strip_trailing(api_base@, '/') + "/v1/chat/completions"@,
{
    let s = chars_of(api_base);
    let mut hi: usize = s.len();
    assert(s@.subrange(0, s@.len() as int) =~= s@);
    while hi > 0 && s[hi - 1] == '/'
        invariant
            hi <= s.len(),
            strip_trailing(s@, '/') == strip_trailing(s@.subrange(0, hi as int), '/'),
        decreases hi,
    {
        assert(s@.subrange(0, hi as int).drop_last() =~= s@.subrange(0, hi - 1));
        hi -= 1;
    }
    let mut out: Vec<char> = Vec::new();
    let mut i: usize = 0;
    while i < hi
        invariant
            i <= hi <= s.len(),
            out@ == s@.subrange(0, i as int),
        decreases hi - i,
    {
        out.push(s[i]);
        assert(s@.subrange(0, i + 1) =~= s@.subrange(0, i as int).push(s@[i as int]));
        i += 1;
    }
    proof {
        let u = s@.subrange(0, hi as int);
        if u.len() > 0 {
            assert(u.last() == s@[hi - 1]);
        }
        assert(strip_trailing(u, '/') == u);
    }
    let tail = chars_of("/v1/chat/completions");
    push_all(&mut out, &tail);
    string_of(&out)
}

/// Whether a reply to the connection test says hello, in any case.
pub fn says_hello(reply: &str) -> (r: bool)
    ensures
        r == occurs(lowercase_of(reply@), "hello"@),
{
    let lower = to_lowercase(reply);
    contains_text(lower.as_str(), "hello")
}

} // verus!

//! Chat completions: the request that is sent, and what is read back from a
//! complete (not streamed) reply.
use vstd::prelude::*;

use crate::models::API_BASE;
use crate::text::{decimal, push_decimal, push_str};

verus! {

/// One message of a conversation.
#[derive(Debug, PartialEq, Eq)]
pub struct Message {
    pub role: String,
    pub content: Option<String>,
}

/// The body of a chat completion request.
#[derive(Debug, PartialEq, Eq)]
pub struct ChatRequest {
    pub model: String,
    pub messages: Vec<Message>,
    pub max_tokens: u32,
    pub stream: bool,
}

/// `m` has role `role` and the text `content`.
pub open spec fn is_message(m: Message, role: Seq<char>, content: String) -> bool {
    m.role@ == role && m.content == Some(content)
}

/// The address of the chat completion endpoint.
pub open spec fn chat_url() -> Seq<char> {
    API_BASE@ + "/chat/completions"@
}

/// The address of the chat completion endpoint.
pub fn chat_completions_url() -> (r: String)
    ensures
        r@ == chat_url(),
{
    let mut url = String::new();
    push_str(&mut url, API_BASE);
    push_str(&mut url, "/chat/completions");
    url
}

fn message(role: &str, content: String) -> (m: Message)
    ensures
        is_message(m, role@, content),
{
    let mut r = String::new();
    push_str(&mut r, role);
    assert(r@ =~= role@);
    Message { role: r, content: Some(content) }
}

/// The request for `prompt` to `model`: the system message first when one is
/// given, then the user's prompt; the token limit and the streaming choice
/// are passed on.
pub fn build_chat_request(
    model: String,
    prompt: String,
    system: Option<String>,
    max_tokens: u32,
    stream: bool,
) -> (r: ChatRequest)
    ensures
        r.model == model,
        r.max_tokens == max_tokens,
        r.stream == stream,
        match system {
            Some(sys) => {
                &&& r.messages@.len() == 2
                &&& is_message(r.messages@[0], "system"@, sys)
                &&& is_message(r.messages@[1], "user"@, prompt)
            },
            None => {
                &&& r.messages@.len() == 1
                &&& is_message(r.messages@[0], "user"@, prompt)
            },
        },
{
    let mut messages: Vec<Message> = Vec::new();
    if let Some(sys) = system {
        messages.push(message("system", sys));
    }
    messages.push(message("user", prompt));
    ChatRequest { model, messages, max_tokens, stream }
}

/// One choice of a complete reply.
pub struct Choice {
    pub message: Message,
}

/// Token counts of a complete reply.
pub struct Usage {
    pub prompt_tokens: u64,
    pub completion_tokens: u64,
}

/// A complete (not streamed) reply.
pub struct ChatResponse {
    pub choices: Vec<Choice>,
    pub usage: Option<Usage>,
}

/// The text of the first choice, when there is a choice and it has text.
pub open spec fn reply_of(resp: ChatResponse) -> Option<Seq<char>> {
    if resp.choices@.len() > 0 {
        match resp.choices@[0].message.content {
            Some(c) => Some(c@),
            None => None,
        }
    } else {
        None
    }
}

/// The text of the first choice of `resp`, if any.
pub fn reply_text(resp: &ChatResponse) -> (r: Option<String>)
    ensures
        r matches Some(s) ==> reply_of(*resp) == Some(s@),
        r is None ==> reply_of(*resp) is None,
        if resp.choices@.len() > 0 {
            match resp.choices@[0].message.content {
                Some(c) => r matches Some(s) && s@ == c@,
                None => r is None,
            }
        } else {
            r is None
        },
{
    if resp.choices.len() == 0 {
        return None;
    }
    match &resp.choices[0].message.content {
        Some(c) => Some(c.clone()),
        None => None,
    }
}

/// The prompt and completion token counts of `resp`; both 0 when it reports
/// none.
pub fn reply_token_counts(resp: &ChatResponse) -> (r: (u64, u64))
    ensures
        match resp.usage {
            Some(u) => r == (u.prompt_tokens, u.completion_tokens),
            None => r == (0u64, 0u64),
        },
{
    match &resp.usage {
        Some(u) => (u.prompt_tokens, u.completion_tokens),
        None => (0, 0),
    }
}

/// The summary line of the model and its token counts.
pub open spec fn usage_summary(model: Seq<char>, prompt_tokens: nat, completion_tokens: nat) -> Seq<
    char,
> {
    "model: "@ + model + " | in: "@ + decimal(prompt_tokens) + " tok | out: "@ + decimal(
        completion_tokens,
    ) + " tok"@
}

/// The summary line of the model and its token counts.
pub fn usage_line(model: &str, prompt_tokens: u64, completion_tokens: u64) -> (r: String)
    ensures
        r@ == usage_summary(model@, prompt_tokens as nat, completion_tokens as nat),
{
    let mut r = String::new();
    push_str(&mut r, "model: ");
    push_str(&mut r, model);
    push_str(&mut r, " | in: ");
    push_decimal(&mut r, prompt_tokens);
    push_str(&mut r, " tok | out: ");
    push_decimal(&mut r, completion_tokens);
    push_str(&mut r, " tok");
    assert(r@ =~= usage_summary(model@, prompt_tokens as nat, completion_tokens as nat));
    r
}

// ── Laws ────────────────────────────────────────────────────────────────────

/// The reply read from a complete response is the whole text of its first
/// choice, character for character; there is none when the first choice has
/// no text or there is no choice. Later choices are not read.
pub proof fn lemma_reply_is_first_choice_whole(resp: ChatResponse)
    ensures
        resp.choices@.len() > 0 && resp.choices@[0].message.content is Some ==> reply_of(resp)
            == Some(resp.choices@[0].message.content->0@),
        resp.choices@.len() == 0 || resp.choices@[0].message.content is None ==> reply_of(
            resp,
        ) is None,
{
}

/// Two responses whose first choices carry the same text give the same
/// reply, whatever their other choices and token counts.
pub proof fn lemma_reply_reads_only_first_choice(r1: ChatResponse, r2: ChatResponse)
    requires
        r1.choices@.len() > 0,
        r2.choices@.len() > 0,
        r1.choices@[0].message.content == r2.choices@[0].message.content,
    ensures
        reply_of(r1) == reply_of(r2),
{
}

} // verus!

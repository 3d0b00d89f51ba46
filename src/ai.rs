//! The text side of the chat-completion client: the segment records it
//! returns, the prompts it sends, and how a reply is cut down to its answer.
//! Sending the request and decoding JSON happen in the application.
use vstd::prelude::*;
use crate::text::{find_char, trim, trim_str};

verus! {

/// A segment proposed for cutting: start and end time codes, and a description.
#[derive(Debug, Clone)]
pub struct Segment {
    pub start: String,
    pub end: String,
    pub text: String,
}

impl View for Segment {
    type V = (Seq<char>, Seq<char>, Seq<char>);

    open spec fn view(&self) -> (Seq<char>, Seq<char>, Seq<char>) {
        (self.start@, self.end@, self.text@)
    }
}

/// Why a request cannot be sent.
#[derive(Debug, Clone, Copy, PartialEq, Eq)]
pub enum AiError {
    /// No API key was given.
    EmptyApiKey,
}

/// Checks that an API key was given.
pub fn check_api_key(api_key: &str) -> (r: Result<(), AiError>)
    ensures
        r is Ok <==> api_key@.len() > 0,
        r is Err ==> r == Err::<(), AiError>(AiError::EmptyApiKey),
{
    if api_key.unicode_len() == 0 {
        Err(AiError::EmptyApiKey)
    } else {
        Ok(())
    }
}

/// The system message of a segment analysis.
pub fn segments_system_prompt() -> (r: String)
    ensures
        r@ == "You are a professional video editor assistant. Extract interesting segments."@,
{
    String::from_str("You are a professional video editor assistant. Extract interesting segments.")
}

/// The user message of a segment analysis: the instruction, the content, and
/// the JSON shape of the expected answer.
pub fn segments_prompt(prompt: &str, content: &str) -> (r: String)
    ensures
        r@ == prompt@ + "\n\nVideo Content/Context: "@ + content@
            + "\n\nReturn JSON array: [{ \"start\": \"HH:MM:SS,mmm\", \"end\": \"HH:MM:SS,mmm\", \"text\": \"description\" }]"@,
{
    let mut r = String::from_str(prompt);
    r.append("\n\nVideo Content/Context: ");
    r.append(content);
    r.append(
        "\n\nReturn JSON array: [{ \"start\": \"HH:MM:SS,mmm\", \"end\": \"HH:MM:SS,mmm\", \"text\": \"description\" }]",
    );
    r
}

/// The user message of a translation into `target_lang`.
pub fn translate_prompt(text: &str, target_lang: &str) -> (r: String)
    ensures
        r@ == "Translate the following subtitle text to "@ + target_lang@
            + ". Maintain the original tone and SRT formatting style if possible (but just return text).\n\nText:\n"@
            + text@,
{
    let mut r = String::from_str("Translate the following subtitle text to ");
    r.append(target_lang);
    r.append(
        ". Maintain the original tone and SRT formatting style if possible (but just return text).\n\nText:\n",
    );
    r.append(text);
    r
}

/// The user message of a storyboard request for `content`.
pub fn storyboard_prompt(content: &str) -> (r: String)
    ensures
        r@ == "Generate a detailed Midjourney AI drawing prompt based on this text. Describe the scene, lighting, style (Cinematic, 8k). Return ONLY the prompt.\n\nContext:\n"@
            + content@,
{
    let mut r = String::from_str(
        "Generate a detailed Midjourney AI drawing prompt based on this text. Describe the scene, lighting, style (Cinematic, 8k). Return ONLY the prompt.\n\nContext:\n",
    );
    r.append(content);
    r
}

/// The answer of a reply: its content trimmed, or `fallback` when the reply
/// has no text content.
pub fn reply_text(content: Option<&str>, fallback: &str) -> (r: String)
    ensures
        r@ == trim(
            match content {
                Some(c) => c@,
                None => fallback@,
            },
        ),
{
    match content {
        Some(c) => trim_str(c),
        None => trim_str(fallback),
    }
}

/// Where the last `c` stands in `s`, if anywhere.
fn rfind_char(s: &str, c: char) -> (r: Option<usize>)
    ensures
        match r {
            Some(i) => i < s@.len() && s@[i as int] == c && forall|k: int|
                i < k < s@.len() ==> s@[k] != c,
            None => forall|k: int| 0 <= k < s@.len() ==> s@[k] != c,
        },
{
    let mut i: usize = s.unicode_len();
    while i > 0
        invariant
            i <= s@.len(),
            forall|k: int| i <= k < s@.len() ==> s@[k] != c,
        decreases i,
    {
        if s.get_char(i - 1) == c {
            return Some(i - 1);
        }
        i = i - 1;
    }
    None
}

/// The JSON array inside a reply: from its first `[` to its last `]`, both
/// included. A reply without both, or whose last `]` comes before its first
/// `[`, is returned whole.
pub open spec fn json_array_text(s: Seq<char>) -> Seq<char> {
    if exists|i: int| 0 <= i < s.len() && s[i] == '[' {
        let a = choose|i: int| 0 <= i < s.len() && s[i] == '[' && forall|k: int| 0 <= k < i ==> s[k] != '[';
        if exists|j: int| a <= j < s.len() && s[j] == ']' {
            let b = choose|j: int|
                0 <= j < s.len() && s[j] == ']' && forall|k: int| j < k < s.len() ==> s[k] != ']';
            s.subrange(a, b + 1)
        } else {
            s
        }
    } else {
        s
    }
}

/// Cuts a reply that wraps its JSON array in other text (a code fence, a
/// sentence) down to the array.
pub fn extract_json_array(content: &str) -> (r: String)
    ensures
        r@ == json_array_text(content@),
{
    let n = content.unicode_len();
    let a = find_char(content, 0, '[');
    if a == n {
        return String::from_str(content);
    }
    assert(forall|a2: int|
        0 <= a2 < n && content@[a2] == '[' && (forall|k: int| 0 <= k < a2 ==> content@[k] != '[')
            ==> a2 == a);
    match rfind_char(content, ']') {
        Some(b) => {
            if b < a {
                assert(forall|j: int| a <= j < n ==> content@[j] != ']');
                String::from_str(content)
            } else {
                assert(forall|b2: int|
                    0 <= b2 < n && content@[b2] == ']' && (forall|k: int|
                        b2 < k < n ==> content@[k] != ']') ==> b2 == b);
                String::from_str(content.substring_char(a, b + 1))
            }
        },
        None => String::from_str(content),
    }
}

} // verus!

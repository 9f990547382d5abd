//! The scoring call's local rules: which failures are worth retrying, the
//! label each failure is counted under, where the JSON object sits in a
//! model's reply, and which models must not be sent a temperature.

use vstd::prelude::*;

use crate::text::{index_of_first, index_of_last};

verus! {

#[verifier::external_type_specification]
#[verifier::external_body]
pub struct ExImageError(image::ImageError);

/// A scoring failure.
pub enum RefineError {
    /// The image could not be encoded for the request.
    ImageEncoding(image::ImageError),
    /// The completion call failed.
    Completion(String),
    /// No score could be read from the reply.
    ParseScore(String),
}

impl RefineError {
    pub open spec fn spec_label(&self) -> Seq<char> {
        match self {
            RefineError::ImageEncoding(_) => "ImageEncoding"@,
            RefineError::Completion(_) => "Completion"@,
            RefineError::ParseScore(_) => "ParseScore"@,
        }
    }

    /// The label this failure is counted under.
    pub fn as_label(&self) -> (s: &'static str)
        ensures
            s@ == self.spec_label(),
    {
        match self {
            RefineError::ImageEncoding(_) => "ImageEncoding",
            RefineError::Completion(_) => "Completion",
            RefineError::ParseScore(_) => "ParseScore",
        }
    }

    /// Only completion failures are transient and worth retrying: an
    /// encoding failure recurs deterministically, and an unreadable reply
    /// points at the prompt rather than a flake.
    pub fn is_transient(&self) -> (b: bool)
        ensures
            b == (self is Completion),
    {
        match self {
            RefineError::Completion(_) => true,
            _ => false,
        }
    }
}

/// Whether a resilient scoring call produced a real score or fell back
/// after its retries ran out.
#[derive(Debug, Clone, Copy, PartialEq, Eq, Structural)]
pub enum ScoringOutcome {
    Scored,
    FallbackAfterRetries,
}

/// Where the JSON object of a reply starts: its first `{`, else the start.
pub open spec fn json_start(s: Seq<char>) -> int {
    match index_of_first(s, '{') {
        Some(i) => i,
        None => 0,
    }
}

/// Where it ends: just past its last `}`, else the end.
pub open spec fn json_end(s: Seq<char>) -> int {
    match index_of_last(s, '}') {
        Some(j) => j + 1,
        None => s.len() as int,
    }
}

/// The span `(json_start, json_end)` of `text`, by character position.
pub fn json_span(text: &str) -> (r: (usize, usize))
    ensures
        r.0 == json_start(text@),
        r.1 == json_end(text@),
        r.0 <= text@.len(),
        r.1 <= text@.len(),
{
    let start = match crate::text::first_index_of(text, '{') {
        Some(i) => i,
        None => 0,
    };
    let len = text.unicode_len();
    proof {
        crate::text::lemma_index_of_first_found(text@, '{');
        crate::text::lemma_index_of_last_found(text@, '}');
    }
    let end = match crate::text::last_index_of(text, '}') {
        Some(j) => j + 1,
        None => len,
    };
    (start, end)
}

/// The JSON object of a reply: from its first `{` through its last `}`,
/// with either end left open when that brace is missing.
pub fn extract_json(text: &str) -> (r: &str)
    requires
        json_start(text@) <= json_end(text@),
    ensures
        r@ == text@.subrange(json_start(text@), json_end(text@)),
{
    let (start, end) = json_span(text);
    text.substring_char(start, end)
}

/// The code of the ASCII lower-case form of `c`.
pub open spec fn ascii_lower_code(c: char) -> u32 {
    if 'A' <= c && c <= 'Z' {
        (c as u32 + 32) as u32
    } else {
        c as u32
    }
}

/// `s` starts with `prefix`, ignoring ASCII case in `s`.
pub open spec fn starts_with_lowered(s: Seq<char>, prefix: Seq<char>) -> bool {
    prefix.len() <= s.len() && forall|i: int| 0 <= i < prefix.len() ==> ascii_lower_code(#[trigger] s[i]) == prefix[i] as u32
}

fn lower_code(c: char) -> (r: u32)
    ensures
        r == ascii_lower_code(c),
{
    if 'A' <= c && c <= 'Z' {
        (c as u32) + 32
    } else {
        c as u32
    }
}

fn starts_with_lowered_exec(s: &str, prefix: &str) -> (b: bool)
    ensures
        b == starts_with_lowered(s@, prefix@),
{
    let n = s.unicode_len();
    let m = prefix.unicode_len();
    if m > n {
        return false;
    }
    let mut i: usize = 0;
    while i < m
        invariant
            n == s@.len(),
            m == prefix@.len(),
            m <= n,
            i <= m,
            forall|j: int| 0 <= j < i ==> ascii_lower_code(#[trigger] s@[j]) == prefix@[j] as u32,
        decreases m - i,
    {
        if lower_code(s.get_char(i)) != prefix.get_char(i) as u32 {
            return false;
        }
        i = i + 1;
    }
    true
}

/// Whether `model` rejects any non-default temperature, so the field must be
/// left out: the gpt-5 reasoning family (any ASCII case), but not its
/// `gpt-5-chat` variant.
pub fn rejects_custom_temperature(model: &str) -> (b: bool)
    ensures
        b == (starts_with_lowered(model@, "gpt-5"@) && !starts_with_lowered(model@, "gpt-5-chat"@)),
{
    starts_with_lowered_exec(model, "gpt-5") && !starts_with_lowered_exec(model, "gpt-5-chat")
}

} // verus!

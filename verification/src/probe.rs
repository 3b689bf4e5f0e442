//! Classification of a single probe: decoding the bytes read from a
//! candidate address and deciding between a full match, a status-only
//! partial match, and the failure outcomes.

use vstd::prelude::*;
use crate::matching::{
    content_found, content_matches, status_found, status_matches, ContentMatcher,
};

verus! {

/// The verdict of one probe against one address.  Transport failures are
/// folded into outcomes here; nothing propagates as an error.
#[derive(Clone, Copy, PartialEq, Eq, Structural, Debug)]
pub enum ProbeOutcome {
    /// No usable response: transport failure, write failure, empty read,
    /// or a response matching neither condition.
    NoResponse,
    /// Connect or read exceeded the configured timeout.
    TimedOut,
    /// The connection was refused or the address unreachable.
    ConnectionRefused,
    /// The status code matched but the configured content pattern did not.
    PartialMatch,
    /// Both the status code and the (optional) content pattern matched.
    Match { addr: u32, status: u16, content_checked: bool },
}

impl ProbeOutcome {
    /// Whether the outcome is a confirmed match.
    pub open spec fn is_match(self) -> bool {
        self is Match
    }
}

/// The decoded text of `bytes` under lossy UTF-8 decoding.  Stands for
/// `String::from_utf8_lossy`: a function of the bytes alone; invalid
/// sequences are replaced with the replacement character, never rejected.
pub uninterp spec fn utf8_lossy(bytes: Seq<u8>) -> Seq<char>;

/// Relies on `String::from_utf8_lossy` (and `str::chars` to hand the same
/// text back in both forms): tolerant decoding of a response that may hold
/// malformed byte sequences.
#[verifier::external_body]
fn decode_lossy(bytes: &[u8]) -> (r: (String, Vec<char>))
    ensures
        r.0@ == utf8_lossy(bytes@),
        r.1@ == utf8_lossy(bytes@),
{
    let s = String::from_utf8_lossy(bytes).into_owned();
    let chars: Vec<char> = s.chars().collect();
    (s, chars)
}

/// What a successful read classifies to: `Match` when both the status
/// token and the content condition hold of the decoded text, else
/// `PartialMatch` when the status token alone holds, else `NoResponse`.
/// An empty read is `NoResponse` outright.
pub open spec fn classify_spec(
    addr: u32,
    bytes: Seq<u8>,
    status_code: u16,
    matcher: Option<ContentMatcher>,
) -> ProbeOutcome {
    if bytes.len() == 0 {
        ProbeOutcome::NoResponse
    } else {
        let text = utf8_lossy(bytes);
        if status_found(text, status_code) && content_found(matcher, text) {
            ProbeOutcome::Match {
                addr,
                status: status_code,
                content_checked: matcher is Some,
            }
        } else if status_found(text, status_code) {
            ProbeOutcome::PartialMatch
        } else {
            ProbeOutcome::NoResponse
        }
    }
}

/// Classifies the bytes read from `addr`.
pub fn classify_response(
    addr: u32,
    bytes: &[u8],
    status_code: u16,
    matcher: &Option<ContentMatcher>,
) -> (r: ProbeOutcome)
    ensures
        r == classify_spec(addr, bytes@, status_code, *matcher),
{
    if bytes.len() == 0 {
        return ProbeOutcome::NoResponse;
    }
    let (text, text_chars) = decode_lossy(bytes);
    let has_status = status_matches(&text_chars, status_code);
    let has_content = content_matches(matcher, text.as_str());
    if has_status && has_content {
        ProbeOutcome::Match {
            addr,
            status: status_code,
            content_checked: matcher.is_some(),
        }
    } else if has_status {
        ProbeOutcome::PartialMatch
    } else {
        ProbeOutcome::NoResponse
    }
}

/// The read-buffer size for one probe: the full 8192 bytes when content
/// matching is configured or the method reads a body, else 512 bytes,
/// enough for the status line alone.
pub open spec fn buffer_size_spec(wants_body: bool) -> int {
    if wants_body {
        8192
    } else {
        512
    }
}

/// Picks the probe read-buffer size.
pub fn read_buffer_size(wants_body: bool) -> (r: usize)
    ensures
        r == buffer_size_spec(wants_body),
{
    if wants_body {
        8192
    } else {
        512
    }
}

} // verus!

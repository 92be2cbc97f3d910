//! Framing of the connection byte stream: the wire carries concatenated
//! JSON documents with no separator, so the end of a document is found
//! from the JSON grammar itself — brace depth, with braces inside string
//! literals ignored. The grammar has no string escapes, so a backslash
//! inside a string already marks the input as malformed.
use vstd::prelude::*;

use crate::parse::is_ws;

verus! {

/// Where the first complete document of a buffer stands.
#[derive(Debug, Clone, Copy, PartialEq, Eq)]
pub enum FrameResult {
    /// No complete document yet; read more bytes.
    NeedMore,
    /// The first document spans this half-open character range.
    Complete(usize, usize),
    /// The buffer can never frame: it neither is nor can grow into a
    /// stream of documents.
    Malformed,
}

/// The mathematical value of a framing outcome.
pub enum FrameV {
    NeedMore,
    Complete(int, int),
    Malformed,
}

impl View for FrameResult {
    type V = FrameV;

    open spec fn view(&self) -> FrameV {
        match self {
            FrameResult::NeedMore => FrameV::NeedMore,
            FrameResult::Complete(a, b) => FrameV::Complete(*a as int, *b as int),
            FrameResult::Malformed => FrameV::Malformed,
        }
    }
}

/// The framing scan from position `i` on: skipping whitespace between
/// documents, a document starts at a brace and ends where its brace
/// depth returns to zero; a backslash inside a string is malformed.
pub open spec fn frame_from(s: Seq<char>, i: int, start: int, depth: int, in_str: bool) -> FrameV
    decreases s.len() - i,
    when 0 <= i <= s.len()
{
    if i >= s.len() {
        FrameV::NeedMore
    } else {
        let c = s[i];
        if depth == 0 {
            if is_ws(c) {
                frame_from(s, i + 1, 0, 0, false)
            } else if c == '{' {
                frame_from(s, i + 1, i, 1, false)
            } else {
                FrameV::Malformed
            }
        } else if in_str {
            if c == '\\' {
                FrameV::Malformed
            } else {
                frame_from(s, i + 1, start, depth, c != '"')
            }
        } else {
            if c == '"' {
                frame_from(s, i + 1, start, depth, true)
            } else if c == '{' {
                frame_from(s, i + 1, start, depth + 1, false)
            } else if c == '}' {
                if depth == 1 {
                    FrameV::Complete(start, i + 1)
                } else {
                    frame_from(s, i + 1, start, depth - 1, false)
                }
            } else {
                frame_from(s, i + 1, start, depth, false)
            }
        }
    }
}

/// Where the first complete document of the buffer stands.
pub open spec fn frame_spec(s: Seq<char>) -> FrameV {
    frame_from(s, 0, 0, 0, false)
}

/// Finds the first complete document of the buffer: the caller decodes
/// the returned range and keeps the rest of the buffer for the next
/// read.
pub fn frame_document(s: &str) -> (r: FrameResult)
    ensures
        r@ == frame_spec(s@),
{
    let n = s.unicode_len();
    let mut i: usize = 0;
    let mut start: usize = 0;
    let mut depth: usize = 0;
    let mut in_str = false;
    while i < n
        invariant
            i <= n,
            n == s@.len(),
            depth <= i,
            depth == 0 ==> !in_str,
            depth >= 1 ==> start < i,
            frame_spec(s@) == frame_from(s@, i as int, start as int, depth as int, in_str),
        decreases n - i,
    {
        let c = s.get_char(i);
        proof {
            reveal_with_fuel(frame_from, 2);
        }
        if depth == 0 {
            if c == ' ' || c == '\t' || c == '\n' || c == '\r' {
            } else if c == '{' {
                start = i;
                depth = 1;
            } else {
                return FrameResult::Malformed;
            }
        } else if in_str {
            if c == '\\' {
                return FrameResult::Malformed;
            }
            if c == '"' {
                in_str = false;
            }
        } else {
            if c == '"' {
                in_str = true;
            } else if c == '{' {
                depth = depth + 1;
            } else if c == '}' {
                if depth == 1 {
                    return FrameResult::Complete(start, i + 1);
                }
                depth = depth - 1;
            }
        }
        i += 1;
    }
    FrameResult::NeedMore
}

} // verus!

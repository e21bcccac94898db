//! The interactive second-factor prompt.
//!
//! The blocking read of the operator's line — echo off, prompt text on
//! the output stream — is the surrounding binary's job.  This module owns
//! the decision part: trimming the raw line and deciding whether a usable
//! one-time code was obtained at all.

use vstd::prelude::*;

verus! {

/// Bytes stripped from the end of the operator's line: space, tab,
/// carriage return and line feed.
pub open spec fn is_trailing_ws(b: u8) -> bool {
    b == 32 || b == 9 || b == 13 || b == 10
}

/// The operator's line with all trailing whitespace and line-break bytes
/// removed.
pub open spec fn spec_trim_trailing(s: Seq<u8>) -> Seq<u8>
    decreases s.len(),
{
    if s.len() > 0 && is_trailing_ws(s.last()) {
        spec_trim_trailing(s.drop_last())
    } else {
        s
    }
}

/// The raw outcome of reading one line; `None` stands for an input
/// stream that is closed or unreadable.
pub open spec fn spec_line(line: Option<Vec<u8>>) -> Option<Seq<u8>> {
    match line {
        Some(l) => Some(l@),
        None => None,
    }
}

/// The one-time code a read line yields: the trimmed line when it is
/// non-empty, nothing when the stream was closed or only whitespace was
/// entered.
pub open spec fn spec_code_of_line(line: Option<Seq<u8>>) -> Option<Seq<u8>> {
    match line {
        None => None,
        Some(l) => if spec_trim_trailing(l).len() == 0 {
            None
        } else {
            Some(spec_trim_trailing(l))
        },
    }
}

/// Removes trailing whitespace and line-break bytes from a raw line.
pub fn trim_trailing(line: Vec<u8>) -> (out: Vec<u8>)
    ensures
        out@ == spec_trim_trailing(line@),
{
    let ghost orig = line@;
    let mut v = line;
    loop
        invariant
            spec_trim_trailing(v@) == spec_trim_trailing(orig),
        ensures
            spec_trim_trailing(v@) == spec_trim_trailing(orig),
            v@.len() == 0 || !is_trailing_ws(v@.last()),
        decreases v@.len(),
    {
        if v.len() == 0 {
            break;
        }
        let b = v[v.len() - 1];
        if !(b == 32 || b == 9 || b == 13 || b == 10) {
            break;
        }
        proof {
            assert(v@.last() == b);
            assert(v@.subrange(0, v@.len() - 1) =~= v@.drop_last());
        }
        v.pop();
    }
    v
}

/// Turns the raw outcome of the blocking read into the one-time code.
/// `None` comes back exactly when the stream was closed or the line
/// trimmed to nothing; a returned code is never empty.
pub fn code_of_line(line: Option<Vec<u8>>) -> (r: Option<Vec<u8>>)
    ensures
        match r {
            Some(code) => spec_code_of_line(spec_line(line)) == Some(code@) && code@.len() > 0,
            None => spec_code_of_line(spec_line(line)) is None,
        },
{
    match line {
        None => None,
        Some(l) => {
            let trimmed = trim_trailing(l);
            if trimmed.len() == 0 {
                None
            } else {
                Some(trimmed)
            }
        },
    }
}

} // verus!

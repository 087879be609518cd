use vstd::prelude::*;
use crate::text::{chars_of, first_nl, lemma_first_nl, push_text, slice_chars, string_of_chars};

verus! {

/// The largest payload, in characters, that a peer may send in one line.
pub const MAX_LINE: usize = 1048576;

/// Failures of the line framing.
#[derive(Clone, Copy, Debug, PartialEq, Eq, Structural)]
pub enum FrameError {
    /// A payload holds a line feed and cannot travel as one line.
    EmbeddedNewline,
    /// A line runs past the bound before its line feed.
    OversizedRequest,
}

/// Whether a payload holds no line feed.
pub open spec fn one_line(p: Seq<char>) -> bool {
    forall|i: int| 0 <= i < p.len() ==> #[trigger] p[i] != '\n'
}

/// The line that carries a payload: the payload, then a line feed.
pub open spec fn framed(p: Seq<char>) -> Seq<char> {
    p + seq!['\n']
}

/// The payload of the first line of `buf`: what precedes its first line
/// feed (or all of `buf` when the peer closed without one), if at most
/// `max` characters long.
pub open spec fn unframed(buf: Seq<char>, max: nat) -> Result<Seq<char>, FrameError> {
    if first_nl(buf) > max {
        Err(FrameError::OversizedRequest)
    } else {
        Ok(buf.subrange(0, first_nl(buf) as int))
    }
}

/// Frames a payload as one newline-terminated line.
pub fn frame_line(payload: &String) -> (r: Result<String, FrameError>)
    ensures
        match r {
            Ok(l) => one_line(payload@) && l@ == framed(payload@),
            Err(e) => !one_line(payload@) && e == FrameError::EmbeddedNewline,
        },
{
    let chars = chars_of(payload.as_str());
    let mut i: usize = 0;
    while i < chars.len()
        invariant
            i <= chars@.len(),
            chars@ == payload@,
            forall|j: int| 0 <= j < i ==> chars@[j] != '\n',
        decreases chars@.len() - i,
    {
        if chars[i] == '\n' {
            return Err(FrameError::EmbeddedNewline);
        }
        i = i + 1;
    }
    let mut l = payload.clone();
    push_text(&mut l, "\n");
    proof {
        reveal_strlit("\n");
    }
    assert(l@ =~= framed(payload@));
    Ok(l)
}

/// Reads the payload of the first line that a peer sent.
pub fn read_frame(buf: &String, max: usize) -> (r: Result<String, FrameError>)
    ensures
        match r {
            Ok(p) => unframed(buf@, max as nat) == Ok::<Seq<char>, FrameError>(p@),
            Err(e) => unframed(buf@, max as nat) == Err::<Seq<char>, FrameError>(e),
        },
{
    let chars = chars_of(buf.as_str());
    let n = chars.len();
    let mut i: usize = 0;
    while i < n && chars[i] != '\n'
        invariant
            i <= n == chars@.len(),
            chars@ == buf@,
            forall|j: int| 0 <= j < i ==> chars@[j] != '\n',
        decreases n - i,
    {
        i = i + 1;
    }
    proof {
        lemma_first_nl(chars@, i as int);
    }
    if i > max {
        return Err(FrameError::OversizedRequest);
    }
    Ok(string_of_chars(&slice_chars(&chars, 0, i)))
}

/// A payload that holds no line feed and fits the bound comes back
/// unchanged from its framed line.
pub proof fn lemma_frame_round_trip(p: Seq<char>, max: nat)
    requires
        one_line(p),
        p.len() <= max,
    ensures
        unframed(framed(p), max) == Ok::<Seq<char>, FrameError>(p),
{
    let l = framed(p);
    assert forall|j: int| 0 <= j < p.len() implies l[j] != '\n' by {
        assert(l[j] == p[j]);
    }
    lemma_first_nl(l, p.len() as int);
    assert(l.subrange(0, p.len() as int) =~= p);
}

} // verus!

//! Spans: borrowed views into the input buffer.

use vstd::prelude::*;

verus! {

/// A contiguous region of the input buffer, as a start offset and a length.
///
/// The parser copies no input text. Every parsed field — method, URI,
/// version, header keys and values, body — is a `Span` that resolves
/// against the single buffer the parse started from.
#[derive(Clone, Copy, Debug, PartialEq, Eq, Structural)]
pub struct Span {
    pub start: usize,
    pub len: usize,
}

/// What a real buffer can hold: the length of any byte slice's view fits
/// in `usize`.
pub broadcast proof fn lemma_slice_len_bound(s: &[u8])
    ensures
        #[trigger] s@.len() <= usize::MAX,
{
    broadcast use vstd::slice::axiom_spec_len;

    assert(vstd::slice::spec_slice_len(s) == s@.len());
}

/// The span lies inside a buffer of `n` bytes.
pub open spec fn span_in_bounds(s: Span, n: int) -> bool {
    s.start + s.len <= n
}

/// The bytes the span denotes within the buffer `input`.
pub open spec fn span_bytes(input: Seq<u8>, s: Span) -> Seq<u8>
    recommends
        span_in_bounds(s, input.len() as int),
{
    input.subrange(s.start as int, s.start + s.len)
}

/// `t` occurs verbatim in `buf`: it is some contiguous run of its bytes.
pub open spec fn is_verbatim_slice(buf: Seq<u8>, t: Seq<u8>) -> bool {
    exists|i: int|
        0 <= i && i + t.len() <= buf.len() && t == #[trigger] buf.subrange(i, i + t.len())
}

/// A span within bounds always denotes a verbatim run of the buffer.
pub proof fn lemma_span_bytes_verbatim(input: Seq<u8>, s: Span)
    requires
        span_in_bounds(s, input.len() as int),
    ensures
        is_verbatim_slice(input, span_bytes(input, s)),
{
    assert(0 <= s.start as int && s.start + span_bytes(input, s).len() <= input.len());
}

} // verus!

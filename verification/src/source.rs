//! Source locations.

use vstd::prelude::*;
use vstd::string::StringSliceAdditionalSpecFns;

verus! {

/// Identifies a document that was loaded.
#[derive(Clone, Copy, Debug, PartialEq, Eq, Structural)]
pub struct DocId(pub u32);

/// A byte range in a document: `len` bytes starting at byte offset `start`.
#[derive(Clone, Copy, Debug, PartialEq, Eq, Structural)]
pub struct Span {
    pub doc: DocId,
    pub start: usize,
    pub len: usize,
}

/// The bytes of `input` that `span` covers.
pub open spec fn span_bytes(input: Seq<u8>, span: Span) -> Seq<u8> {
    input.subrange(span.start as int, span.start + span.len)
}

/// Whether `span` lies inside `input` and starts and ends on a character
/// boundary, so that it can be resolved.
pub open spec fn span_fits(input: Seq<u8>, span: Span) -> bool {
    &&& span.start + span.len <= input.len()
    &&& vstd::utf8::is_char_boundary(input, span.start as int)
    &&& vstd::utf8::is_char_boundary(input, span.start + span.len)
}

/// A character boundary of `bytes` at `start + k` is one of the suffix that
/// starts at the boundary `start`.
proof fn lemma_boundary_in_suffix(bytes: Seq<u8>, start: int, k: int)
    requires
        vstd::utf8::valid_utf8(bytes),
        0 <= k,
        start + k <= bytes.len(),
        vstd::utf8::is_char_boundary(bytes, start),
        vstd::utf8::is_char_boundary(bytes, start + k),
    ensures
        vstd::utf8::valid_utf8(bytes.subrange(start, bytes.len() as int)),
        vstd::utf8::is_char_boundary(bytes.subrange(start, bytes.len() as int), k),
{
    let tail = bytes.subrange(start, bytes.len() as int);
    vstd::utf8::valid_utf8_split(bytes, start);
    if k == tail.len() {
        vstd::utf8::is_char_boundary_start_end_of_seq(tail);
    } else if k > 0 {
        vstd::utf8::is_char_boundary_iff_not_is_continuation_byte(bytes, start + k);
        vstd::utf8::is_char_boundary_iff_not_is_continuation_byte(tail, k);
        assert(tail[k] == bytes[start + k]);
    }
}

impl Span {
    /// Return the slice of `input` that this span covers.
    pub fn resolve<'b>(&self, input: &'b str) -> (r: &'b str)
        requires
            span_fits(input.spec_bytes(), *self),
        ensures
            r.spec_bytes() == span_bytes(input.spec_bytes(), *self),
    {
        let (_, tail) = input.split_at(self.start);
        proof {
            let b = input.spec_bytes();
            vstd::utf8::encode_utf8_valid_utf8(input@);
            assert(tail.spec_bytes() =~= b.subrange(self.start as int, b.len() as int));
            lemma_boundary_in_suffix(b, self.start as int, self.len as int);
        }
        let (mid, _) = tail.split_at(self.len);
        proof {
            let b = input.spec_bytes();
            assert(mid.spec_bytes() =~= span_bytes(b, *self));
        }
        mid
    }
}

} // verus!

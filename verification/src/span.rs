//! Parts of a source text, given by where they lie in it.
use vstd::prelude::*;
use vstd::string::StringSliceAdditionalSpecFns;
use vstd::utf8::is_char_boundary;

verus! {

/// A part of a source text: the byte it starts at and its length in bytes.
#[derive(Debug, PartialEq, Eq, Clone, Copy, Structural)]
pub struct Span {
    pub start: usize,
    pub len: usize,
}

/// The part of `src` from the start of `left` to the end of `right`. Both
/// spans lie in `src`, `left` starts no later than `right` ends, and both
/// ends fall on character boundaries.
pub fn span_from_spans<'a>(src: &'a str, left: Span, right: Span) -> (span: &'a str)
    requires
        left.start <= src.spec_bytes().len(),
        right.start + right.len <= src.spec_bytes().len(),
        left.start <= right.start + right.len,
        is_char_boundary(src.spec_bytes(), left.start as int),
        is_char_boundary(src.spec_bytes(), right.start + right.len),
    ensures
        span.spec_bytes() == src.spec_bytes().subrange(
            left.start as int,
            right.start + right.len,
        ),
{
    let n = src.as_bytes().len();
    proof {
        assert(n == src.spec_bytes().len());
    }
    let end = right.start + right.len;
    let (head, _) = src.split_at(end);
    proof {
        vstd::utf8::encode_utf8_valid_utf8(src@);
        vstd::utf8::encode_utf8_valid_utf8(head@);
        assert(head.spec_bytes() =~= src.spec_bytes().subrange(0, end as int));
        assert(is_char_boundary(head.spec_bytes(), left.start as int)) by {
            lemma_boundary_prefix(src.spec_bytes(), end as int, left.start as int);
        }
    }
    let (_, span) = head.split_at(left.start);
    proof {
        assert(span.spec_bytes() =~= src.spec_bytes().subrange(left.start as int, end as int));
    }
    span
}

/// A character boundary of a text is one of any prefix that reaches it.
proof fn lemma_boundary_prefix(bytes: Seq<u8>, end: int, index: int)
    requires
        vstd::utf8::valid_utf8(bytes),
        0 <= index <= end <= bytes.len(),
        is_char_boundary(bytes, end),
        is_char_boundary(bytes, index),
    ensures
        vstd::utf8::valid_utf8(bytes.subrange(0, end)),
        is_char_boundary(bytes.subrange(0, end), index),
{
    vstd::utf8::valid_utf8_split(bytes, end);
    let prefix = bytes.subrange(0, end);
    if index < end {
        vstd::utf8::is_char_boundary_iff_not_is_continuation_byte(bytes, index);
        vstd::utf8::is_char_boundary_iff_not_is_continuation_byte(prefix, index);
        assert(prefix[index] == bytes[index]);
    } else {
        vstd::utf8::is_char_boundary_start_end_of_seq(prefix);
    }
}

} // verus!

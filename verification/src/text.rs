use crate::span::Span;
use vstd::prelude::*;
use vstd::utf8::*;
use vstd::string::*;

verus! {

broadcast use vstd::utf8::group_utf8_lib;

/// `index` lies on a character boundary of the UTF-8 text `bytes`: it is the
/// end of the text, or the byte there is no continuation byte.
pub open spec fn on_boundary(bytes: Seq<u8>, index: int) -> bool {
    0 <= index <= bytes.len() && (index < bytes.len() ==> !is_continuation_byte(bytes[index]))
}

/// In UTF-8 text the positions that `on_boundary` accepts are the character boundaries.
pub proof fn lemma_on_boundary(bytes: Seq<u8>, index: int)
    requires
        valid_utf8(bytes),
        on_boundary(bytes, index),
    ensures
        is_char_boundary(bytes, index),
{
    if index < bytes.len() {
        is_char_boundary_iff_not_is_continuation_byte(bytes, index);
    } else {
        is_char_boundary_start_end_of_seq(bytes);
    }
}

/// In UTF-8 text a character starts right after every ASCII byte.
pub proof fn lemma_boundary_after_ascii(bytes: Seq<u8>, index: int)
    requires
        valid_utf8(bytes),
        0 <= index < bytes.len(),
        bytes[index] < 0x80,
    ensures
        on_boundary(bytes, index + 1),
{
    lemma_on_boundary(bytes, index);
    valid_utf8_split(bytes, index);
    let tail = bytes.subrange(index, bytes.len() as int);
    let rest = pop_first_scalar(tail);
    assert(valid_utf8(rest));
}

/// The part of `source` between two character boundaries.
pub fn slice<'a>(source: &'a str, start: usize, end: usize) -> (part: &'a str)
    requires
        start <= end,
        on_boundary(source.spec_bytes(), start as int),
        on_boundary(source.spec_bytes(), end as int),
    ensures
        part.spec_bytes() == source.spec_bytes().subrange(start as int, end as int),
        part@ == decode_utf8(source.spec_bytes().subrange(start as int, end as int)),
{
    proof {
        lemma_on_boundary(source.spec_bytes(), end as int);
    }
    let (head, _) = source.split_at(end);
    proof {
        lemma_on_boundary(head.spec_bytes(), start as int);
    }
    let (_, part) = head.split_at(start);
    part
}

/// The span cuts a piece out of the text: it lies inside it, and both of
/// its ends on character boundaries.
pub open spec fn cuts(bytes: Seq<u8>, span: Span) -> bool {
    span.within(bytes.len()) && on_boundary(bytes, span.start as int) && on_boundary(
        bytes,
        span.end as int,
    )
}

/// The piece of the text that the span cuts out; nothing where it cuts none.
pub open spec fn excerpt(bytes: Seq<u8>, span: Span) -> Seq<char> {
    if cuts(bytes, span) {
        decode_utf8(bytes.subrange(span.start as int, span.end as int))
    } else {
        Seq::empty()
    }
}

/// Whether a character starts at `index`, or the text ends there.
pub fn boundary(bytes: &[u8], index: usize) -> (r: bool)
    ensures
        r == on_boundary(bytes@, index as int),
{
    index == bytes.len() || (index < bytes.len() && !(0x80 <= bytes[index] && bytes[index]
        <= 0xbf))
}

/// The piece of `source` that `span` cuts out; the empty text where it cuts none.
pub fn take_excerpt<'a>(source: &'a str, span: Span) -> (part: &'a str)
    ensures
        part@ == excerpt(source.spec_bytes(), span),
{
    let bytes = source.as_bytes();
    if span.start <= span.end && boundary(bytes, span.start) && boundary(bytes, span.end) {
        slice(source, span.start, span.end)
    } else {
        proof {
            reveal_strlit("");
        }
        ""
    }
}

/// Whether two texts hold the same characters.
pub fn same_text(a: &str, b: &str) -> (same: bool)
    ensures
        same == (a@ == b@),
{
    let x = a.as_bytes();
    let y = b.as_bytes();
    proof {
        // texts with the same bytes hold the same characters, and the reverse
        assert(decode_utf8(encode_utf8(a@)) == a@);
    }
    if x.len() != y.len() {
        return false;
    }
    let mut i: usize = 0;
    while i < x.len()
        invariant
            x@ == encode_utf8(a@),
            y@ == encode_utf8(b@),
            x.len() == y.len(),
            i <= x.len(),
            forall|k: int| 0 <= k < i ==> x@[k] == y@[k],
        decreases x.len() - i,
    {
        if x[i] != y[i] {
            return false;
        }
        i += 1;
    }
    assert(x@ =~= y@);
    true
}

} // verus!

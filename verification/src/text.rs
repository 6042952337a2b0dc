//! Byte-level helpers on UTF-8 text.

use vstd::prelude::*;
use vstd::string::StringSliceAdditionalSpecFns;
use vstd::utf8::*;

verus! {

/// The byte length of the UTF-8 encoding of `s`.
pub open spec fn byte_len(s: Seq<char>) -> nat {
    encode_utf8(s).len()
}

/// The largest character boundary of `bytes` that does not exceed `max`.
pub open spec fn floor_boundary(bytes: Seq<u8>, max: int) -> int
    decreases max,
{
    if max <= 0 || is_char_boundary(bytes, max) {
        max
    } else {
        floor_boundary(bytes, max - 1)
    }
}

/// What `shorten_string` keeps of `s`: all of it when it fits in `max` bytes,
/// otherwise the longest prefix that ends on a character boundary and
/// holds at most `max` bytes.
pub open spec fn shortened(s: Seq<char>, max: int) -> Seq<char> {
    let bytes = encode_utf8(s);
    if bytes.len() <= max {
        s
    } else {
        decode_utf8(bytes.subrange(0, floor_boundary(bytes, max)))
    }
}

/// `floor_boundary` is a boundary within `0..=max`, and no boundary lies
/// strictly between it and `max`.
pub proof fn lemma_floor_boundary(bytes: Seq<u8>, max: int)
    requires
        valid_utf8(bytes),
        0 <= max,
    ensures
        0 <= floor_boundary(bytes, max) <= max,
        is_char_boundary(bytes, floor_boundary(bytes, max)),
        forall|k: int|
            floor_boundary(bytes, max) < k <= max ==> !is_char_boundary(bytes, k),
    decreases max,
{
    if max <= 0 || is_char_boundary(bytes, max) {
    } else {
        lemma_floor_boundary(bytes, max - 1);
    }
}

/// The encoding of a concatenation is the concatenation of the encodings.
pub proof fn lemma_encode_concat(a: Seq<char>, b: Seq<char>)
    ensures
        encode_utf8(a + b) == encode_utf8(a) + encode_utf8(b),
    decreases a.len(),
{
    if a.len() == 0 {
        assert(a + b =~= b);
        assert(encode_utf8(a) + encode_utf8(b) =~= encode_utf8(b));
    } else {
        lemma_encode_concat(a.drop_first(), b);
        assert((a + b).drop_first() =~= a.drop_first() + b);
        assert(encode_utf8(a + b) =~= encode_utf8(a) + encode_utf8(b));
    }
}

/// Text that is not empty takes at least one byte.
pub proof fn lemma_encode_nonempty(s: Seq<char>)
    requires
        s.len() > 0,
    ensures
        byte_len(s) > 0,
{
    assert(encode_scalar(s[0] as u32).len() > 0);
}

/// The end of every prefix of a text is a character boundary of its bytes.
pub proof fn lemma_prefix_boundary(s: Seq<char>, m: int)
    requires
        0 <= m <= s.len(),
    ensures
        is_char_boundary(encode_utf8(s), byte_len(s.take(m)) as int),
        byte_len(s.take(m)) <= byte_len(s),
    decreases m,
{
    broadcast use group_utf8_lib;

    let bytes = encode_utf8(s);
    if m == 0 {
        assert(s.take(0) =~= Seq::<char>::empty());
    } else {
        let rest = s.drop_first();
        let head = encode_scalar(s[0] as u32);
        encode_utf8_first_scalar(s);
        assert(pop_first_scalar(bytes) =~= encode_utf8(rest));
        lemma_prefix_boundary(rest, m - 1);
        assert(s.take(m).drop_first() =~= rest.take(m - 1));
        assert(s.take(m)[0] == s[0]);
        assert(encode_utf8(s.take(m)) =~= head + encode_utf8(rest.take(m - 1)));
        assert(head.len() > 0);
        assert(bytes =~= head + encode_utf8(rest));
    }
}

/// What `shorten_string` keeps is the longest prefix of the text that fits
/// in the bound: it is a prefix, it takes at most `max` bytes, and every
/// longer prefix takes more.
pub proof fn lemma_shortened_longest_prefix(s: Seq<char>, max: int)
    requires
        0 <= max,
    ensures
        shortened(s, max).len() <= s.len(),
        shortened(s, max) == s.take(shortened(s, max).len() as int),
        byte_len(shortened(s, max)) <= max,
        forall|m: int|
            shortened(s, max).len() < m <= s.len() ==> byte_len(#[trigger] s.take(m)) > max,
{
    broadcast use group_utf8_lib;

    let bytes = encode_utf8(s);
    let kept = shortened(s, max);
    if bytes.len() <= max {
        assert(s.take(s.len() as int) =~= s);
    } else {
        let k = floor_boundary(bytes, max);
        lemma_floor_boundary(bytes, max);
        let head = bytes.subrange(0, k);
        let tail = bytes.subrange(k, bytes.len() as int);
        assert(decode_utf8(bytes) =~= decode_utf8(head) + decode_utf8(tail));
        assert(decode_utf8(bytes) == s);
        assert(s =~= kept + decode_utf8(tail));
        assert(kept =~= s.take(kept.len() as int));
        assert(encode_utf8(kept) == head);
        assert forall|m: int| kept.len() < m <= s.len() implies byte_len(#[trigger] s.take(m))
            > max by {
            let more = s.subrange(kept.len() as int, m);
            assert(s.take(m) =~= kept + more);
            lemma_encode_concat(kept, more);
            lemma_encode_nonempty(more);
            lemma_prefix_boundary(s, m);
        }
    }
}

/// The number of bytes that `s` occupies.
pub fn byte_length(s: &str) -> (n: usize)
    ensures
        n == byte_len(s@),
{
    s.as_bytes().len()
}

/// Cuts `s` down to at most `max_length` bytes without splitting a character.
pub fn shorten_string(s: &str, max_length: usize) -> (r: &str)
    ensures
        r@ == shortened(s@, max_length as int),
        byte_len(r@) <= max_length,
        byte_len(r@) <= byte_len(s@),
{
    broadcast use group_utf8_lib;

    if byte_length(s) <= max_length {
        return s;
    }
    let ghost bytes = s.spec_bytes();
    let mut end: usize = max_length;
    while !s.is_char_boundary(end)
        invariant
            bytes == s.spec_bytes(),
            valid_utf8(bytes),
            end <= max_length < bytes.len(),
            floor_boundary(bytes, end as int) == floor_boundary(bytes, max_length as int),
        decreases end,
    {
        end -= 1;
    }
    let (head, _) = s.split_at(end);
    proof {
        lemma_floor_boundary(bytes, max_length as int);
        assert(encode_utf8(head@) == bytes.subrange(0, end as int));
        assert(decode_utf8(encode_utf8(head@)) == head@);
    }
    head
}

} // verus!

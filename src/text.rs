//! Splitting string slices at character positions in constant time, with the
//! UTF-8 facts that make each split valid.
use vstd::prelude::*;
use vstd::string::StringSliceAdditionalSpecFns;
use vstd::utf8::{
    decode_utf8, encode_scalar, encode_utf8, encode_utf8_decode_utf8, encode_utf8_first_scalar,
    encode_utf8_valid_utf8, is_char_boundary, length_of_first_scalar, pop_first_scalar,
};

verus! {

broadcast use {encode_utf8_decode_utf8, encode_utf8_valid_utf8};

/// Relies on `char::len_utf8`: the number of bytes of the character's UTF-8
/// encoding.
#[verifier::external_body]
fn char_width(c: char) -> (r: usize)
    ensures
        r == encode_scalar(c as u32).len(),
{
    c.len_utf8()
}

/// Encoding a concatenation concatenates the encodings.
pub proof fn lemma_encode_concat(a: Seq<char>, b: Seq<char>)
    ensures
        encode_utf8(a + b) == encode_utf8(a) + encode_utf8(b),
    decreases a.len(),
{
    if a.len() > 0 {
        assert((a + b).drop_first() =~= a.drop_first() + b);
        lemma_encode_concat(a.drop_first(), b);
        assert(encode_utf8(a + b) =~= encode_utf8(a) + encode_utf8(b));
    } else {
        assert(a + b =~= b);
        assert(encode_utf8(a) + encode_utf8(b) =~= encode_utf8(b));
    }
}

/// The end of the encoding of `a` is a character boundary of the encoding of `a + b`.
pub proof fn lemma_char_boundary_prefix(a: Seq<char>, b: Seq<char>)
    ensures
        is_char_boundary(encode_utf8(a + b), encode_utf8(a).len() as int),
    decreases a.len(),
{
    let bytes = encode_utf8(a + b);
    lemma_encode_concat(a, b);
    if a.len() > 0 {
        encode_utf8_first_scalar(a + b);
        let width = length_of_first_scalar(bytes);
        assert((a + b)[0] == a[0]);
        assert((a + b).drop_first() =~= a.drop_first() + b);
        assert(pop_first_scalar(bytes) =~= encode_utf8(a.drop_first() + b));
        lemma_char_boundary_prefix(a.drop_first(), b);
        assert(encode_utf8(a).len() - width == encode_utf8(a.drop_first()).len());
    }
}

/// Splitting the encoding of `s` after its first `k` characters.
pub proof fn lemma_split_point(s: Seq<char>, k: int)
    requires
        0 <= k <= s.len(),
    ensures
        is_char_boundary(encode_utf8(s), encode_utf8(s.take(k)).len() as int),
        encode_utf8(s).subrange(0, encode_utf8(s.take(k)).len() as int) == encode_utf8(s.take(k)),
        encode_utf8(s).subrange(encode_utf8(s.take(k)).len() as int, encode_utf8(s).len() as int)
            == encode_utf8(s.skip(k)),
        encode_utf8(s).len() == encode_utf8(s.take(k)).len() + encode_utf8(s.skip(k)).len(),
{
    assert(s =~= s.take(k) + s.skip(k));
    lemma_encode_concat(s.take(k), s.skip(k));
    lemma_char_boundary_prefix(s.take(k), s.skip(k));
    assert(encode_utf8(s).subrange(0, encode_utf8(s.take(k)).len() as int) =~= encode_utf8(
        s.take(k),
    ));
    assert(encode_utf8(s).subrange(
        encode_utf8(s.take(k)).len() as int,
        encode_utf8(s).len() as int,
    ) =~= encode_utf8(s.skip(k)));
}

/// Two slices with the same encoding hold the same characters.
proof fn lemma_same_encoding(x: &str, y: Seq<char>)
    requires
        x.spec_bytes() == encode_utf8(y),
    ensures
        x@ == y,
{
    assert(decode_utf8(encode_utf8(x@)) == decode_utf8(encode_utf8(y)));
}

/// Splits `s` after its first `k` characters, where `width` is the length in
/// bytes of those characters.
pub(crate) fn split_chars<'a>(s: &'a str, width: usize, Ghost(k): Ghost<int>) -> (r: (&'a str, &'a str))
    requires
        0 <= k <= s@.len(),
        width == encode_utf8(s@.take(k)).len(),
    ensures
        r.0@ == s@.take(k),
        r.1@ == s@.skip(k),
{
    proof {
        lemma_split_point(s@, k);
    }
    let r = s.split_at(width);
    proof {
        lemma_same_encoding(r.0, s@.take(k));
        lemma_same_encoding(r.1, s@.skip(k));
    }
    r
}

/// The first character of a nonempty slice and the slice after it.
pub(crate) fn split_first_char<'a>(s: &'a str) -> (r: (char, &'a str))
    requires
        s@.len() > 0,
    ensures
        r.0 == s@[0],
        r.1@ == s@.drop_first(),
{
    let c = s.get_char(0);
    let width = char_width(c);
    proof {
        assert(s@.take(1).drop_first() =~= Seq::<char>::empty());
        assert(encode_utf8(s@.take(1).drop_first()) =~= Seq::<u8>::empty());
        assert(s@.take(1)[0] == c);
        assert(encode_utf8(s@.take(1)) =~= encode_scalar(c as u32));
    }
    let (_, rest) = split_chars(s, width, Ghost(1));
    proof {
        assert(s@.skip(1) =~= s@.drop_first());
    }
    (c, rest)
}

} // verus!

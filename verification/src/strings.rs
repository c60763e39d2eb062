use vstd::prelude::*;
use vstd::string::StringSliceAdditionalSpecFns;
use vstd::string::StringExecFns;
use vstd::utf8::{
    decode_utf8, decode_utf8_split, encode_utf8, encode_utf8_decode_utf8,
    encode_utf8_valid_utf8, is_ascii_chars, is_ascii_chars_encode_utf8,
    is_char_boundary_iff_not_is_continuation_byte,
};

verus! {

/// The byte that ends a word.
pub const SPACE: u8 = 0x20;

/// The byte that ends a sentence.
pub const FULL_STOP: u8 = 0x2e;

/// The length of a string in bytes of its UTF-8 encoding. For a string of
/// ASCII characters that is the number of its characters.
pub fn calculate_length(s: &String) -> (n: usize)
    ensures
        n == encode_utf8(s@).len(),
        is_ascii_chars(s@) ==> n == s@.len(),
{
    proof {
        if is_ascii_chars(s@) {
            is_ascii_chars_encode_utf8(s@);
        }
    }
    s.as_str().as_bytes().len()
}

/// Appends the signature to the string, which is otherwise left as it was.
pub fn change(s: &mut String)
    ensures
        final(s)@ == old(s)@ + ", Master    https://linktr.ee/cryptomastertime"@,
{
    s.append(", Master    https://linktr.ee/cryptomastertime");
}

/// The longer of two strings, by their length in bytes; the second one where
/// neither is longer.
pub fn longest<'a>(x: &'a str, y: &'a str) -> (r: &'a str)
    ensures
        r == if encode_utf8(x@).len() > encode_utf8(y@).len() {
            x
        } else {
            y
        },
{
    if x.as_bytes().len() > y.as_bytes().len() {
        x
    } else {
        y
    }
}

/// Whether the first `n` bytes of `bytes` are all that comes before the
/// first occurrence of `stop`: none of them is `stop`, and they end at a
/// `stop` byte or at the end of `bytes`.
pub open spec fn ends_before(bytes: Seq<u8>, stop: u8, n: int) -> bool {
    &&& 0 <= n <= bytes.len()
    &&& forall|j: int| 0 <= j < n ==> bytes[j] != stop
    &&& n == bytes.len() || bytes[n] == stop
}

/// Only one length ends before the first `stop` byte.
pub proof fn lemma_ends_before_unique(bytes: Seq<u8>, stop: u8, n: int, m: int)
    requires
        ends_before(bytes, stop, n),
        ends_before(bytes, stop, m),
    ensures
        n == m,
{
}

/// The part of `s` before the first occurrence of the byte `stop`, or all
/// of `s` where `stop` does not occur. `stop` is an ASCII byte, so that the
/// cut falls between two characters and the result is a run of whole
/// characters from the start of `s`.
pub fn prefix_before<'a>(s: &'a str, stop: u8) -> (r: &'a str)
    requires
        stop < 0x80,
    ensures
        ends_before(encode_utf8(s@), stop, encode_utf8(r@).len() as int),
        encode_utf8(r@) == encode_utf8(s@).take(encode_utf8(r@).len() as int),
        r@.len() <= s@.len(),
        r@ == s@.take(r@.len() as int),
{
    let bytes = s.as_bytes();
    let mut i: usize = 0;
    while i < bytes.len()
        invariant
            stop < 0x80,
            bytes@ == encode_utf8(s@),
            i <= bytes@.len(),
            forall|j: int| 0 <= j < i ==> bytes@[j] != stop,
        decreases bytes@.len() - i,
    {
        let b: u8 = bytes[i];
        if b == stop {
            proof {

                encode_utf8_valid_utf8(s@);
                is_char_boundary_iff_not_is_continuation_byte(bytes@, i as int);
            }
            let (head, _) = s.split_at(i);
            assert(encode_utf8(head@) =~= bytes@.take(i as int));
            proof {
                let tail = bytes@.subrange(i as int, bytes@.len() as int);
                decode_utf8_split(bytes@, i as int);
                encode_utf8_decode_utf8(s@);
                encode_utf8_decode_utf8(head@);
                assert(bytes@.subrange(0, i as int) =~= encode_utf8(head@));
                assert(s@ =~= head@ + decode_utf8(tail));
                assert(head@ =~= s@.take(head@.len() as int));
            }
            return head;
        }
        i += 1;
    }
    assert(encode_utf8(s@).take(encode_utf8(s@).len() as int) =~= encode_utf8(s@));
    assert(s@.take(s@.len() as int) =~= s@);
    s
}

/// The first word of `s`: what comes before its first space, or all of `s`
/// where it has no space.
pub fn first_word(s: &str) -> (r: &str)
    ensures
        ends_before(encode_utf8(s@), SPACE, encode_utf8(r@).len() as int),
        encode_utf8(r@) == encode_utf8(s@).take(encode_utf8(r@).len() as int),
        r@ == s@.take(r@.len() as int),
{
    prefix_before(s, SPACE)
}

/// A passage lifted from a longer text, which it borrows from.
#[derive(Clone, Copy, Debug)]
pub struct ImportantExcerpt<'a> {
    pub part: &'a str,
}

/// The first sentence of `novel` as an excerpt: what comes before its first
/// full stop, or all of it where it has none.
pub fn first_sentence<'a>(novel: &'a str) -> (excerpt: ImportantExcerpt<'a>)
    ensures
        ends_before(encode_utf8(novel@), FULL_STOP, encode_utf8(excerpt.part@).len() as int),
        encode_utf8(excerpt.part@) == encode_utf8(novel@).take(encode_utf8(excerpt.part@).len() as int),
        excerpt.part@ == novel@.take(excerpt.part@.len() as int),
{
    ImportantExcerpt { part: prefix_before(novel, FULL_STOP) }
}

} // verus!

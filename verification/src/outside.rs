//! Contracts of the functions of the standard library and of other crates that the library calls.
use rand::RngCore;
use rand::SeedableRng;
use vstd::prelude::*;
use vstd::utf8::encode_utf8;

use crate::json::text_pairs;

verus! {

/// `String::push`: appends one character to the text and leaves what was there.
pub assume_specification[ String::push ](s: &mut String, c: char)
    ensures
        final(s)@ == old(s)@.push(c),
;

/// `rand::rngs::OsRng::fill_bytes` fills `size` bytes. Which bytes come is left to the operating
/// system; where it has none to give, the call does not return.
#[verifier::external_body]
pub(crate) fn os_random(size: usize) -> (r: Vec<u8>)
    ensures
        r@.len() == size,
{
    let mut bytes = vec![0; size];
    rand::rngs::OsRng.fill_bytes(&mut bytes);
    bytes
}

/// The first `size` bytes of a `Xoshiro128PlusPlus` generator that starts from `seed`.
pub uninterp spec fn xoshiro_bytes(seed: u64, size: nat) -> Seq<u8>;

/// `rand_xoshiro::Xoshiro128PlusPlus::seed_from_u64` and `fill_bytes`: the bytes are determined by
/// the seed and by how many of them are asked for.
#[verifier::external_body]
pub(crate) fn seeded_bytes(seed: u64, size: usize) -> (r: Vec<u8>)
    ensures
        r@ == xoshiro_bytes(seed, size as nat),
        r@.len() == size,
{
    let mut bytes = vec![0; size];
    rand_xoshiro::Xoshiro128PlusPlus::seed_from_u64(seed).fill_bytes(&mut bytes);
    bytes
}

/// `nanoid::format` draws `size` characters of `alphabet`. Which ones come is left to the bytes of
/// `os_random`.
#[verifier::external_body]
pub(crate) fn nanoid_format(alphabet: &[char], size: usize) -> (r: String)
    requires
        0 < alphabet@.len() <= 255,
        forall|i: int| 0 <= i < alphabet@.len() ==> (#[trigger] alphabet@[i] as u32) < 128,
        1 <= size <= 1024,
    ensures
        r@.len() == size,
        forall|i: int| 0 <= i < size ==> alphabet@.contains(#[trigger] r@[i]),
{
    nanoid::format(os_random, alphabet, size)
}

/// The upper case hexadecimal digit that stands for `n`.
pub open spec fn upper_digit(n: int) -> char {
    if n < 10 {
        ('0' as int + n) as char
    } else {
        ('A' as int + n - 10) as char
    }
}

/// A byte in a query: letters, digits and four signs stay, a space becomes a plus, and any other
/// byte becomes a percent sign and its two hexadecimal digits.
pub open spec fn form_byte(b: u8) -> Seq<char> {
    if 48 <= b <= 57 || 65 <= b <= 90 || 97 <= b <= 122 || b == 42 || b == 45 || b == 46 || b == 95 {
        seq![b as char]
    } else if b == 32 {
        seq!['+']
    } else {
        seq!['%', upper_digit(b as int / 16), upper_digit(b as int % 16)]
    }
}

/// A row of bytes in a query.
pub open spec fn form_bytes(b: Seq<u8>) -> Seq<char>
    decreases b.len(),
{
    if b.len() == 0 {
        Seq::empty()
    } else {
        form_bytes(b.drop_last()) + form_byte(b.last())
    }
}

/// The pairs of names and values, written the way that queries of addresses are: name, equals sign
/// and value, with ampersands between the pairs.
pub open spec fn urlencoded(pairs: Seq<(Seq<char>, Seq<char>)>) -> Seq<char>
    decreases pairs.len(),
{
    if pairs.len() == 0 {
        Seq::empty()
    } else {
        let (name, value) = pairs.last();
        let pair = form_bytes(encode_utf8(name)) + seq!['='] + form_bytes(encode_utf8(value));
        if pairs.len() == 1 {
            pair
        } else {
            urlencoded(pairs.drop_last()) + seq!['&'] + pair
        }
    }
}

/// `serde_urlencoded::to_string` on a list of text pairs, which it never turns away: it writes them
/// in their order, each name and value encoded byte by byte.
#[verifier::external_body]
pub(crate) fn urlencode(pairs: &Vec<(String, String)>) -> (r: String)
    ensures
        r@ == urlencoded(text_pairs(pairs@)),
{
    serde_urlencoded::to_string(pairs).unwrap()
}

} // verus!

//! Secrets and room codes.
use vstd::prelude::*;
use vstd::utf8::encode_utf8;

use crate::outside::{nanoid_format, os_random, seeded_bytes, xoshiro_bytes};

verus! {

/// A secret of twelve bytes.
#[derive(Debug, Clone, Copy)]
pub struct Token {
    bytes: [u8; 12],
}

impl View for Token {
    type V = Seq<u8>;

    closed spec fn view(&self) -> Seq<u8> {
        self.bytes@
    }
}

/// The lower case hexadecimal digit that stands for `n`.
pub open spec fn hex_digit(n: int) -> char {
    if n == 0 { '0' } else if n == 1 { '1' } else if n == 2 { '2' } else if n == 3 { '3' } else if n
        == 4 { '4' } else if n == 5 { '5' } else if n == 6 { '6' } else if n == 7 { '7' } else if n
        == 8 { '8' } else if n == 9 { '9' } else if n == 10 { 'a' } else if n == 11 { 'b' } else if n
        == 12 { 'c' } else if n == 13 { 'd' } else if n == 14 { 'e' } else { 'f' }
}

/// The bytes in hexadecimal digits, two for each.
pub open spec fn hex_text(b: Seq<u8>) -> Seq<char> {
    Seq::new(
        2 * b.len(),
        |i: int| hex_digit(if i % 2 == 0 { b[i / 2] as int / 16 } else { b[i / 2] as int % 16 }),
    )
}

/// The number that a hexadecimal digit of either case stands for.
pub open spec fn hex_value(c: u8) -> Option<int> {
    if 48 <= c <= 57 {
        Some(c - 48)
    } else if 97 <= c <= 102 {
        Some(c - 87)
    } else if 65 <= c <= 70 {
        Some(c - 55)
    } else {
        None
    }
}

/// The number that the `i`-th pair of the bytes stands for: two digits, or a plus sign and one
/// digit, or one digit alone at the end.
pub open spec fn pair_value(b: Seq<u8>, i: int) -> Option<int> {
    if 2 * i + 1 < b.len() {
        if b[2 * i] == 43 {
            hex_value(b[2 * i + 1])
        } else {
            match (hex_value(b[2 * i]), hex_value(b[2 * i + 1])) {
                (Some(h), Some(l)) => Some(16 * h + l),
                _ => None,
            }
        }
    } else {
        hex_value(b[2 * i])
    }
}

/// The bytes are the text of a token: twelve pairs, of which the last may lack its second half.
pub open spec fn is_token_text(b: Seq<u8>) -> bool {
    b.len() >= 23 && forall|i: int| 0 <= i < 12 ==> (#[trigger] pair_value(b, i)) is Some
}

/// The token that the bytes of a text stand for; what follows the twelfth pair is not read.
pub open spec fn token_value(b: Seq<u8>) -> Option<Seq<u8>> {
    if is_token_text(b) {
        Some(Seq::new(12, |i: int| pair_value(b, i)->0 as u8))
    } else {
        None
    }
}

/// A token that is written and read again is the same token.
pub proof fn law_token_reads_back(b: Seq<u8>)
    requires
        b.len() == 12,
    ensures
        token_value(encode_utf8(hex_text(b))) == Some(b),
{
    let s = hex_text(b);
    assert(vstd::utf8::is_ascii_chars(s));
    vstd::utf8::is_ascii_chars_encode_utf8(s);
    let e = encode_utf8(s);
    assert(e =~= Seq::new(s.len(), |i: int| s[i] as u8));
    assert forall|i: int| 0 <= i < 12 implies #[trigger] pair_value(e, i) == Some(b[i] as int) by {
        let h = b[i] as int / 16;
        let l = b[i] as int % 16;
        assert((2 * i) % 2 == 0 && (2 * i) / 2 == i);
        assert((2 * i + 1) % 2 == 1 && (2 * i + 1) / 2 == i);
        assert(s[2 * i] == hex_digit(h));
        assert(s[2 * i + 1] == hex_digit(l));
        assert(hex_value(e[2 * i]) == Some(h));
        assert(hex_value(e[2 * i + 1]) == Some(l));
        assert(16 * h + l == b[i] as int);
    }
    assert(token_value(e)->0 =~= b);
}

impl vstd::std_specs::convert::FromSpecImpl<[u8; 12]> for Token {
    open spec fn obeys_from_spec() -> bool {
        true
    }

    closed spec fn from_spec(value: [u8; 12]) -> Token {
        Token { bytes: value }
    }
}

impl From<[u8; 12]> for Token {
    fn from(value: [u8; 12]) -> (r: Token)
        ensures
            r@ == value@,
    {
        Token { bytes: value }
    }
}

/// The lower case hexadecimal digit that stands for `n`.
fn hex_char(n: u8) -> (r: char)
    requires
        n < 16,
    ensures
        r == hex_digit(n as int),
{
    if n == 0 { '0' } else if n == 1 { '1' } else if n == 2 { '2' } else if n == 3 { '3' } else if n
        == 4 { '4' } else if n == 5 { '5' } else if n == 6 { '6' } else if n == 7 { '7' } else if n
        == 8 { '8' } else if n == 9 { '9' } else if n == 10 { 'a' } else if n == 11 { 'b' } else if n
        == 12 { 'c' } else if n == 13 { 'd' } else if n == 14 { 'e' } else { 'f' }
}

/// The number that a hexadecimal digit stands for.
fn read_digit(c: u8) -> (r: Option<u8>)
    ensures
        match r {
            Some(n) => hex_value(c) == Some(n as int) && n < 16,
            None => hex_value(c) is None,
        },
{
    if 48 <= c && c <= 57 {
        Some(c - 48)
    } else if 97 <= c && c <= 102 {
        Some(c - 87)
    } else if 65 <= c && c <= 70 {
        Some(c - 55)
    } else {
        None
    }
}

/// The number that the `i`-th pair of the bytes stands for.
fn read_pair(b: &[u8], i: usize) -> (r: Option<u8>)
    requires
        i < 12,
        2 * i < b@.len(),
    ensures
        match r {
            Some(n) => pair_value(b@, i as int) == Some(n as int),
            None => pair_value(b@, i as int) is None,
        },
{
    if 2 * i + 1 < b.len() {
        let low = read_digit(b[2 * i + 1]);
        if b[2 * i] == 43 {
            low
        } else {
            match (read_digit(b[2 * i]), low) {
                (Some(h), Some(l)) => Some(16 * h + l),
                _ => None,
            }
        }
    } else {
        read_digit(b[2 * i])
    }
}

impl Token {
    /// A token of twelve bytes that the operating system draws.
    pub fn random() -> (t: Token)
        ensures
            t@.len() == 12,
    {
        Token::from_drawn(&os_random(12))
    }

    /// The token that a seed determines.
    pub fn from_seed(s: u64) -> (t: Token)
        ensures
            t@ == xoshiro_bytes(s, 12),
    {
        Token::from_drawn(&seeded_bytes(s, 12))
    }

    /// The token of twelve drawn bytes.
    pub fn from_drawn(drawn: &Vec<u8>) -> (t: Token)
        requires
            drawn@.len() == 12,
        ensures
            t@ == drawn@,
    {
        let mut bytes: [u8; 12] = [0u8; 12];
        for i in 0..12
            invariant
                drawn@.len() == 12,
                forall|j: int| 0 <= j < i ==> bytes@[j] == drawn@[j],
        {
            bytes[i] = drawn[i];
        }
        assert(bytes@ =~= drawn@);
        Token { bytes }
    }

    /// The token in lower case hexadecimal digits, two for each byte.
    pub fn to_text(&self) -> (r: String)
        ensures
            r@ == hex_text(self@),
    {
        let mut out = String::new();
        for i in 0..12
            invariant
                self.bytes@.len() == 12,
                out@ =~= hex_text(self@.take(i as int)),
        {
            let b: u8 = self.bytes[i];
            out.push(hex_char(b / 16));
            out.push(hex_char(b % 16));
            proof {
                let s = self@.take(i + 1);
                assert forall|k: int| 0 <= k < 2 * (i + 1) implies out@[k] == hex_text(s)[k] by {
                    if k < 2 * i {
                        assert(out@[k] == hex_text(self@.take(i as int))[k]);
                    }
                }
            }
        }
        assert(self@.take(12) =~= self@);
        out
    }

    /// Reads a token from its text.
    pub fn from_str(s: &str) -> (r: Option<Token>)
        ensures
            match r {
                Some(t) => token_value(encode_utf8(s@)) == Some(t@),
                None => token_value(encode_utf8(s@)) is None,
            },
    {
        let b = s.as_bytes();
        if b.len() < 23 {
            return None;
        }
        let mut bytes: [u8; 12] = [0u8; 12];
        for i in 0..12
            invariant
                b@ == encode_utf8(s@),
                b@.len() >= 23,
                forall|j: int|
                    0 <= j < i ==> #[trigger] pair_value(b@, j) == Some(bytes@[j] as int),
        {
            match read_pair(b, i) {
                Some(n) => {
                    bytes[i] = n;
                },
                None => {
                    assert(pair_value(b@, i as int) is None);
                    return None;
                },
            }
        }
        assert(token_value(b@)->0 =~= bytes@);
        Some(Token { bytes })
    }
}

/// `c` is a capital letter of the Latin alphabet.
pub open spec fn is_capital(c: char) -> bool {
    'A' <= c <= 'Z'
}

/// The text is a room code: four capital letters.
pub open spec fn is_room_code(s: Seq<char>) -> bool {
    s.len() == 4 && forall|i: int| 0 <= i < 4 ==> is_capital(#[trigger] s[i])
}

/// The letters of room codes.
fn capitals() -> (r: Vec<char>)
    ensures
        r@.len() == 26,
        forall|i: int| 0 <= i < 26 ==> is_capital(#[trigger] r@[i]),
        forall|i: int, j: int| 0 <= i < j < 26 ==> r@[i] != r@[j],
{
    vec![
        'A', 'B', 'C', 'D', 'E', 'F', 'G', 'H', 'I', 'J', 'K', 'L', 'M', 'N', 'O', 'P', 'Q', 'R',
        'S', 'T', 'U', 'V', 'W', 'X', 'Y', 'Z',
    ]
}

/// A new room code of four capital letters.
pub fn room_id() -> (code: String)
    ensures
        is_room_code(code@),
{
    let letters = capitals();
    let code = nanoid_format(letters.as_slice(), 4);
    proof {
        assert forall|i: int| 0 <= i < 4 implies is_capital(#[trigger] code@[i]) by {
            assert(letters@.contains(code@[i]));
        }
    }
    code
}

/// Every byte of a token is written in two digits, the greater one first: `0` to `9` for the first
/// ten numbers and `a` to `f` for the others.
pub proof fn law_hexadecimal_digits(b: Seq<u8>, i: int)
    requires
        0 <= i < b.len(),
    ensures
        hex_text(b).len() == 2 * b.len(),
        hex_text(b)[2 * i] as u32 == digit_code(b[i] as int / 16),
        hex_text(b)[2 * i + 1] as u32 == digit_code(b[i] as int % 16),
{
    assert((2 * i) % 2 == 0 && (2 * i) / 2 == i);
    assert((2 * i + 1) % 2 == 1 && (2 * i + 1) / 2 == i);
}

/// The code of the digit of a number below sixteen.
pub open spec fn digit_code(n: int) -> int {
    if n < 10 {
        48 + n
    } else {
        87 + n
    }
}

/// A token is read from twelve pairs of digits of either case, the greater one first; what follows
/// them is not read. A text that is shorter than that by more than one digit is no token.
pub proof fn law_read_tokens(digits: Seq<u8>, numbers: Seq<int>, i: int)
    requires
        digits.len() >= 24,
        numbers.len() == 24,
        forall|k: int|
            0 <= k < 24 ==> 0 <= #[trigger] numbers[k] < 16 && (digits[k] == digit_code(numbers[k])
                || (numbers[k] >= 10 && digits[k] == 55 + numbers[k])),
        0 <= i < 12,
    ensures
        token_value(digits) matches Some(t) && t.len() == 12 && t[i] == 16 * numbers[2 * i]
            + numbers[2 * i + 1],
        forall|short: Seq<u8>| short.len() < 23 ==> #[trigger] token_value(short) is None,
{
    assert forall|j: int| 0 <= j < 12 implies #[trigger] pair_value(digits, j) == Some(
        16 * numbers[2 * j] + numbers[2 * j + 1],
    ) by {
        assert(hex_value(digits[2 * j]) == Some(numbers[2 * j]));
        assert(hex_value(digits[2 * j + 1]) == Some(numbers[2 * j + 1]));
    }
    assert(pair_value(digits, i) is Some);
}

/// A plus sign before a digit says nothing, and the very last digit may stand alone. A text of
/// enough length is a token exactly where all its twelve pairs can be read.
pub proof fn law_other_pairs(b: Seq<u8>, i: int)
    requires
        b.len() >= 23,
        0 <= i < 12,
    ensures
        2 * i + 1 < b.len() && b[2 * i] == 43 ==> pair_value(b, i) == hex_value(b[2 * i + 1]),
        2 * i + 1 == b.len() ==> pair_value(b, i) == hex_value(b[2 * i]),
        pair_value(b, i) is None ==> token_value(b) is None,
        (forall|k: int| 0 <= k < 12 ==> (#[trigger] pair_value(b, k)) is Some) ==> token_value(b)
            is Some,
        hex_value(b[2 * i]) matches Some(n) ==> 0 <= n < 16 && (b[2 * i] == digit_code(n) || (n >= 10
            && b[2 * i] == 55 + n)),
{
}

} // verus!

//! Whole numbers written in decimal and hexadecimal digits.
use vstd::prelude::*;

use crate::text::chars_of;

verus! {

/// `c` is a decimal digit.
pub open spec fn is_digit(c: char) -> bool {
    '0' <= c <= '9'
}

/// Every character of `s` is a decimal digit.
pub open spec fn all_digits(s: Seq<char>) -> bool {
    forall|i: int| 0 <= i < s.len() ==> is_digit(#[trigger] s[i])
}

/// The number that a row of decimal digits stands for.
pub open spec fn digits_value(s: Seq<char>) -> nat
    decreases s.len(),
{
    if s.len() == 0 {
        0
    } else {
        10 * digits_value(s.drop_last()) + (s.last() as nat - '0' as nat) as nat
    }
}

/// The number that `s` stands for, where it is a row of at least one digit and at most `max`.
pub open spec fn row_value(s: Seq<char>, max: nat) -> Option<nat> {
    if s.len() > 0 && all_digits(s) && digits_value(s) <= max {
        Some(digits_value(s))
    } else {
        None
    }
}

/// The number that `s` stands for, read without a sign or after one plus sign.
pub open spec fn unsigned_value(s: Seq<char>, max: nat) -> Option<nat> {
    if s.len() > 0 && s[0] == '+' {
        row_value(s.skip(1), max)
    } else {
        row_value(s, max)
    }
}

/// The number of 64 bits that `s` stands for, read with an optional sign.
pub open spec fn signed_value(s: Seq<char>) -> Option<int> {
    if s.len() > 0 && s[0] == '-' {
        match row_value(s.skip(1), 0x8000_0000_0000_0000) {
            Some(n) => Some(-(n as int)),
            None => None,
        }
    } else {
        match unsigned_value(s, 0x7fff_ffff_ffff_ffff) {
            Some(n) => Some(n as int),
            None => None,
        }
    }
}

/// The digit that stands for `n`.
pub open spec fn digit_for(n: nat) -> char {
    if n == 0 { '0' } else if n == 1 { '1' } else if n == 2 { '2' } else if n == 3 { '3' } else if n
        == 4 { '4' } else if n == 5 { '5' } else if n == 6 { '6' } else if n == 7 { '7' } else if n
        == 8 { '8' } else { '9' }
}

/// `n` in decimal digits without leading zeros.
pub open spec fn decimal_text(n: nat) -> Seq<char>
    decreases n,
{
    if n < 10 {
        seq![digit_for(n)]
    } else {
        decimal_text(n / 10).push(digit_for(n % 10))
    }
}

/// `i` in decimal digits, with a minus sign in front where it is negative.
pub open spec fn signed_text(i: int) -> Seq<char> {
    if i < 0 {
        seq!['-'] + decimal_text((-i) as nat)
    } else {
        decimal_text(i as nat)
    }
}

/// A number written in decimal digits is a row of digits that stands for that number.
pub proof fn lemma_decimal_text(n: nat)
    ensures
        decimal_text(n).len() > 0,
        all_digits(decimal_text(n)),
        digits_value(decimal_text(n)) == n,
    decreases n,
{
    if n < 10 {
        let s = decimal_text(n);
        assert(s.drop_last() =~= Seq::<char>::empty());
        assert(digits_value(s.drop_last()) == 0);
    } else {
        lemma_decimal_text(n / 10);
        let s = decimal_text(n);
        assert(s.drop_last() =~= decimal_text(n / 10));
    }
}

/// Reading back a written number gives that number.
pub proof fn lemma_signed_text(i: int)
    requires
        -0x8000_0000_0000_0000 <= i <= 0x7fff_ffff_ffff_ffff,
    ensures
        signed_value(signed_text(i)) == Some(i),
{
    if i < 0 {
        lemma_decimal_text((-i) as nat);
        assert(signed_text(i).skip(1) =~= decimal_text((-i) as nat));
    } else {
        lemma_decimal_text(i as nat);
        assert(is_digit(signed_text(i)[0]));
    }
}

/// More digits never make a smaller number.
proof fn lemma_prefix_value(s: Seq<char>, n: int)
    requires
        0 <= n <= s.len(),
        all_digits(s),
    ensures
        digits_value(s.take(n)) <= digits_value(s),
    decreases s.len() - n,
{
    if n < s.len() {
        lemma_prefix_value(s, n + 1);
        assert(s.take(n + 1).drop_last() =~= s.take(n));
        assert(is_digit(s[n]));
    } else {
        assert(s.take(n) =~= s);
    }
}

/// The number that the digits of `s` from place `from` on stand for.
fn parse_row(s: &Vec<char>, from: usize, max: u64) -> (r: Option<u64>)
    requires
        from <= s@.len(),
    ensures
        match r {
            Some(n) => row_value(s@.skip(from as int), max as nat) == Some(n as nat),
            None => row_value(s@.skip(from as int), max as nat) is None,
        },
{
    let ghost row = s@.skip(from as int);
    if from == s.len() {
        return None;
    }
    let mut acc: u64 = 0;
    let mut i: usize = from;
    assert(row.take(0) =~= Seq::<char>::empty());
    while i < s.len()
        invariant
            from <= i <= s@.len(),
            row == s@.skip(from as int),
            acc <= max,
            acc == digits_value(row.take(i - from)),
            forall|j: int| 0 <= j < i - from ==> is_digit(#[trigger] row[j]),
        decreases s@.len() - i,
    {
        let c = s[i];
        assert(c == row[i - from]);
        if c < '0' || '9' < c {
            assert(!is_digit(row[i - from]));
            return None;
        }
        let d: u128 = (c as u32 - '0' as u32) as u128;
        let next: u128 = acc as u128 * 10 + d;
        proof {
            assert(row.take(i - from + 1).drop_last() =~= row.take(i - from));
            assert(next == digits_value(row.take(i - from + 1)));
        }
        if next > max as u128 {
            proof {
                if all_digits(row) {
                    lemma_prefix_value(row, i - from + 1);
                }
            }
            return None;
        }
        acc = next as u64;
        i = i + 1;
    }
    assert(row.take(row.len() as int) =~= row);
    Some(acc)
}

/// Reads a number without a sign or after one plus sign.
pub fn parse_unsigned(s: &str, max: u64) -> (r: Option<u64>)
    ensures
        match r {
            Some(n) => unsigned_value(s@, max as nat) == Some(n as nat),
            None => unsigned_value(s@, max as nat) is None,
        },
{
    let sc = chars_of(s);
    if sc.len() > 0 && sc[0] == '+' {
        parse_row(&sc, 1, max)
    } else {
        assert(s@.skip(0) =~= s@);
        parse_row(&sc, 0, max)
    }
}

/// Reads a number of 64 bits with an optional sign.
pub fn parse_signed(s: &str) -> (r: Option<i64>)
    ensures
        match r {
            Some(n) => signed_value(s@) == Some(n as int),
            None => signed_value(s@) is None,
        },
{
    let sc = chars_of(s);
    if sc.len() > 0 && sc[0] == '-' {
        match parse_row(&sc, 1, 0x8000_0000_0000_0000) {
            Some(n) => Some((-(n as i128)) as i64),
            None => None,
        }
    } else {
        match parse_unsigned(s, 0x7fff_ffff_ffff_ffff) {
            Some(n) => Some(n as i64),
            None => None,
        }
    }
}

/// The digit that stands for `n`.
fn digit_char(n: u64) -> (r: char)
    requires
        n < 10,
    ensures
        r == digit_for(n as nat),
{
    if n == 0 { '0' } else if n == 1 { '1' } else if n == 2 { '2' } else if n == 3 { '3' } else if n
        == 4 { '4' } else if n == 5 { '5' } else if n == 6 { '6' } else if n == 7 { '7' } else if n
        == 8 { '8' } else { '9' }
}

/// Writes `n` in decimal digits.
pub fn write_unsigned(n: u64) -> (r: String)
    ensures
        r@ == decimal_text(n as nat),
    decreases n,
{
    let mut out = if n < 10 {
        String::new()
    } else {
        write_unsigned(n / 10)
    };
    out.push(digit_char(n % 10));
    assert(n < 10 ==> out@ =~= decimal_text(n as nat));
    out
}

/// Writes `i` in decimal digits, with a minus sign in front where it is negative.
pub fn write_signed(i: i64) -> (r: String)
    ensures
        r@ == signed_text(i as int),
{
    if i < 0 {
        let mut out = String::new();
        out.push('-');
        let digits = write_unsigned((-(i as i128)) as u64);
        out.append(digits.as_str());
        assert(out@ =~= signed_text(i as int));
        out
    } else {
        write_unsigned(i as u64)
    }
}

/// One more digit makes ten times the number and the digit.
pub proof fn law_digits(s: Seq<char>, c: char)
    requires
        is_digit(c),
    ensures
        digits_value(Seq::<char>::empty()) == 0,
        digits_value(s.push(c)) == 10 * digits_value(s) + (c as int - '0' as int),
        is_digit(c) <==> 48 <= c as u32 <= 57,
{
    assert(s.push(c).drop_last() =~= s);
}

/// A number is written in digits that stand for it, without a zero in front.
pub proof fn law_written_numbers(n: nat)
    ensures
        all_digits(decimal_text(n)),
        digits_value(decimal_text(n)) == n,
        n > 0 ==> decimal_text(n)[0] != '0',
        signed_text(n as int) == decimal_text(n),
        n > 0 ==> signed_text(-n) == seq!['-'] + decimal_text(n),
    decreases n,
{
    lemma_decimal_text(n);
    if n >= 10 {
        law_written_numbers(n / 10);
    }
}

/// Digits are read as the number that they stand for, with a minus sign as its negative; a plus sign
/// says nothing. What stands for a number that does not fit is not read.
pub proof fn law_read_numbers(row: Seq<char>, max: nat)
    requires
        row.len() > 0,
        all_digits(row),
    ensures
        unsigned_value(row, max) == (if digits_value(row) <= max {
            Some(digits_value(row))
        } else {
            None
        }),
        unsigned_value(seq!['+'] + row, max) == unsigned_value(row, max),
        unsigned_value(seq!['-'] + row, max) is None,
        signed_value(row) == (if digits_value(row) <= i64::MAX {
            Some(digits_value(row) as int)
        } else {
            None
        }),
        signed_value(seq!['+'] + row) == signed_value(row),
        signed_value(seq!['-'] + row) == (if -digits_value(row) >= i64::MIN {
            Some(-digits_value(row))
        } else {
            None
        }),
{
    assert((seq!['+'] + row).skip(1) =~= row);
    assert((seq!['-'] + row).skip(1) =~= row);
    assert((seq!['+'] + row)[0] == '+');
    assert((seq!['-'] + row)[0] == '-');
    assert(is_digit(row[0]));
    assert(!is_digit((seq!['-'] + row)[0]));
}

/// A text with anything but digits behind its sign is no number.
pub proof fn law_what_is_no_number(s: Seq<char>, max: nat, k: int)
    requires
        0 <= k < s.len(),
        !is_digit(s[k]),
        k > 0 || (s[0] != '+' && s[0] != '-'),
    ensures
        unsigned_value(s, max) is None,
        signed_value(s) is None,
{
    if k > 0 {
        assert(s.skip(1)[k - 1] == s[k]);
    }
    assert(!all_digits(s));
}

} // verus!

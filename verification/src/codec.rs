//! Regrouping of digit strings: four binary digits make one hexadecimal digit.

use crate::text::chars_of;
use vstd::prelude::*;

verus! {

/// Why a digit string cannot be regrouped.
#[derive(Clone, Copy, Debug, PartialEq, Eq, Structural)]
pub enum PayloadError {
    /// Some character is not a digit of the radix.
    InvalidDigit,
    /// Every character is a binary digit, but they do not fill groups of four.
    MisalignedLength,
}

/// `c` is one of the two binary digits.
pub open spec fn is_bit(c: char) -> bool {
    c == '0' || c == '1'
}

/// The number that a binary digit stands for.
pub open spec fn bit_value(c: char) -> nat {
    if c == '1' {
        1
    } else {
        0
    }
}

/// The binary digit that says whether `v` is odd.
pub open spec fn bit_char(v: nat) -> char {
    if v % 2 == 1 {
        '1'
    } else {
        '0'
    }
}

/// The number below sixteen that a hexadecimal digit of either case stands
/// for; `None` for every other character.
pub open spec fn hex_value(c: char) -> Option<nat> {
    if '0' <= c <= '9' {
        Some((c as nat - '0' as nat) as nat)
    } else if 'A' <= c <= 'F' {
        Some((c as nat - 'A' as nat + 10) as nat)
    } else if 'a' <= c <= 'f' {
        Some((c as nat - 'a' as nat + 10) as nat)
    } else {
        None
    }
}

/// The upper-case hexadecimal digit of a number below sixteen.
pub open spec fn hex_char(v: nat) -> char {
    if v < 10 {
        ('0' as nat + v) as char
    } else {
        ('A' as nat + v - 10) as char
    }
}

/// The value of the `k`-th group of four binary digits of `bits`, the first
/// digit of the group weighing most.
pub open spec fn group_value(bits: Seq<char>, k: int) -> nat {
    8 * bit_value(bits[4 * k]) + 4 * bit_value(bits[4 * k + 1]) + 2 * bit_value(bits[4 * k + 2])
        + bit_value(bits[4 * k + 3])
}

/// The `p`-th of the four binary digits of a number below sixteen, the
/// digit that weighs most first.
pub open spec fn nibble_bit(v: nat, p: int) -> char {
    if p == 0 {
        bit_char(v / 8)
    } else if p == 1 {
        bit_char(v / 4)
    } else if p == 2 {
        bit_char(v / 2)
    } else {
        bit_char(v)
    }
}

/// Every character of `s` is a binary digit.
pub open spec fn all_bits(s: Seq<char>) -> bool {
    forall|i: int| 0 <= i < s.len() ==> is_bit(#[trigger] s[i])
}

/// Every character of `s` is a hexadecimal digit, of either case.
pub open spec fn all_hex(s: Seq<char>) -> bool {
    forall|i: int| 0 <= i < s.len() ==> hex_value(#[trigger] s[i]) is Some
}

/// One upper-case hexadecimal digit for each group of four binary digits.
pub open spec fn hex_of_bits(bits: Seq<char>) -> Seq<char> {
    Seq::new(bits.len() / 4, |k: int| hex_char(group_value(bits, k)))
}

/// Four binary digits for each hexadecimal digit.
pub open spec fn bits_of_hex(hex: Seq<char>) -> Seq<char> {
    Seq::new(4 * hex.len(), |j: int| nibble_bit(hex_value(hex[j / 4]).unwrap(), j % 4))
}

/// What `bin_to_hex` returns: a character that is no binary digit is
/// reported before a length that is no multiple of four.
pub open spec fn bin_to_hex_spec(bits: Seq<char>) -> Result<Seq<char>, PayloadError> {
    if !all_bits(bits) {
        Err(PayloadError::InvalidDigit)
    } else if bits.len() % 4 != 0 {
        Err(PayloadError::MisalignedLength)
    } else {
        Ok(hex_of_bits(bits))
    }
}

/// What `hex_to_bin` returns.
pub open spec fn hex_to_bin_spec(hex: Seq<char>) -> Result<Seq<char>, PayloadError> {
    if !all_hex(hex) {
        Err(PayloadError::InvalidDigit)
    } else {
        Ok(bits_of_hex(hex))
    }
}

/// The result of a conversion with the string, if there is one, taken as
/// its sequence of characters.
pub open spec fn chars_result<E>(r: Result<String, E>) -> Result<Seq<char>, E> {
    match r {
        Ok(s) => Ok(s@),
        Err(e) => Err(e),
    }
}

/// The upper-case form of a lower-case letter of the ASCII alphabet; every
/// other character is its own upper-case form.
pub open spec fn ascii_upper(c: char) -> char {
    if 'a' <= c <= 'z' {
        (c as nat - 'a' as nat + 'A' as nat) as char
    } else {
        c
    }
}

/// `s` with each character in its upper-case form.
pub open spec fn upper_case(s: Seq<char>) -> Seq<char> {
    Seq::new(s.len(), |i: int| ascii_upper(s[i]))
}

fn value_of_bit(c: char) -> (v: u8)
    requires
        is_bit(c),
    ensures
        v == bit_value(c),
{
    if c == '1' {
        1
    } else {
        0
    }
}

fn bit_of(v: u8) -> (c: char)
    ensures
        c == bit_char(v as nat),
{
    if v % 2 == 1 {
        '1'
    } else {
        '0'
    }
}

fn value_of_hex_digit(c: char) -> (r: Option<u8>)
    ensures
        r is Some <==> hex_value(c) is Some,
        r matches Some(v) ==> hex_value(c) == Some(v as nat),
{
    if '0' <= c && c <= '9' {
        Some((c as u32 - '0' as u32) as u8)
    } else if 'A' <= c && c <= 'F' {
        Some((c as u32 - 'A' as u32 + 10) as u8)
    } else if 'a' <= c && c <= 'f' {
        Some((c as u32 - 'a' as u32 + 10) as u8)
    } else {
        None
    }
}

fn hex_digit_of(v: u8) -> (c: char)
    requires
        v < 16,
    ensures
        c == hex_char(v as nat),
{
    if v < 10 {
        ('0' as u8 + v) as char
    } else {
        ('A' as u8 + (v - 10)) as char
    }
}

/// Regroups a string of binary digits, four at a time from the left, into
/// upper-case hexadecimal digits.
pub fn bin_to_hex(bin: &str) -> (r: Result<String, PayloadError>)
    ensures
        chars_result(r) == bin_to_hex_spec(bin@),
        r matches Ok(hex) ==> 4 * hex@.len() == bin@.len(),
{
    let digits = chars_of(bin);
    let n = digits.len();
    let mut i: usize = 0;
    while i < n
        invariant
            n == digits.len(),
            digits@ == bin@,
            i <= n,
            all_bits(digits@.take(i as int)),
        decreases n - i,
    {
        let c = digits[i];
        if c != '0' && c != '1' {
            assert(!is_bit(bin@[i as int]));
            return Err(PayloadError::InvalidDigit);
        }
        i += 1;
    }
    assert(digits@.take(n as int) == digits@);
    if n % 4 != 0 {
        return Err(PayloadError::MisalignedLength);
    }
    let groups = n / 4;
    let mut out = String::new();
    let mut k: usize = 0;
    while k < groups
        invariant
            n == digits.len(),
            groups == n / 4,
            n % 4 == 0,
            k <= groups,
            all_bits(digits@),
            out@ == Seq::new(k as nat, |g: int| hex_char(group_value(digits@, g))),
        decreases groups - k,
    {
        let v = 8 * value_of_bit(digits[4 * k]) + 4 * value_of_bit(digits[4 * k + 1]) + 2
            * value_of_bit(digits[4 * k + 2]) + value_of_bit(digits[4 * k + 3]);
        out.push(hex_digit_of(v));
        k += 1;
    }
    Ok(out)
}

/// Expands each hexadecimal digit, of either case, into its four binary
/// digits.
pub fn hex_to_bin(hex: &str) -> (r: Result<String, PayloadError>)
    ensures
        chars_result(r) == hex_to_bin_spec(hex@),
        r matches Ok(bin) ==> bin@.len() == 4 * hex@.len(),
{
    let mut out = String::new();
    for c in it: hex.chars()
        invariant
            it.seq() == hex@,
            all_hex(hex@.take(it.index() as int)),
            out@ == bits_of_hex(hex@.take(it.index() as int)),
    {
        match value_of_hex_digit(c) {
            None => {
                return Err(PayloadError::InvalidDigit);
            },
            Some(v) => {
                out.push(bit_of(v / 8));
                out.push(bit_of(v / 4));
                out.push(bit_of(v / 2));
                out.push(bit_of(v));
            },
        }
    }
    assert(hex@.take(hex@.len() as int) == hex@);
    Ok(out)
}

/// Each conversion is a function of its input: two results of `bin_to_hex`
/// for the same characters are the same, and so are two of `hex_to_bin`.
pub proof fn lemma_same_input_same_output(
    input: Seq<char>,
    first: Result<String, PayloadError>,
    second: Result<String, PayloadError>,
)
    requires
        (chars_result(first) == bin_to_hex_spec(input) && chars_result(second) == bin_to_hex_spec(
            input,
        )) || (chars_result(first) == hex_to_bin_spec(input) && chars_result(second)
            == hex_to_bin_spec(input)),
    ensures
        chars_result(first) == chars_result(second),
{
}

/// A string of binary digits whose length is a multiple of four comes back
/// unchanged when `hex_to_bin` expands what `bin_to_hex` made of it.
pub proof fn lemma_bin_round_trip(bits: Seq<char>)
    requires
        all_bits(bits),
        bits.len() % 4 == 0,
    ensures
        bin_to_hex_spec(bits) matches Ok(hex) && hex_to_bin_spec(hex) == Ok::<
            Seq<char>,
            PayloadError,
        >(bits),
{
    let hex = hex_of_bits(bits);
    assert forall|k: int| 0 <= k < hex.len() implies hex_value(#[trigger] hex[k]) == Some(
        group_value(bits, k),
    ) by {
        assert(is_bit(bits[4 * k]) && is_bit(bits[4 * k + 1]) && is_bit(bits[4 * k + 2]) && is_bit(
            bits[4 * k + 3],
        ));
    }
    assert forall|j: int| 0 <= j < bits.len() implies #[trigger] bits_of_hex(hex)[j] == bits[j] by {
        let k = j / 4;
        assert(hex_value(hex[k]) == Some(group_value(bits, k)));
        assert(is_bit(bits[4 * k]) && is_bit(bits[4 * k + 1]) && is_bit(bits[4 * k + 2]) && is_bit(
            bits[4 * k + 3],
        ));
    }
    assert(bits_of_hex(hex) =~= bits);
}

/// A string of hexadecimal digits comes back in upper case when
/// `bin_to_hex` regroups what `hex_to_bin` made of it.
pub proof fn lemma_hex_round_trip(hex: Seq<char>)
    requires
        all_hex(hex),
    ensures
        hex_to_bin_spec(hex) matches Ok(bits) && bin_to_hex_spec(bits) == Ok::<
            Seq<char>,
            PayloadError,
        >(upper_case(hex)),
{
    let bits = bits_of_hex(hex);
    assert(all_bits(bits));
    assert forall|k: int| 0 <= k < hex.len() implies #[trigger] hex_of_bits(bits)[k] == ascii_upper(
        hex[k],
    ) by {
        let v = hex_value(hex[k]).unwrap();
        assert(bits[4 * k] == nibble_bit(v, 0));
        assert(bits[4 * k + 1] == nibble_bit(v, 1));
        assert(bits[4 * k + 2] == nibble_bit(v, 2));
        assert(bits[4 * k + 3] == nibble_bit(v, 3));
    }
    assert(hex_of_bits(bits) =~= upper_case(hex));
}

} // verus!

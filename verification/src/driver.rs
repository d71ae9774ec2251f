//! What a run is made of: the direction and the output name that follow from
//! the input name, the capacity of the memo, and the conversion of all lines.

use crate::line::Mode;
use crate::text::{chars_of, push_range};
use crate::transformer::{texts, ConfigError, Conversion, LineTransformer};
use vstd::prelude::*;

verus! {

/// The capacity of the memo where none is asked for.
pub const DEFAULT_CACHE_SIZE: usize = 1000;

/// The ending that marks the name of a file in hexadecimal form.
pub open spec fn suffix() -> Seq<char> {
    seq!['.', 'x']
}

/// `name` ends in the suffix of the hexadecimal form.
pub open spec fn has_suffix(name: Seq<char>) -> bool {
    name.len() >= 2 && name[name.len() - 2] == '.' && name[name.len() - 1] == 'x'
}

/// The direction of a run: a file named with the suffix is expanded, any
/// other file is compressed.
pub open spec fn mode_of(name: Seq<char>) -> Mode {
    if has_suffix(name) {
        Mode::Decompress
    } else {
        Mode::Compress
    }
}

/// The name of the file that a run writes: the input name without its
/// suffix, or with the suffix added where it has none.
pub open spec fn output_name_spec(name: Seq<char>) -> Seq<char> {
    if has_suffix(name) {
        name.take(name.len() - 2)
    } else {
        name + suffix()
    }
}

/// The direction in which the file named `input_name` is converted.
pub fn select_mode(input_name: &str) -> (mode: Mode)
    ensures
        mode == mode_of(input_name@),
{
    let chars = chars_of(input_name);
    let n = chars.len();
    if n >= 2 && chars[n - 2] == '.' && chars[n - 1] == 'x' {
        Mode::Decompress
    } else {
        Mode::Compress
    }
}

/// The name of the file that the conversion of `input_name` is written to.
pub fn output_name(input_name: &str) -> (name: String)
    ensures
        name@ == output_name_spec(input_name@),
{
    let chars = chars_of(input_name);
    let n = chars.len();
    let mut name = String::new();
    if n >= 2 && chars[n - 2] == '.' && chars[n - 1] == 'x' {
        push_range(&mut name, &chars, 0, n - 2);
    } else {
        push_range(&mut name, &chars, 0, n);
        name.push('.');
        name.push('x');
    }
    name
}

/// A name without the suffix gets it, marks the file as one to expand, and
/// leads back to the name it came from.
pub proof fn lemma_output_name_leads_back(name: Seq<char>)
    requires
        !has_suffix(name),
    ensures
        mode_of(name) == Mode::Compress,
        mode_of(output_name_spec(name)) == Mode::Decompress,
        output_name_spec(output_name_spec(name)) == name,
{
    let out = output_name_spec(name);
    assert(out[out.len() - 2] == '.' && out[out.len() - 1] == 'x');
    assert(out.take(out.len() - 2) == name);
}

/// `c` is a decimal digit.
pub open spec fn is_digit(c: char) -> bool {
    '0' <= c <= '9'
}

/// The number that a string of decimal digits writes.
pub open spec fn decimal_value(digits: Seq<char>) -> nat
    decreases digits.len(),
{
    if digits.len() == 0 {
        0
    } else {
        (10 * decimal_value(digits.drop_last()) + (digits.last() as nat - '0' as nat)) as nat
    }
}

/// All of `text` but a plus sign that may lead it.
pub open spec fn unsigned_part(text: Seq<char>) -> Seq<char> {
    if text.len() > 0 && text[0] == '+' {
        text.skip(1)
    } else {
        text
    }
}

/// The digits of a number written as `text`, which a plus sign may lead.
/// `None` where there is no digit, or anything but decimal digits.
pub open spec fn digits_of(text: Seq<char>) -> Option<Seq<char>> {
    let digits = unsigned_part(text);
    if digits.len() > 0 && (forall|i: int| 0 <= i < digits.len() ==> is_digit(#[trigger] digits[i])) {
        Some(digits)
    } else {
        None
    }
}

/// What `parse_cache_size` returns.
pub open spec fn cache_size_spec(arg: Option<Seq<char>>) -> Result<usize, ConfigError> {
    match arg {
        None => Ok(DEFAULT_CACHE_SIZE),
        Some(text) => match digits_of(text) {
            None => Err(ConfigError::NotANumber),
            Some(digits) => if decimal_value(digits) > usize::MAX {
                Err(ConfigError::NotANumber)
            } else if decimal_value(digits) == 0 {
                Err(ConfigError::ZeroCapacity)
            } else {
                Ok(decimal_value(digits) as usize)
            },
        },
    }
}

/// More digits never write a smaller number.
pub proof fn lemma_decimal_value_grows(digits: Seq<char>, k: int)
    requires
        0 <= k <= digits.len(),
        forall|i: int| 0 <= i < digits.len() ==> is_digit(#[trigger] digits[i]),
    ensures
        decimal_value(digits.take(k)) <= decimal_value(digits),
    decreases digits.len() - k,
{
    if k < digits.len() {
        lemma_decimal_value_grows(digits, k + 1);
        assert(digits.take(k + 1).drop_last() == digits.take(k));
        assert(is_digit(digits[k]));
    } else {
        assert(digits.take(k) == digits);
    }
}

/// The capacity of the memo that a run is asked to use: the default where
/// nothing is asked, else the positive decimal number that `arg` writes.
pub fn parse_cache_size(arg: Option<&str>) -> (r: Result<usize, ConfigError>)
    ensures
        r == cache_size_spec(
            match arg {
                Some(text) => Some(text@),
                None => None,
            },
        ),
{
    let text = match arg {
        None => {
            return Ok(DEFAULT_CACHE_SIZE);
        },
        Some(text) => text,
    };
    let chars = chars_of(text);
    let n = chars.len();
    let start: usize = if n > 0 && chars[0] == '+' {
        1
    } else {
        0
    };
    if start == n {
        return Err(ConfigError::NotANumber);
    }
    let ghost digits = unsigned_part(text@);
    assert(digits == chars@.skip(start as int));
    let mut value: usize = 0;
    let mut i: usize = start;
    while i < n
        invariant
            n == chars.len(),
            start <= i <= n,
            digits == chars@.skip(start as int),
            digits == unsigned_part(text@),
            arg == Some(text),
            forall|j: int| 0 <= j < i - start ==> is_digit(#[trigger] digits[j]),
            value == decimal_value(digits.take(i - start)),
        decreases n - i,
    {
        let c = chars[i];
        if !('0' <= c && c <= '9') {
            assert(!is_digit(digits[i - start]));
            assert(digits_of(text@) is None);
            return Err(ConfigError::NotANumber);
        }
        let d = (c as u32 - '0' as u32) as usize;
        proof {
            assert(digits.take(i - start + 1).drop_last() == digits.take(i - start));
            assert(digits.take(i - start + 1).last() == c);
        }
        if value > (usize::MAX - d) / 10 {
            proof {
                if digits_of(text@) is Some {
                    lemma_decimal_value_grows(digits, i - start + 1);
                }
            }
            return Err(ConfigError::NotANumber);
        }
        value = value * 10 + d;
        i += 1;
    }
    assert(digits.take(n - start) == digits);
    if value == 0 {
        Err(ConfigError::ZeroCapacity)
    } else {
        Ok(value)
    }
}

/// Converts `lines` in direction `mode` through a fresh memo of
/// `cache_size` lines.
pub fn convert(mode: Mode, lines: &Vec<String>, cache_size: usize) -> (r: Result<
    Conversion,
    ConfigError,
>)
    ensures
        cache_size == 0 ==> r == Err::<Conversion, ConfigError>(ConfigError::ZeroCapacity),
        cache_size > 0 ==> r is Ok && r.unwrap().is_run_of(mode, texts(lines@)),
{
    match LineTransformer::new(cache_size, mode) {
        Err(e) => Err(e),
        Ok(mut transformer) => Ok(transformer.transform_all(lines)),
    }
}

/// Compresses `lines`, binary digits to hexadecimal digits, through a fresh
/// memo of `cache_size` lines.
pub fn convert_to_x(lines: &Vec<String>, cache_size: usize) -> (r: Result<Conversion, ConfigError>)
    ensures
        cache_size == 0 ==> r == Err::<Conversion, ConfigError>(ConfigError::ZeroCapacity),
        cache_size > 0 ==> r is Ok && r.unwrap().is_run_of(Mode::Compress, texts(lines@)),
{
    convert(Mode::Compress, lines, cache_size)
}

/// Expands `lines`, hexadecimal digits to binary digits, through a fresh
/// memo of `cache_size` lines.
pub fn convert_to_in(lines: &Vec<String>, cache_size: usize) -> (r: Result<Conversion, ConfigError>)
    ensures
        cache_size == 0 ==> r == Err::<Conversion, ConfigError>(ConfigError::ZeroCapacity),
        cache_size > 0 ==> r is Ok && r.unwrap().is_run_of(Mode::Decompress, texts(lines@)),
{
    convert(Mode::Decompress, lines, cache_size)
}

} // verus!

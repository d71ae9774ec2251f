//! One row of the file: an opaque dimensions token, a colon, and a payload of
//! digits that is recoded.

use crate::codec::{
    bin_to_hex, bin_to_hex_spec, chars_result, hex_to_bin, hex_to_bin_spec, lemma_bin_round_trip,
    lemma_hex_round_trip, upper_case, PayloadError,
};
use crate::text::{chars_of, push_range};
use vstd::prelude::*;
use vstd::string::StrSliceExecFns;
use vstd::string::StringExecFns;

verus! {

/// The direction of a conversion.
#[derive(Clone, Copy, Debug, PartialEq, Eq, Structural)]
pub enum Mode {
    /// Binary digits become hexadecimal digits.
    Compress,
    /// Hexadecimal digits become binary digits.
    Decompress,
}

/// Why a line cannot be converted.
#[derive(Clone, Copy, Debug, PartialEq, Eq, Structural)]
pub enum LineError {
    /// The line holds no colon, so it has no payload.
    MissingSeparator,
    /// The payload is not a digit string of the expected form.
    Payload(PayloadError),
}

/// The character between the dimensions and the payload.
pub open spec fn separator() -> char {
    ':'
}

/// What the codec of a mode makes of a payload.
pub open spec fn convert_payload_spec(mode: Mode, payload: Seq<char>) -> Result<
    Seq<char>,
    PayloadError,
> {
    match mode {
        Mode::Compress => bin_to_hex_spec(payload),
        Mode::Decompress => hex_to_bin_spec(payload),
    }
}

/// What `convert_line` returns: the line up to and with its first colon,
/// followed by the converted form of all that stands behind that colon.
pub open spec fn convert_line_spec(mode: Mode, line: Seq<char>) -> Result<Seq<char>, LineError> {
    match line.index_of_first(separator()) {
        None => Err(LineError::MissingSeparator),
        Some(at) => match convert_payload_spec(mode, line.skip(at + 1)) {
            Ok(converted) => Ok(line.take(at + 1) + converted),
            Err(e) => Err(LineError::Payload(e)),
        },
    }
}

/// An index that holds `needle` while no index before it does is the one that
/// `index_of_first` gives.
pub proof fn lemma_first_index_is_unique<A>(s: Seq<A>, needle: A, at: int)
    requires
        0 <= at < s.len(),
        s[at] == needle,
        forall|j: int| 0 <= j < at ==> s[j] != needle,
    ensures
        s.index_of_first(needle) == Some(at),
{
    s.index_of_first_ensures(needle);
    assert(s.contains(needle));
}

/// Applies the codec of `mode` to `payload`.
pub fn convert_payload(mode: Mode, payload: &str) -> (r: Result<String, PayloadError>)
    ensures
        chars_result(r) == convert_payload_spec(mode, payload@),
{
    match mode {
        Mode::Compress => bin_to_hex(payload),
        Mode::Decompress => hex_to_bin(payload),
    }
}

/// Converts one line: the dimensions and the colon pass through unchanged,
/// the payload behind the first colon is recoded.
pub fn convert_line(mode: Mode, line: &str) -> (r: Result<String, LineError>)
    ensures
        chars_result(r) == convert_line_spec(mode, line@),
{
    let chars = chars_of(line);
    let n = chars.len();
    let mut at: usize = 0;
    while at < n && chars[at] != ':'
        invariant
            n == chars.len(),
            at <= n,
            forall|j: int| 0 <= j < at ==> chars@[j] != separator(),
        decreases n - at,
    {
        at += 1;
    }
    if at == n {
        proof {
            chars@.index_of_first_ensures(separator());
        }
        return Err(LineError::MissingSeparator);
    }
    proof {
        lemma_first_index_is_unique(chars@, separator(), at as int);
    }
    let payload = line.substring_char(at + 1, n);
    match convert_payload(mode, payload) {
        Err(e) => Err(LineError::Payload(e)),
        Ok(converted) => {
            let mut out = String::new();
            push_range(&mut out, &chars, 0, at + 1);
            out.append(converted.as_str());
            Ok(out)
        },
    }
}

/// A line that compresses comes back unchanged when its compressed form is
/// expanded.
pub proof fn lemma_compressed_line_expands_back(line: Seq<char>)
    requires
        convert_line_spec(Mode::Compress, line) is Ok,
    ensures
        convert_line_spec(Mode::Decompress, convert_line_spec(Mode::Compress, line).unwrap()) == Ok::<
            Seq<char>,
            LineError,
        >(line),
{
    line.index_of_first_ensures(separator());
    let at = line.index_of_first(separator()).unwrap();
    let compressed = convert_line_spec(Mode::Compress, line).unwrap();
    lemma_first_index_is_unique(compressed, separator(), at);
    lemma_bin_round_trip(line.skip(at + 1));
    assert(compressed.skip(at + 1) == bin_to_hex_spec(line.skip(at + 1)).unwrap());
    assert(compressed.take(at + 1) == line.take(at + 1));
    assert(compressed.take(at + 1) + line.skip(at + 1) == line);
}

/// A line that expands comes back with its payload in upper case when its
/// expanded form is compressed.
pub proof fn lemma_expanded_line_compresses_back(line: Seq<char>)
    requires
        convert_line_spec(Mode::Decompress, line) is Ok,
    ensures
        line.index_of_first(separator()) matches Some(at) && convert_line_spec(
            Mode::Compress,
            convert_line_spec(Mode::Decompress, line).unwrap(),
        ) == Ok::<Seq<char>, LineError>(line.take(at + 1) + upper_case(line.skip(at + 1))),
{
    line.index_of_first_ensures(separator());
    let at = line.index_of_first(separator()).unwrap();
    let expanded = convert_line_spec(Mode::Decompress, line).unwrap();
    lemma_first_index_is_unique(expanded, separator(), at);
    lemma_hex_round_trip(line.skip(at + 1));
    assert(expanded.skip(at + 1) == hex_to_bin_spec(line.skip(at + 1)).unwrap());
    assert(expanded.take(at + 1) == line.take(at + 1));
}

} // verus!

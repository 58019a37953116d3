//! Bytes as lines of text.
//!
//! A stream of bytes is cut into lines at each newline byte; a line is text
//! when its bytes are UTF-8.

use vstd::prelude::*;
use vstd::slice::slice_subrange;
use vstd::string::StringSliceAdditionalSpecFns;
use vstd::utf8::{decode_utf8, valid_utf8};

verus! {

/// The error of `std::str::from_utf8`.
#[verifier::external_type_specification]
#[verifier::external_body]
pub struct ExUtf8Error(std::str::Utf8Error);

/// Trusted: `std::str::from_utf8` succeeds exactly on UTF-8, and the text it
/// returns is made of the bytes it was given.
pub assume_specification[ std::str::from_utf8 ](bytes: &[u8]) -> (text: Result<
    &str,
    std::str::Utf8Error,
>)
    ensures
        text is Ok <==> valid_utf8(bytes@),
        text is Ok ==> text->Ok_0.spec_bytes() == bytes@,
;

/// Whether `c` has the Unicode property White_Space, by which
/// `char::is_whitespace` and the trimming of `str` go: the controls from tab
/// to carriage return, the space, the next-line control, the no-break
/// space, the Ogham space mark, the spaces from en quad to hair space, the
/// line and paragraph separators, the narrow no-break space, the medium
/// mathematical space and the ideographic space.
pub open spec fn white_space(c: char) -> bool {
    let code = c as u32;
    ||| 0x0009 <= code <= 0x000D
    ||| code == 0x0020
    ||| code == 0x0085
    ||| code == 0x00A0
    ||| code == 0x1680
    ||| 0x2000 <= code <= 0x200A
    ||| code == 0x2028
    ||| code == 0x2029
    ||| code == 0x202F
    ||| code == 0x205F
    ||| code == 0x3000
}

/// Whether `c` is white space.
pub fn is_white_space(c: char) -> (yes: bool)
    ensures
        yes == white_space(c),
{
    let code = c as u32;
    (0x0009 <= code && code <= 0x000D) || code == 0x0020 || code == 0x0085 || code == 0x00A0
        || code == 0x1680 || (0x2000 <= code && code <= 0x200A) || code == 0x2028 || code
        == 0x2029 || code == 0x202F || code == 0x205F || code == 0x3000
}

/// `text` without its leading white space.
pub open spec fn trimmed_start(text: Seq<char>) -> Seq<char>
    decreases text.len(),
{
    if text.len() > 0 && white_space(text.first()) {
        trimmed_start(text.drop_first())
    } else {
        text
    }
}

/// `text` without its trailing white space.
pub open spec fn trimmed_end(text: Seq<char>) -> Seq<char>
    decreases text.len(),
{
    if text.len() > 0 && white_space(text.last()) {
        trimmed_end(text.drop_last())
    } else {
        text
    }
}

/// `text` without its leading and trailing white space.
pub open spec fn trimmed(text: Seq<char>) -> Seq<char> {
    trimmed_end(trimmed_start(text))
}

/// Trusted: `str::trim` removes the leading and the trailing characters that
/// have the property White_Space, and no others.
pub assume_specification[ str::trim ](text: &str) -> (inner: &str)
    ensures
        inner@ == trimmed(text@),
;

/// Trusted: `str::trim_end` removes the trailing characters that have the
/// property White_Space, and no others.
pub assume_specification[ str::trim_end ](text: &str) -> (inner: &str)
    ensures
        inner@ == trimmed_end(text@),
;

/// The error of the number parsers of `std`.
#[verifier::external_type_specification]
#[verifier::external_body]
pub struct ExParseIntError(std::num::ParseIntError);

/// Whether `c` is a decimal digit.
pub open spec fn is_digit(c: char) -> bool {
    0x30 <= c as u32 <= 0x39
}

/// The number that the decimal digits `digits` spell.
pub open spec fn number(digits: Seq<char>) -> nat
    decreases digits.len(),
{
    if digits.len() == 0 {
        0
    } else {
        number(digits.drop_last()) * 10 + (digits.last() as u32 - 0x30) as nat
    }
}

/// The number that `text` spells in decimal: digits, one at least, with or
/// without a `+` before them, and no more than a `u64` holds. `None` for
/// any other text.
pub open spec fn decimal_of(text: Seq<char>) -> Option<u64> {
    let digits = if text.len() > 0 && text[0] == '+' {
        text.drop_first()
    } else {
        text
    };
    if digits.len() > 0 && (forall|i: int| 0 <= i < digits.len() ==> is_digit(#[trigger] digits[i]))
        && number(digits) <= u64::MAX {
        Some(number(digits) as u64)
    } else {
        None
    }
}

/// Trusted: `u64::from_str_radix` with the radix ten gives the number that
/// the text spells in decimal, and an error for a text that spells none.
/// It panics on a radix outside of 2 to 36.
pub assume_specification[ u64::from_str_radix ](text: &str, radix: u32) -> (value: Result<
    u64,
    std::num::ParseIntError,
>)
    requires
        2 <= radix <= 36,
    ensures
        radix == 10 ==> (value is Ok <==> decimal_of(text@) is Some),
        radix == 10 && value is Ok ==> decimal_of(text@) == Some(value->Ok_0),
;

/// The newline byte.
pub const NEWLINE: u8 = 0x0A;

/// The carriage return byte.
pub const CARRIAGE_RETURN: u8 = 0x0D;

/// Where the line that starts at `from` ends: the index of the first newline
/// at or after `from`, or the length of `bytes` where there is none.
pub open spec fn line_end(bytes: Seq<u8>, from: int) -> int
    decreases bytes.len() - from,
{
    if from < 0 || from >= bytes.len() {
        bytes.len() as int
    } else if bytes[from] == NEWLINE {
        from
    } else {
        line_end(bytes, from + 1)
    }
}

/// The content of a line that was read up to its newline (`terminated`) or
/// up to the end of the stream: a carriage return before the newline is no
/// part of the line.
pub open spec fn line_body(chunk: Seq<u8>, terminated: bool) -> Seq<u8> {
    if terminated && chunk.len() > 0 && chunk.last() == CARRIAGE_RETURN {
        chunk.drop_last()
    } else {
        chunk
    }
}

/// The lines of `bytes` from index `from` on.
pub open spec fn lines_from(bytes: Seq<u8>, from: int) -> Seq<Seq<u8>>
    decreases bytes.len() - from,
{
    if from < 0 || from >= bytes.len() {
        seq![]
    } else {
        let end = line_end(bytes, from);
        let rest = if from <= end < bytes.len() {
            lines_from(bytes, end + 1)
        } else {
            seq![]
        };
        seq![line_body(bytes.subrange(from, end), end < bytes.len())] + rest
    }
}

/// The lines of `bytes`: what stands between newlines, the last line with
/// or without a newline after it, nothing for an empty stream.
pub open spec fn lines_of(bytes: Seq<u8>) -> Seq<Seq<u8>> {
    lines_from(bytes, 0)
}

/// The lines of `bytes` as text; `None` where a line is not UTF-8.
pub open spec fn text_of(bytes: Seq<u8>) -> Option<Seq<Seq<char>>> {
    let lines = lines_of(bytes);
    if forall|i: int| 0 <= i < lines.len() ==> valid_utf8(#[trigger] lines[i]) {
        Some(Seq::new(lines.len(), |i: int| decode_utf8(lines[i])))
    } else {
        None
    }
}

/// Finds the end of the line that starts at `from`.
fn find_line_end(data: &[u8], from: usize) -> (end: usize)
    requires
        from <= data.len(),
    ensures
        end == line_end(data@, from as int),
        from <= end <= data.len(),
{
    let mut end: usize = from;
    while end < data.len() && data[end] != NEWLINE
        invariant
            from <= end <= data.len(),
            line_end(data@, from as int) == line_end(data@, end as int),
        decreases data.len() - end,
    {
        end = end + 1;
    }
    end
}

/// Reads `data` as lines of text, as a buffered reader's `lines` would:
/// `None` where some line is not UTF-8.
pub fn read_lines(data: &[u8]) -> (lines: Option<Vec<String>>)
    ensures
        match lines {
            Some(lines) => text_of(data@) == Some(lines.deep_view()),
            None => text_of(data@) is None,
        },
{
    let mut lines: Vec<String> = Vec::new();
    let mut from: usize = 0;
    let ghost all = lines_of(data@);
    while from < data.len()
        invariant
            from <= data.len(),
            all == lines_of(data@),
            lines@.len() <= all.len(),
            all == all.take(lines@.len() as int) + lines_from(data@, from as int),
            forall|i: int|
                0 <= i < lines@.len() ==> valid_utf8(#[trigger] all[i]) && lines@[i]@
                    == decode_utf8(all[i]),
        decreases data.len() - from,
    {
        let end = find_line_end(data, from);
        let terminated = end < data.len();
        let ghost chunk = data@.subrange(from as int, end as int);
        let stop = if terminated && from < end && data[end - 1] == CARRIAGE_RETURN {
            end - 1
        } else {
            end
        };
        let body = slice_subrange(data, from, stop);
        assert(body@ == line_body(chunk, terminated));
        let ghost rest = lines_from(data@, end + 1);
        assert(lines_from(data@, from as int) == seq![body@] + rest);
        assert(all == all.take(lines@.len() as int) + (seq![body@] + rest));
        assert(all[lines@.len() as int] == body@);
        match std::str::from_utf8(body) {
            Ok(text) => {
                proof {
                    vstd::utf8::encode_utf8_decode_utf8(text@);
                }
                lines.push(text.to_owned());
                assert(all.take(lines@.len() as int) =~= all.take(lines@.len() - 1).push(body@));
                assert(all =~= all.take(lines@.len() as int) + rest);
            },
            Err(_) => {
                return None;
            },
        }
        from = if terminated {
            end + 1
        } else {
            end
        };
        assert(lines_from(data@, end + 1) == lines_from(data@, from as int));
    }
    assert(lines_from(data@, from as int) =~= seq![]);
    assert(all.take(lines@.len() as int) =~= all);
    assert(lines.deep_view() =~= Seq::new(all.len(), |i: int| decode_utf8(all[i])));
    Some(lines)
}

} // verus!

//! The control file: lines of `key: value`, with a `Description` that may
//! run over several lines.

use crate::codec::{ascii, spells};
use crate::error::{view_of, Failure};
use crate::fields::{put, ControlMap, Field};
use crate::text::{read_lines, text_of, trimmed};
use crate::walk::{
    plain_stream, stream_walk, tar_entries, tar_listing, tar_next, tar_open, tar_pending, Entry,
    EntryView, Stream,
};
use vstd::prelude::*;
use vstd::string::{StrSliceExecFns, StringExecFns, StringSliceAdditionalSpecFns};
use vstd::utf8::{
    decode_first_scalar, decode_utf8, encode_scalar, encode_utf8, is_char_boundary,
    leading_bits_width_1, leading_byte_width_1, pop_first_scalar, valid_utf8,
};

verus! {

/// The byte of the colon.
pub const COLON: u8 = 0x3A;

/// The index of the first `c` in `text` at or after `from`; the length of
/// `text` where there is none.
pub open spec fn index_of(text: Seq<char>, c: char, from: int) -> int
    decreases text.len() - from,
{
    if from < 0 || from >= text.len() {
        text.len() as int
    } else if text[from] == c {
        from
    } else {
        index_of(text, c, from + 1)
    }
}

/// The index of the first colon of `line`.
pub open spec fn colon(line: Seq<char>) -> int {
    index_of(line, ':', 0)
}

/// Whether `line` holds a field: it does when it holds a colon.
pub open spec fn has_field(line: Seq<char>) -> bool {
    colon(line) < line.len()
}

/// The key of the field of `line`: the text before the first colon.
pub open spec fn field_key(line: Seq<char>) -> Seq<char> {
    line.subrange(0, colon(line))
}

/// The text of `line` after the first colon, as it stands.
pub open spec fn field_rest(line: Seq<char>) -> Seq<char> {
    line.subrange(colon(line) + 1, line.len() as int)
}

/// The value of the field of `line`: the text after the first colon,
/// without the white space around it.
pub open spec fn field_value(line: Seq<char>) -> Seq<char> {
    trimmed(field_rest(line))
}

/// Where `index_of` points.
pub proof fn lemma_index_of(text: Seq<char>, c: char, from: int)
    requires
        0 <= from <= text.len(),
    ensures
        from <= index_of(text, c, from) <= text.len(),
        index_of(text, c, from) < text.len() ==> text[index_of(text, c, from)] == c,
        forall|i: int| from <= i < index_of(text, c, from) ==> text[i] != c,
    decreases text.len() - from,
{
    if from < text.len() && text[from] != c {
        lemma_index_of(text, c, from + 1);
    }
}

/// The first `c` of a text is where a `c` stands with none before it.
pub proof fn lemma_index_of_is(text: Seq<char>, c: char, at: int)
    requires
        0 <= at <= text.len(),
        at < text.len() ==> text[at] == c,
        forall|i: int| 0 <= i < at ==> text[i] != c,
    ensures
        index_of(text, c, 0) == at,
{
    lemma_index_of(text, c, 0);
}

/// The encoding of a text that holds a colon holds the colon's byte.
proof fn lemma_colon_byte(text: Seq<char>, at: int) -> (j: int)
    requires
        0 <= at < text.len(),
        text[at] == ':',
    ensures
        0 <= j < encode_utf8(text).len(),
        encode_utf8(text)[j] == COLON,
    decreases at,
{
    let head = encode_scalar(text[0] as u32);
    let tail = encode_utf8(text.drop_first());
    assert(encode_utf8(text) == head + tail);
    if at == 0 {
        assert(leading_byte_width_1(0x3Au32) == 0x3Au8) by (bit_vector);
        0
    } else {
        let j = lemma_colon_byte(text.drop_first(), at - 1);
        head.len() + j
    }
}

/// Text decoded from bytes that hold no colon byte holds no colon.
proof fn lemma_no_colon(bytes: Seq<u8>)
    requires
        valid_utf8(bytes),
        forall|j: int| 0 <= j < bytes.len() ==> bytes[j] != COLON,
    ensures
        forall|i: int| 0 <= i < decode_utf8(bytes).len() ==> decode_utf8(bytes)[i] != ':',
{
    let text = decode_utf8(bytes);
    vstd::utf8::decode_utf8_encode_utf8(bytes);
    assert forall|i: int| 0 <= i < text.len() implies text[i] != ':' by {
        if text[i] == ':' {
            let j = lemma_colon_byte(text, i);
        }
    }
}

/// Bytes cut at their first colon byte decode to the text before the first
/// colon and the text after it.
proof fn lemma_split_at_colon(bytes: Seq<u8>, at: int)
    requires
        valid_utf8(bytes),
        0 <= at < bytes.len(),
        bytes[at] == COLON,
        forall|j: int| 0 <= j < at ==> bytes[j] != COLON,
    ensures
        is_char_boundary(bytes, at),
        is_char_boundary(bytes.subrange(at, bytes.len() as int), 1),
        valid_utf8(bytes.subrange(at, bytes.len() as int)),
        has_field(decode_utf8(bytes)),
        field_key(decode_utf8(bytes)) == decode_utf8(bytes.subrange(0, at)),
        field_rest(decode_utf8(bytes)) == decode_utf8(bytes.subrange(at + 1, bytes.len() as int)),
{
    let before = bytes.subrange(0, at);
    let from = bytes.subrange(at, bytes.len() as int);
    let after = bytes.subrange(at + 1, bytes.len() as int);
    vstd::utf8::is_char_boundary_iff_not_is_continuation_byte(bytes, at);
    vstd::utf8::valid_utf8_split(bytes, at);
    vstd::utf8::decode_utf8_split(bytes, at);
    assert(from[0] == COLON);
    assert(decode_first_scalar(from) == 0x3Au32) by {
        assert(leading_bits_width_1(0x3Au8) == 0x3Au32) by (bit_vector);
    }
    assert(pop_first_scalar(from) =~= after);
    assert(is_char_boundary(from, 1)) by {
        reveal_with_fuel(is_char_boundary, 2);
    }
    assert(0x3Au32 as char == ':') by {
        vstd::utf8::char_u32_cast(':', 0x3Au32);
    }
    assert(decode_utf8(from) == seq![':'] + decode_utf8(after));
    lemma_no_colon(before);
    let text = decode_utf8(bytes);
    let key = decode_utf8(before);
    assert(text =~= key + (seq![':'] + decode_utf8(after)));
    lemma_index_of_is(text, ':', key.len() as int);
    assert(field_key(text) =~= key);
    assert(field_rest(text) =~= decode_utf8(after));
}

/// Cuts `line` at its first colon: the key before it and the text after
/// it; `None` where the line holds no colon.
pub fn split_field(line: &str) -> (parts: Option<(&str, &str)>)
    ensures
        match parts {
            Some((key, rest)) => has_field(line@) && key@ == field_key(line@) && rest@
                == field_rest(line@),
            None => !has_field(line@),
        },
{
    let bytes = line.as_bytes();
    proof {
        vstd::utf8::encode_utf8_valid_utf8(line@);
        vstd::utf8::encode_utf8_decode_utf8(line@);
    }
    let mut at: usize = 0;
    while at < bytes.len() && bytes[at] != COLON
        invariant
            at <= bytes.len(),
            forall|j: int| 0 <= j < at ==> bytes@[j] != COLON,
        decreases bytes.len() - at,
    {
        at = at + 1;
    }
    if at == bytes.len() {
        proof {
            lemma_no_colon(bytes@);
            lemma_index_of(line@, ':', 0);
        }
        return None;
    }
    proof {
        lemma_split_at_colon(bytes@, at as int);
    }
    let (key, from) = line.split_at(at);
    let (_, rest) = from.split_at(1);
    proof {
        vstd::utf8::encode_utf8_decode_utf8(key@);
        vstd::utf8::encode_utf8_decode_utf8(rest@);
        assert(rest.spec_bytes() =~= bytes@.subrange(at + 1, bytes@.len() as int));
    }
    Some((key, rest))
}

/// Whether `line` continues the value of the line before it: it does when
/// it begins with a space.
pub open spec fn continues(line: Seq<char>) -> bool {
    line.len() > 0 && line[0] == ' '
}

/// The index of the first line at or after `from` that does not continue
/// the line before it; the number of lines where all the rest do.
pub open spec fn fold_end(lines: Seq<Seq<char>>, from: int) -> int
    decreases lines.len() - from,
{
    if from < 0 || from >= lines.len() {
        lines.len() as int
    } else if !continues(lines[from]) {
        from
    } else {
        fold_end(lines, from + 1)
    }
}

/// `value` with the lines from `from` up to `to` added, each after a
/// newline and with its leading space kept.
pub open spec fn folded(value: Seq<char>, lines: Seq<Seq<char>>, from: int, to: int) -> Seq<char>
    decreases to - from,
{
    if to <= from || to > lines.len() || from < 0 {
        value
    } else {
        folded(value, lines, from, to - 1) + seq!['\n'] + lines[to - 1]
    }
}

/// The key whose first occurrence may run over several lines.
pub open spec fn description() -> Seq<char> {
    "Description"@
}

/// The fields after the lines from `at` on were read into `fields`. A line
/// without a colon is passed over. While `fold` holds, a `Description` takes
/// the lines that continue it into its value, and `fold` ends there: a later
/// `Description` is a field like any other.
pub open spec fn parse_from(
    fields: Seq<Field>,
    lines: Seq<Seq<char>>,
    at: int,
    fold: bool,
) -> Seq<Field>
    decreases lines.len() - at,
{
    if at < 0 || at >= lines.len() {
        fields
    } else if !has_field(lines[at]) {
        parse_from(fields, lines, at + 1, fold)
    } else if fold && field_key(lines[at]) == description() {
        let end = fold_end(lines, at + 1);
        let value = folded(field_value(lines[at]), lines, at + 1, end);
        if at < end <= lines.len() {
            parse_from(put(fields, field_key(lines[at]), value), lines, end, false)
        } else {
            fields
        }
    } else {
        parse_from(put(fields, field_key(lines[at]), field_value(lines[at])), lines, at + 1, fold)
    }
}

/// The fields of a control file with the lines `lines`, read into
/// `fields`.
pub open spec fn parse(fields: Seq<Field>, lines: Seq<Seq<char>>) -> Seq<Field> {
    parse_from(fields, lines, 0, true)
}

/// Where `fold_end` points.
pub proof fn lemma_fold_end(lines: Seq<Seq<char>>, from: int)
    requires
        0 <= from <= lines.len(),
    ensures
        from <= fold_end(lines, from) <= lines.len(),
        fold_end(lines, from) < lines.len() ==> !continues(lines[fold_end(lines, from)]),
        forall|i: int| from <= i < fold_end(lines, from) ==> continues(#[trigger] lines[i]),
    decreases lines.len() - from,
{
    if from < lines.len() && continues(lines[from]) {
        lemma_fold_end(lines, from + 1);
    }
}

/// Folds the lines that continue a value into it: `value` is the value
/// that stands in the line before `from`, with the white space around it
/// taken off. Each line from `from` on that begins with a space is added
/// after a newline, its leading space kept, up to the first line that does
/// not. Returns the folded value and the index of that line.
pub fn fold_lines(value: String, lines: &Vec<String>, from: usize) -> (out: (String, usize))
    ensures
        out.1 == fold_end(lines.deep_view(), from as int),
        out.0@ == folded(value@, lines.deep_view(), from as int, out.1 as int),
{
    let ghost text = lines.deep_view();
    let ghost first = value@;
    if from >= lines.len() {
        return (value, lines.len());
    }
    let mut value = value;
    let mut next: usize = from;
    while next < lines.len() && starts_with_space(lines[next].as_str())
        invariant
            from <= next <= lines.len(),
            text == lines.deep_view(),
            value@ == folded(first, text, from as int, next as int),
            fold_end(text, from as int) == fold_end(text, next as int),
        decreases lines.len() - next,
    {
        proof {
            reveal_strlit("\n");
        }
        assert(lines[next as int]@ == text[next as int]);
        value.append("\n");
        value.append(lines[next].as_str());
        next = next + 1;
    }
    assert(next < lines.len() ==> lines[next as int]@ == text[next as int]);
    (value, next)
}

/// Reads the lines of a control file into `map`.
pub fn parse_lines(map: &mut ControlMap, lines: &Vec<String>)
    ensures
        final(map)@ == parse(old(map)@, lines.deep_view()),
{
    let ghost text = lines.deep_view();
    let ghost start = map@;
    let mut at: usize = 0;
    let mut fold = true;
    while at < lines.len()
        invariant
            at <= lines.len(),
            text == lines.deep_view(),
            parse(start, text) == parse_from(map@, text, at as int, fold),
        decreases lines.len() - at,
    {
        let line = lines[at].as_str();
        assert(line@ == text[at as int]);
        match split_field(line) {
            None => {
                at = at + 1;
            },
            Some((key, rest)) => {
                let key = key.to_owned();
                let value = rest.trim().to_owned();
                let wanted = "Description".to_owned();
                if fold && key == wanted {
                    fold = false;
                    proof {
                        lemma_fold_end(text, at + 1);
                    }
                    let (value, next) = fold_lines(value, lines, at + 1);
                    map.insert(key, value);
                    at = next;
                } else {
                    map.insert(key, value);
                    at = at + 1;
                }
            },
        }
    }
}

/// Whether `line` begins with a space.
fn starts_with_space(line: &str) -> (yes: bool)
    ensures
        yes == continues(line@),
{
    !line.is_empty() && line.get_char(0) == ' '
}

/// Whether `path` is that of the control file: `control`, with or without
/// `./` before it.
pub open spec fn is_control_path(path: Seq<u8>) -> bool {
    path == ascii("control"@) || path == ascii("./control"@)
}

/// The fields after `entry` was read into `fields`: those of its lines
/// where it is the control file, the same fields where it is not. The
/// failure where a line of the control file is not UTF-8.
pub open spec fn entry_fields(fields: Seq<Field>, entry: EntryView) -> Result<Seq<Field>, Failure> {
    if is_control_path(entry.path) {
        match text_of(entry.data) {
            Some(lines) => Ok(parse(fields, lines)),
            None => Err(Failure::Text),
        }
    } else {
        Ok(fields)
    }
}

/// The fields after the items of `listing` from `at` on were read into
/// `fields`, up to the first failure: an item that is an error, or a
/// control file that is no text.
pub open spec fn collect_from(fields: Seq<Field>, listing: Seq<Result<EntryView, std::io::ErrorKind>>, at: int) -> Result<
    Seq<Field>,
    Failure,
>
    decreases listing.len() - at,
{
    if at < 0 || at >= listing.len() {
        Ok(fields)
    } else {
        match listing[at] {
            Err(kind) => Err(Failure::Tar(kind)),
            Ok(entry) => match entry_fields(fields, entry) {
                Ok(fields) => collect_from(fields, listing, at + 1),
                Err(failure) => Err(failure),
            },
        }
    }
}

/// The fields of the control file among the entries of `listing`.
pub open spec fn control_fields(listing: Seq<Result<EntryView, std::io::ErrorKind>>) -> Result<Seq<Field>, Failure> {
    collect_from(Seq::empty(), listing, 0)
}

/// Whether `path` is that of the control file.
pub fn names_control(path: &[u8]) -> (yes: bool)
    ensures
        yes == is_control_path(path@),
{
    proof {
        reveal_strlit("control");
        reveal_strlit("./control");
    }
    spells(path, "control") || spells(path, "./control")
}

/// Reads `entry` into `map` where it is the control file. Where a line of
/// it is not UTF-8, nothing is read.
pub fn read_entry(map: &mut ControlMap, entry: &Entry) -> (outcome: Result<(), Failure>)
    ensures
        match outcome {
            Ok(()) => entry_fields(old(map)@, entry@) == Ok::<Seq<Field>, Failure>(final(map)@),
            Err(failure) => entry_fields(old(map)@, entry@) == Err::<Seq<Field>, Failure>(failure)
                && final(map)@ == old(map)@,
        },
{
    if !names_control(entry.path.as_slice()) {
        return Ok(());
    }
    match read_lines(entry.data.as_slice()) {
        Some(lines) => {
            parse_lines(map, &lines);
            Ok(())
        },
        None => Err(Failure::Text),
    }
}

/// Walks the entries of `stream` and reads the control file among them.
/// A stream without a control file gives the empty mapping.
pub fn read_control(stream: &[u8]) -> (outcome: Result<ControlMap, Failure>)
    ensures
        view_of(outcome) == control_fields(tar_listing(stream@)),
{
    read_control_stream(plain_stream(stream))
}

/// Walks the entries of `stream` and reads the control file among them, as
/// `read_control` does with bytes.
pub(crate) fn read_control_stream(stream: Stream) -> (outcome: Result<ControlMap, Failure>)
    ensures
        view_of(outcome) == control_fields(stream_walk(stream)),
{
    let ghost listing = stream_walk(stream);
    let mut map = ControlMap::new();
    let mut reader = tar_open(stream);
    let mut entries = match tar_entries(&mut reader) {
        Ok(entries) => entries,
        Err(kind) => {
            return Err(Failure::Tar(kind));
        },
    };
    let ghost mut at: int = 0;
    loop
        invariant
            listing == stream_walk(stream),
            0 <= at <= listing.len(),
            tar_pending(entries) == listing.skip(at),
            control_fields(listing) == collect_from(map@, listing, at),
        decreases tar_pending(entries).len(),
    {
        match tar_next(&mut entries) {
            None => {
                return Ok(map);
            },
            Some(Err(kind)) => {
                assert(listing[at] == listing.skip(at)[0]);
                return Err(Failure::Tar(kind));
            },
            Some(Ok(entry)) => {
                assert(listing[at] == listing.skip(at)[0]);
                match read_entry(&mut map, &entry) {
                    Ok(()) => {},
                    Err(failure) => {
                        return Err(failure);
                    },
                }
                proof {
                    assert(listing.skip(at).drop_first() =~= listing.skip(at + 1));
                    at = at + 1;
                }
            },
        }
    }
}

/// The fields after the lines from `at` on were read with no folding at
/// all: each line with a colon is a field by itself.
pub open spec fn parse_plain(fields: Seq<Field>, lines: Seq<Seq<char>>, at: int) -> Seq<Field>
    decreases lines.len() - at,
{
    if at < 0 || at >= lines.len() {
        fields
    } else if !has_field(lines[at]) {
        parse_plain(fields, lines, at + 1)
    } else {
        parse_plain(put(fields, field_key(lines[at]), field_value(lines[at])), lines, at + 1)
    }
}

/// Once the first `Description` was read, no line is folded: a later
/// `Description` is stored with the value that stands in its own line, and
/// the lines after it are read as lines of their own.
pub proof fn lemma_later_description_is_plain(fields: Seq<Field>, lines: Seq<Seq<char>>, at: int)
    ensures
        parse_from(fields, lines, at, false) == parse_plain(fields, lines, at),
    decreases lines.len() - at,
{
    if 0 <= at < lines.len() {
        if has_field(lines[at]) {
            lemma_later_description_is_plain(
                put(fields, field_key(lines[at]), field_value(lines[at])),
                lines,
                at + 1,
            );
        } else {
            lemma_later_description_is_plain(fields, lines, at + 1);
        }
    }
}

/// The first `Description` takes the lines that continue it, and what
/// follows them is read without folding.
pub proof fn lemma_first_description_folds(fields: Seq<Field>, lines: Seq<Seq<char>>, at: int)
    requires
        0 <= at < lines.len(),
        has_field(lines[at]),
        field_key(lines[at]) == description(),
    ensures
        at < fold_end(lines, at + 1) <= lines.len(),
        parse_from(fields, lines, at, true) == parse_plain(
            put(
                fields,
                description(),
                folded(field_value(lines[at]), lines, at + 1, fold_end(lines, at + 1)),
            ),
            lines,
            fold_end(lines, at + 1),
        ),
{
    lemma_fold_end(lines, at + 1);
    let end = fold_end(lines, at + 1);
    let value = folded(field_value(lines[at]), lines, at + 1, end);
    lemma_later_description_is_plain(put(fields, description(), value), lines, end);
}

/// Entries that are no control file leave the fields as they are: a
/// stream of such entries, read without an error, gives the fields it was
/// given; read from nothing, the empty mapping.
pub proof fn lemma_no_control_file(fields: Seq<Field>, listing: Seq<Result<EntryView, std::io::ErrorKind>>, at: int)
    requires
        0 <= at <= listing.len(),
        forall|i: int|
            at <= i < listing.len() ==> match #[trigger] listing[i] {
                Ok(entry) => !is_control_path(entry.path),
                Err(_) => false,
            },
    ensures
        collect_from(fields, listing, at) == Ok::<Seq<Field>, Failure>(fields),
    decreases listing.len() - at,
{
    if at < listing.len() {
        assert(listing[at] is Ok);
        lemma_no_control_file(fields, listing, at + 1);
    }
}

} // verus!

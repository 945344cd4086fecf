//! The binary encoding of rows.
//!
//! Numbers are written by `bincode` in its standard configuration: lengths
//! and variant tags as variable-length unsigned integers, integer values
//! zigzag-folded and then written the same way. A string is its length in
//! bytes followed by its UTF-8 bytes, a list its number of items followed by
//! the items, a value its variant tag followed by its payload. Reading checks
//! every length against the bytes that are there before it takes them.

use crate::executor::result::Tuple;
use crate::sql::ast::{value_views, Value, ValueView};
use crate::text::{display_i64, i64_display, string_from_utf8};
use vstd::prelude::*;
use vstd::slice::{slice_subrange, slice_to_vec};
use vstd::utf8::{decode_utf8, encode_utf8, valid_utf8};

verus! {

/// `bincode::error::EncodeError`, the error of `bincode::encode_to_vec`.
/// Nothing is known of what is inside.
#[verifier::external_type_specification]
#[verifier::external_body]
pub struct ExEncodeError(bincode::error::EncodeError);

/// `bincode::error::DecodeError`, the error of `bincode::decode_from_slice`.
/// Nothing is known of what is inside.
#[verifier::external_type_specification]
#[verifier::external_body]
pub struct ExDecodeError(bincode::error::DecodeError);

/// The number that bytes hold in little-endian order.
pub open spec fn le_value(bytes: Seq<u8>) -> nat
    decreases bytes.len(),
{
    if bytes.len() == 0 {
        0
    } else {
        bytes[0] as nat + 256 * le_value(bytes.skip(1))
    }
}

/// The `width` bytes that hold a number in little-endian order.
pub open spec fn le_bytes(value: nat, width: nat) -> Seq<u8>
    decreases width,
{
    if width == 0 {
        Seq::empty()
    } else {
        seq![(value % 256) as u8] + le_bytes(value / 256, (width - 1) as nat)
    }
}

/// The variable-length form of an unsigned number below 2^64: one byte up
/// to 250, else a marker byte and the number in 2, 4 or 8 little-endian
/// bytes, whichever is the least that holds it.
pub open spec fn varint(value: nat) -> Seq<u8> {
    if value <= 250 {
        seq![value as u8]
    } else if value <= 0xFFFF {
        seq![251u8] + le_bytes(value, 2)
    } else if value <= 0xFFFF_FFFF {
        seq![252u8] + le_bytes(value, 4)
    } else {
        seq![253u8] + le_bytes(value, 8)
    }
}

/// Number of bytes that follow a marker byte, or 0 for a byte that is no
/// marker of a number of up to 8 bytes.
pub open spec fn marker_width(marker: u8) -> nat {
    if marker == 251 {
        2
    } else if marker == 252 {
        4
    } else if marker == 253 {
        8
    } else {
        0
    }
}

/// Reads a variable-length number of at most `widest` bytes from the front
/// of `bytes`: the number and how many bytes it took, or nothing where the
/// bytes run out or the marker is not one of a number that narrow. A number
/// is accepted in a wider form than it needs.
pub open spec fn varint_read(bytes: Seq<u8>, widest: nat) -> Option<(nat, nat)> {
    if bytes.len() == 0 {
        None
    } else if bytes[0] <= 250 {
        Some((bytes[0] as nat, 1))
    } else {
        let width = marker_width(bytes[0]);
        if width == 0 || width > widest || bytes.len() < 1 + width {
            None
        } else {
            Some((le_value(bytes.subrange(1, 1 + width as int)), 1 + width))
        }
    }
}

/// Folds a signed number into an unsigned one: 0, -1, 1, -2, 2, ...
pub open spec fn zigzag(value: i64) -> nat {
    if value < 0 {
        (-2 * value - 1) as nat
    } else {
        (2 * value) as nat
    }
}

/// Unfolds what `zigzag` folded.
pub open spec fn unzigzag(folded: nat) -> int {
    if folded % 2 == 0 {
        (folded / 2) as int
    } else {
        -(folded / 2) - 1
    }
}

/// Reads a folded signed number of at most 8 bytes from the front of
/// `bytes`: the number unfolded, and how many bytes it took.
pub open spec fn zigzag_read(bytes: Seq<u8>) -> Option<(int, nat)> {
    match varint_read(bytes, 8) {
        Some((folded, used)) => Some((unzigzag(folded), used)),
        None => None,
    }
}

/// `bincode::encode_to_vec` on a `u32` in the standard configuration: writes
/// the number in variable-length form, and cannot fail when writing to a
/// vector.
#[verifier::external_body]
fn bincode_encode_u32(value: u32) -> (bytes: Result<Vec<u8>, bincode::error::EncodeError>)
    ensures
        bytes is Ok,
        bytes->Ok_0@ == varint(value as nat),
{
    bincode::encode_to_vec(value, bincode::config::standard())
}

/// `bincode::encode_to_vec` on a `u64` in the standard configuration: writes
/// the number in variable-length form, and cannot fail when writing to a
/// vector.
#[verifier::external_body]
fn bincode_encode_u64(value: u64) -> (bytes: Result<Vec<u8>, bincode::error::EncodeError>)
    ensures
        bytes is Ok,
        bytes->Ok_0@ == varint(value as nat),
{
    bincode::encode_to_vec(value, bincode::config::standard())
}

/// `bincode::encode_to_vec` on an `i64` in the standard configuration: folds
/// the number by zigzag and writes that in variable-length form, and cannot
/// fail when writing to a vector.
#[verifier::external_body]
fn bincode_encode_i64(value: i64) -> (bytes: Result<Vec<u8>, bincode::error::EncodeError>)
    ensures
        bytes is Ok,
        bytes->Ok_0@ == varint(zigzag(value)),
{
    bincode::encode_to_vec(value, bincode::config::standard())
}

/// `bincode::decode_from_slice` for a `u32` in the standard configuration:
/// reads a variable-length number of at most 4 bytes from the front of the
/// slice and says how many bytes it took.
#[verifier::external_body]
fn bincode_decode_u32(bytes: &[u8]) -> (number: Result<(u32, usize), bincode::error::DecodeError>)
    ensures
        match number {
            Ok((value, used)) => varint_read(bytes@, 4) == Some((value as nat, used as nat)),
            Err(_) => varint_read(bytes@, 4) is None,
        },
{
    bincode::decode_from_slice::<u32, _>(bytes, bincode::config::standard())
}

/// `bincode::decode_from_slice` for a `u64` in the standard configuration:
/// reads a variable-length number of at most 8 bytes from the front of the
/// slice and says how many bytes it took.
#[verifier::external_body]
fn bincode_decode_u64(bytes: &[u8]) -> (number: Result<(u64, usize), bincode::error::DecodeError>)
    ensures
        match number {
            Ok((value, used)) => varint_read(bytes@, 8) == Some((value as nat, used as nat)),
            Err(_) => varint_read(bytes@, 8) is None,
        },
{
    bincode::decode_from_slice::<u64, _>(bytes, bincode::config::standard())
}

/// `bincode::decode_from_slice` for an `i64` in the standard configuration:
/// reads a variable-length number of at most 8 bytes from the front of the
/// slice, unfolds it by zigzag, and says how many bytes it took.
#[verifier::external_body]
fn bincode_decode_i64(bytes: &[u8]) -> (number: Result<(i64, usize), bincode::error::DecodeError>)
    ensures
        match number {
            Ok((value, used)) => zigzag_read(bytes@) == Some((value as int, used as nat)),
            Err(_) => zigzag_read(bytes@) is None,
        },
{
    bincode::decode_from_slice::<i64, _>(bytes, bincode::config::standard())
}

/// `DecodeError`'s `Display`: the error in words. Nothing is claimed of the
/// text.
#[verifier::external_body]
fn bincode_error_text(error: &bincode::error::DecodeError) -> (text: String) {
    error.to_string()
}

/// Why bytes could not be read as a row.
#[derive(Debug)]
pub enum CodecError {
    /// A number could not be read; the text is what `bincode` says of it.
    Integer(String),
    /// A string is longer than the bytes that are left.
    Truncated,
    /// A string is not valid UTF-8.
    InvalidUtf8,
    /// A value has a variant tag other than 0 and 1.
    UnknownVariant(u32),
}

/// The kinds of `CodecError`.
pub enum CodecErrorKind {
    Integer,
    Truncated,
    InvalidUtf8,
    UnknownVariant(u32),
}

impl View for CodecError {
    type V = CodecErrorKind;

    open spec fn view(&self) -> CodecErrorKind {
        match self {
            CodecError::Integer(_) => CodecErrorKind::Integer,
            CodecError::Truncated => CodecErrorKind::Truncated,
            CodecError::InvalidUtf8 => CodecErrorKind::InvalidUtf8,
            CodecError::UnknownVariant(tag) => CodecErrorKind::UnknownVariant(*tag),
        }
    }
}

/// What a `CodecError` says, for the kinds whose words are the library's.
pub open spec fn kind_text(kind: CodecErrorKind) -> Option<Seq<char>> {
    match kind {
        CodecErrorKind::Integer => None,
        CodecErrorKind::Truncated => Some("unexpected end of tuple data"@),
        CodecErrorKind::InvalidUtf8 => Some("string is not valid UTF-8"@),
        CodecErrorKind::UnknownVariant(tag) => Some(
            "unknown value variant "@ + i64_display(tag as i64),
        ),
    }
}

impl CodecError {
    /// The error in words. For a number that could not be read, the words
    /// are `bincode`'s.
    pub fn to_string(&self) -> (text: String)
        ensures
            kind_text(self@) matches Some(words) ==> text@ == words,
            self matches CodecError::Integer(inner) ==> text@ == inner@,
    {
        match self {
            CodecError::Integer(inner) => inner.clone(),
            CodecError::Truncated => String::from_str("unexpected end of tuple data"),
            CodecError::InvalidUtf8 => String::from_str("string is not valid UTF-8"),
            CodecError::UnknownVariant(tag) => {
                let shown = display_i64(*tag as i64);
                String::from_str("unknown value variant ").concat(shown.as_str())
            },
        }
    }
}

/// The encoding of a string: its length in bytes, then its UTF-8 bytes.
pub open spec fn string_encoding(text: Seq<char>) -> Seq<u8> {
    varint(encode_utf8(text).len()) + encode_utf8(text)
}

/// The encoding of a value: tag 0 and the folded number, or tag 1 and the
/// string.
pub open spec fn value_encoding(value: ValueView) -> Seq<u8> {
    match value {
        ValueView::Integer(n) => varint(0) + varint(zigzag(n)),
        ValueView::String(text) => varint(1) + string_encoding(text),
    }
}

/// The encodings of values, one after the other.
pub open spec fn values_encoding(values: Seq<ValueView>) -> Seq<u8>
    decreases values.len(),
{
    if values.len() == 0 {
        Seq::empty()
    } else {
        values_encoding(values.drop_last()) + value_encoding(values.last())
    }
}

/// The encoding of a row: the number of values, then the values.
pub open spec fn tuple_encoding(values: Seq<ValueView>) -> Seq<u8> {
    varint(values.len()) + values_encoding(values)
}

/// What reading gives: what was read and the position behind it, or why
/// reading failed.
pub type Decoded<T> = Result<(T, int), CodecErrorKind>;

/// Reads a number of at most `widest` bytes at `at`.
pub open spec fn read_number(bytes: Seq<u8>, at: int, widest: nat) -> Decoded<nat> {
    match varint_read(bytes.skip(at), widest) {
        Some((value, used)) => Ok((value, at + used)),
        None => Err(CodecErrorKind::Integer),
    }
}

/// Reads a string at `at`: a length, which must not exceed what is left,
/// then that many bytes, which must be valid UTF-8.
pub open spec fn read_string(bytes: Seq<u8>, at: int) -> Decoded<Seq<char>> {
    match read_number(bytes, at, 8) {
        Err(e) => Err(e),
        Ok((len, start)) => if len > bytes.len() - start {
            Err(CodecErrorKind::Truncated)
        } else if !valid_utf8(bytes.subrange(start, start + len)) {
            Err(CodecErrorKind::InvalidUtf8)
        } else {
            Ok((decode_utf8(bytes.subrange(start, start + len)), start + len))
        },
    }
}

/// Reads a value at `at`: a tag, then the payload that the tag announces.
pub open spec fn read_value(bytes: Seq<u8>, at: int) -> Decoded<ValueView> {
    match read_number(bytes, at, 4) {
        Err(e) => Err(e),
        Ok((tag, start)) => if tag == 0 {
            match read_number(bytes, start, 8) {
                Err(e) => Err(e),
                Ok((folded, end)) => Ok((ValueView::Integer(unzigzag(folded) as i64), end)),
            }
        } else if tag == 1 {
            match read_string(bytes, start) {
                Err(e) => Err(e),
                Ok((text, end)) => Ok((ValueView::String(text), end)),
            }
        } else {
            Err(CodecErrorKind::UnknownVariant(tag as u32))
        },
    }
}

/// Reads `count` values from `at` on, appending them to `seen`.
pub open spec fn read_values(bytes: Seq<u8>, at: int, count: nat, seen: Seq<ValueView>) -> Decoded<
    Seq<ValueView>,
>
    decreases count,
{
    if count == 0 {
        Ok((seen, at))
    } else {
        match read_value(bytes, at) {
            Err(e) => Err(e),
            Ok((value, next)) => read_values(bytes, next, (count - 1) as nat, seen.push(value)),
        }
    }
}

/// Reads a row at `at`: a count, then that many values.
pub open spec fn read_row(bytes: Seq<u8>, at: int) -> Decoded<Seq<ValueView>> {
    match read_number(bytes, at, 8) {
        Err(e) => Err(e),
        Ok((count, start)) => read_values(bytes, start, count, Seq::empty()),
    }
}

/// Reads a row from the front of `bytes`. What follows the last value is
/// not looked at.
pub open spec fn read_tuple(bytes: Seq<u8>) -> Result<Seq<ValueView>, CodecErrorKind> {
    match read_row(bytes, 0) {
        Err(e) => Err(e),
        Ok((values, _)) => Ok(values),
    }
}

/// Appends the variable-length form of a length.
pub fn write_len(out: &mut Vec<u8>, len: usize)
    ensures
        final(out)@ == old(out)@ + varint(len as nat),
{
    match bincode_encode_u64(len as u64) {
        Ok(mut bytes) => out.append(&mut bytes),
        // Writing to a vector does not fail.
        Err(_) => {},
    }
}

/// Appends a variant tag.
pub fn write_tag(out: &mut Vec<u8>, tag: u32)
    ensures
        final(out)@ == old(out)@ + varint(tag as nat),
{
    match bincode_encode_u32(tag) {
        Ok(mut bytes) => out.append(&mut bytes),
        // Writing to a vector does not fail.
        Err(_) => {},
    }
}

/// Appends the encoding of a string.
pub fn write_string(out: &mut Vec<u8>, text: &str)
    ensures
        final(out)@ == old(out)@ + string_encoding(text@),
{
    let payload: &[u8] = text.as_bytes();
    write_len(out, payload.len());
    let mut copy: Vec<u8> = slice_to_vec(payload);
    out.append(&mut copy);
    assert(out@ =~= old(out)@ + string_encoding(text@));
}

/// Appends the encoding of a value.
pub fn write_value(out: &mut Vec<u8>, value: &Value)
    ensures
        final(out)@ == old(out)@ + value_encoding(value@),
{
    match value {
        Value::Integer(n) => {
            write_tag(out, 0);
            match bincode_encode_i64(*n) {
                Ok(mut bytes) => out.append(&mut bytes),
                // Writing to a vector does not fail.
                Err(_) => {},
            }
        },
        Value::String(text) => {
            write_tag(out, 1);
            write_string(out, text.as_str());
        },
    }
    assert(out@ =~= old(out)@ + value_encoding(value@));
}

/// Encodes values as a row.
pub fn encode_values(values: &Vec<Value>) -> (bytes: Vec<u8>)
    ensures
        bytes@ == tuple_encoding(value_views(values@)),
{
    let ghost views = value_views(values@);
    let mut bytes: Vec<u8> = Vec::new();
    write_len(&mut bytes, values.len());
    let ghost head = bytes@;
    let mut k: usize = 0;
    while k < values.len()
        invariant
            k <= values@.len(),
            views == value_views(values@),
            head == varint(values@.len()),
            bytes@ == head + values_encoding(views.take(k as int)),
        decreases values@.len() - k,
    {
        write_value(&mut bytes, &values[k]);
        proof {
            let upto = views.take(k + 1);
            assert(upto.drop_last() =~= views.take(k as int));
            assert(upto.last() == values@[k as int]@);
        }
        k = k + 1;
    }
    assert(views.take(k as int) =~= views);
    bytes
}

/// Encodes a row.
pub fn encode_tuple(tuple: &Tuple) -> (bytes: Vec<u8>)
    ensures
        bytes@ == tuple_encoding(tuple@),
{
    encode_values(&tuple.values)
}

/// Reads a number of at most 8 bytes at `at`.
pub fn parse_u64(bytes: &[u8], at: usize) -> (number: Result<(u64, usize), CodecError>)
    requires
        at <= bytes@.len(),
    ensures
        match number {
            Ok((value, next)) => read_number(bytes@, at as int, 8) == Ok::<
                (nat, int),
                CodecErrorKind,
            >((value as nat, next as int)) && at < next <= bytes@.len(),
            Err(e) => read_number(bytes@, at as int, 8) == Err::<(nat, int), CodecErrorKind>(e@),
        },
{
    let rest = slice_subrange(bytes, at, bytes.len());
    assert(rest@ =~= bytes@.skip(at as int));
    match bincode_decode_u64(rest) {
        Ok((value, used)) => Ok((value, at + used)),
        Err(e) => Err(CodecError::Integer(bincode_error_text(&e))),
    }
}

/// Reads a string at `at`.
pub fn parse_string(bytes: &[u8], at: usize) -> (text: Result<(String, usize), CodecError>)
    requires
        at <= bytes@.len(),
    ensures
        match text {
            Ok((s, next)) => read_string(bytes@, at as int) == Ok::<(Seq<char>, int), CodecErrorKind>(
                (s@, next as int),
            ) && at < next <= bytes@.len(),
            Err(e) => read_string(bytes@, at as int) == Err::<(Seq<char>, int), CodecErrorKind>(e@),
        },
{
    let (len, start) = parse_u64(bytes, at)?;
    if len > (bytes.len() - start) as u64 {
        return Err(CodecError::Truncated);
    }
    let end: usize = start + len as usize;
    let payload: Vec<u8> = slice_to_vec(slice_subrange(bytes, start, end));
    match string_from_utf8(payload) {
        Some(s) => Ok((s, end)),
        None => Err(CodecError::InvalidUtf8),
    }
}

/// Reads a variant tag at `at`.
pub fn parse_tag(bytes: &[u8], at: usize) -> (tag: Result<(u32, usize), CodecError>)
    requires
        at <= bytes@.len(),
    ensures
        match tag {
            Ok((value, next)) => read_number(bytes@, at as int, 4) == Ok::<
                (nat, int),
                CodecErrorKind,
            >((value as nat, next as int)) && at < next <= bytes@.len(),
            Err(e) => read_number(bytes@, at as int, 4) == Err::<(nat, int), CodecErrorKind>(e@),
        },
{
    let rest = slice_subrange(bytes, at, bytes.len());
    assert(rest@ =~= bytes@.skip(at as int));
    match bincode_decode_u32(rest) {
        Ok((value, used)) => Ok((value, at + used)),
        Err(e) => Err(CodecError::Integer(bincode_error_text(&e))),
    }
}

/// Reads a value at `at`.
pub fn parse_value(bytes: &[u8], at: usize) -> (value: Result<(Value, usize), CodecError>)
    requires
        at <= bytes@.len(),
    ensures
        match value {
            Ok((v, next)) => read_value(bytes@, at as int) == Ok::<(ValueView, int), CodecErrorKind>(
                (v@, next as int),
            ) && at < next <= bytes@.len(),
            Err(e) => read_value(bytes@, at as int) == Err::<(ValueView, int), CodecErrorKind>(e@),
        },
{
    let (tag, start) = parse_tag(bytes, at)?;
    if tag == 0 {
        let tail = slice_subrange(bytes, start, bytes.len());
        assert(tail@ =~= bytes@.skip(start as int));
        match bincode_decode_i64(tail) {
            Ok((n, taken)) => Ok((Value::Integer(n), start + taken)),
            Err(e) => Err(CodecError::Integer(bincode_error_text(&e))),
        }
    } else if tag == 1 {
        let (s, end) = parse_string(bytes, start)?;
        Ok((Value::String(s), end))
    } else {
        Err(CodecError::UnknownVariant(tag))
    }
}

/// Reads a row at `at`.
pub fn parse_row(bytes: &[u8], at: usize) -> (row: Result<(Tuple, usize), CodecError>)
    requires
        at <= bytes@.len(),
    ensures
        match row {
            Ok((t, next)) => read_row(bytes@, at as int) == Ok::<
                (Seq<ValueView>, int),
                CodecErrorKind,
            >((t@, next as int)) && at < next <= bytes@.len(),
            Err(e) => read_row(bytes@, at as int) == Err::<(Seq<ValueView>, int), CodecErrorKind>(
                e@,
            ),
        },
{
    let (count, start) = parse_u64(bytes, at)?;
    let mut values: Vec<Value> = Vec::new();
    let mut next: usize = start;
    let mut left: u64 = count;
    assert(value_views(values@) =~= Seq::<ValueView>::empty());
    while left > 0
        invariant
            at < start <= next <= bytes@.len(),
            read_number(bytes@, at as int, 8) == Ok::<(nat, int), CodecErrorKind>(
                (count as nat, start as int),
            ),
            read_values(bytes@, next as int, left as nat, value_views(values@)) == read_values(
                bytes@,
                start as int,
                count as nat,
                Seq::empty(),
            ),
        decreases left,
    {
        let ghost seen = value_views(values@);
        let (value, behind) = match parse_value(bytes, next) {
            Ok(read) => read,
            Err(e) => {
                return Err(e);
            },
        };
        let ghost value_view = value@;
        values.push(value);
        assert(value_views(values@) =~= seen.push(value_view));
        next = behind;
        left = left - 1;
    }
    Ok((Tuple { values }, next))
}

/// Decodes a row from the front of `bytes`.
pub fn decode_tuple(bytes: &[u8]) -> (tuple: Result<Tuple, CodecError>)
    ensures
        match tuple {
            Ok(t) => read_tuple(bytes@) == Ok::<Seq<ValueView>, CodecErrorKind>(t@),
            Err(e) => read_tuple(bytes@) == Err::<Seq<ValueView>, CodecErrorKind>(e@),
        },
{
    match parse_row(bytes, 0) {
        Ok((tuple, _)) => Ok(tuple),
        Err(e) => Err(e),
    }
}

} // verus!

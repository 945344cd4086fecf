//! Reading gives back what was written: the proofs that the row encoding
//! round-trips.

use crate::executor::codec::{
    le_bytes, le_value, read_number, read_row, read_string, read_tuple, read_value, read_values,
    string_encoding, tuple_encoding, unzigzag, value_encoding, values_encoding, varint, zigzag,
    CodecErrorKind,
};
use crate::sql::ast::ValueView;
use vstd::prelude::*;
use vstd::utf8::encode_utf8;

verus! {

/// 256 to the power of `width`.
pub open spec fn pow256(width: nat) -> nat
    decreases width,
{
    if width == 0 {
        1
    } else {
        256 * pow256((width - 1) as nat)
    }
}

/// A number that fits in `width` bytes is read back from its little-endian
/// bytes.
pub proof fn lemma_le_roundtrip(value: nat, width: nat)
    requires
        value < pow256(width),
    ensures
        le_bytes(value, width).len() == width,
        le_value(le_bytes(value, width)) == value,
    decreases width,
{
    if width > 0 {
        let rest = le_bytes(value / 256, (width - 1) as nat);
        lemma_le_roundtrip(value / 256, (width - 1) as nat);
        let bytes = le_bytes(value, width);
        assert(bytes.skip(1) =~= rest);
        assert(bytes[0] == (value % 256) as u8);
    }
}

/// The variable-length form of a number is one byte, or a marker and 2, 4
/// or 8 bytes.
pub proof fn lemma_varint_len(value: nat)
    requires
        value <= u64::MAX,
    ensures
        1 <= varint(value).len() <= 9,
        value <= u32::MAX ==> varint(value).len() <= 5,
{
    reveal_with_fuel(pow256, 9);
    if value <= 250 {
    } else if value <= 0xFFFF {
        lemma_le_roundtrip(value, 2);
    } else if value <= 0xFFFF_FFFF {
        lemma_le_roundtrip(value, 4);
    } else {
        lemma_le_roundtrip(value, 8);
    }
}

/// The encoding `piece` stands in `bytes` at `at`.
pub open spec fn stands_at(bytes: Seq<u8>, at: int, piece: Seq<u8>) -> bool {
    &&& 0 <= at
    &&& at + piece.len() <= bytes.len()
    &&& bytes.subrange(at, at + piece.len()) == piece
}

/// Where an encoding stands at `at`, its front part stands there too, and
/// its back part stands behind the front part.
pub proof fn lemma_stands_split(bytes: Seq<u8>, at: int, front: Seq<u8>, back: Seq<u8>)
    requires
        stands_at(bytes, at, front + back),
    ensures
        stands_at(bytes, at, front),
        stands_at(bytes, at + front.len(), back),
{
    let whole = bytes.subrange(at, at + (front + back).len());
    assert(bytes.subrange(at, at + front.len()) =~= whole.subrange(0, front.len() as int));
    assert(whole.subrange(0, front.len() as int) =~= front);
    assert(bytes.subrange(at + front.len(), at + front.len() + back.len()) =~= whole.subrange(
        front.len() as int,
        whole.len() as int,
    ));
    assert(whole.subrange(front.len() as int, whole.len() as int) =~= back);
}

/// A number is read back from its variable-length form, whatever follows,
/// by a reader that takes numbers of its width.
pub proof fn lemma_number_roundtrip(bytes: Seq<u8>, at: int, value: nat, widest: nat)
    requires
        stands_at(bytes, at, varint(value)),
        (widest == 8 && value <= u64::MAX) || (widest == 4 && value <= u32::MAX),
    ensures
        read_number(bytes, at, widest) == Ok::<(nat, int), CodecErrorKind>(
            (value, at + varint(value).len()),
        ),
{
    reveal_with_fuel(pow256, 9);
    let form = varint(value);
    let tail = bytes.skip(at);
    lemma_varint_len(value);
    assert(tail.subrange(0, form.len() as int) =~= form);
    assert(tail[0] == form[0]);
    if value <= 250 {
    } else {
        let width: nat = if value <= 0xFFFF {
            2
        } else if value <= 0xFFFF_FFFF {
            4
        } else {
            8
        };
        lemma_le_roundtrip(value, width);
        assert(form =~= seq![form[0]] + le_bytes(value, width));
        assert(tail.subrange(1, 1 + width as int) =~= form.subrange(1, 1 + width as int));
        assert(form.subrange(1, 1 + width as int) =~= le_bytes(value, width));
    }
}

/// Unfolding undoes folding.
pub proof fn lemma_zigzag_roundtrip(value: i64)
    ensures
        zigzag(value) <= u64::MAX,
        unzigzag(zigzag(value)) == value,
{
}

/// A string is read back from its encoding, whatever follows.
pub proof fn lemma_string_roundtrip(bytes: Seq<u8>, at: int, text: Seq<char>)
    requires
        stands_at(bytes, at, string_encoding(text)),
        encode_utf8(text).len() <= u64::MAX,
    ensures
        read_string(bytes, at) == Ok::<(Seq<char>, int), CodecErrorKind>(
            (text, at + string_encoding(text).len()),
        ),
{
    let payload = encode_utf8(text);
    let head = varint(payload.len());
    lemma_stands_split(bytes, at, head, payload);
    lemma_number_roundtrip(bytes, at, payload.len(), 8);
    vstd::utf8::encode_utf8_valid_utf8(text);
    vstd::utf8::encode_utf8_decode_utf8(text);
}

/// A value can be encoded: a string's UTF-8 form is short enough for its
/// length to be written.
pub open spec fn encodable(value: ValueView) -> bool {
    value matches ValueView::String(text) ==> encode_utf8(text).len() <= u64::MAX
}

/// A value is read back from its encoding, whatever follows.
pub proof fn lemma_value_roundtrip(bytes: Seq<u8>, at: int, value: ValueView)
    requires
        stands_at(bytes, at, value_encoding(value)),
        encodable(value),
    ensures
        read_value(bytes, at) == Ok::<(ValueView, int), CodecErrorKind>(
            (value, at + value_encoding(value).len()),
        ),
{
    match value {
        ValueView::Integer(n) => {
            lemma_zigzag_roundtrip(n);
            lemma_stands_split(bytes, at, varint(0), varint(zigzag(n)));
            lemma_number_roundtrip(bytes, at, 0, 4);
            lemma_number_roundtrip(bytes, at + varint(0).len(), zigzag(n), 8);
        },
        ValueView::String(text) => {
            lemma_stands_split(bytes, at, varint(1), string_encoding(text));
            lemma_number_roundtrip(bytes, at, 1, 4);
            lemma_string_roundtrip(bytes, at + varint(1).len(), text);
        },
    }
}

/// The encoding of values starts with the encoding of the first.
pub proof fn lemma_values_encoding_front(values: Seq<ValueView>)
    requires
        values.len() > 0,
    ensures
        values_encoding(values) == value_encoding(values[0]) + values_encoding(values.skip(1)),
    decreases values.len(),
{
    if values.len() == 1 {
        assert(values.drop_last() =~= Seq::<ValueView>::empty());
        assert(values.skip(1) =~= Seq::<ValueView>::empty());
        assert(values_encoding(values) =~= value_encoding(values[0]) + values_encoding(
            values.skip(1),
        ));
    } else {
        let front = values.drop_last();
        lemma_values_encoding_front(front);
        assert(front.skip(1) =~= values.skip(1).drop_last());
        assert(values.skip(1).last() == values.last());
        assert(values_encoding(values) =~= value_encoding(values[0]) + values_encoding(
            values.skip(1),
        ));
    }
}

/// Values are read back from their encodings, whatever follows.
pub proof fn lemma_values_roundtrip(
    bytes: Seq<u8>,
    at: int,
    values: Seq<ValueView>,
    seen: Seq<ValueView>,
)
    requires
        stands_at(bytes, at, values_encoding(values)),
        forall|k: int| 0 <= k < values.len() ==> encodable(#[trigger] values[k]),
    ensures
        read_values(bytes, at, values.len(), seen) == Ok::<(Seq<ValueView>, int), CodecErrorKind>(
            (seen + values, at + values_encoding(values).len()),
        ),
    decreases values.len(),
{
    if values.len() == 0 {
        assert(seen + values =~= seen);
    } else {
        let first = values[0];
        let rest = values.skip(1);
        lemma_values_encoding_front(values);
        lemma_stands_split(bytes, at, value_encoding(first), values_encoding(rest));
        lemma_value_roundtrip(bytes, at, first);
        assert forall|k: int| 0 <= k < rest.len() implies encodable(#[trigger] rest[k]) by {
            assert(rest[k] == values[k + 1]);
        }
        lemma_values_roundtrip(bytes, at + value_encoding(first).len(), rest, seen.push(first));
        assert(seen.push(first) + rest =~= seen + values);
    }
}

/// A row is read back from its encoding, whatever follows.
pub proof fn lemma_row_roundtrip(bytes: Seq<u8>, at: int, values: Seq<ValueView>)
    requires
        stands_at(bytes, at, tuple_encoding(values)),
        values.len() <= u64::MAX,
        forall|k: int| 0 <= k < values.len() ==> encodable(#[trigger] values[k]),
    ensures
        read_row(bytes, at) == Ok::<(Seq<ValueView>, int), CodecErrorKind>(
            (values, at + tuple_encoding(values).len()),
        ),
{
    let head = varint(values.len());
    lemma_stands_split(bytes, at, head, values_encoding(values));
    lemma_number_roundtrip(bytes, at, values.len(), 8);
    lemma_values_roundtrip(bytes, at + head.len(), values, Seq::empty());
    assert(Seq::<ValueView>::empty() + values =~= values);
}

/// Decoding the encoding of a row gives the row back, also where other
/// bytes follow it.
pub proof fn lemma_tuple_roundtrip(values: Seq<ValueView>, rest: Seq<u8>)
    requires
        values.len() <= u64::MAX,
        forall|k: int| 0 <= k < values.len() ==> encodable(#[trigger] values[k]),
    ensures
        read_tuple(tuple_encoding(values) + rest) == Ok::<Seq<ValueView>, CodecErrorKind>(values),
{
    let bytes = tuple_encoding(values) + rest;
    assert(bytes.subrange(0, tuple_encoding(values).len() as int) =~= tuple_encoding(values));
    lemma_row_roundtrip(bytes, 0, values);
}

} // verus!

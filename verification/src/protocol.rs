//! The wire protocol.
//!
//! A message is a length of four big-endian bytes followed by that many
//! bytes of payload. A request carries a statement as UTF-8 text. A response
//! carries what running it came to: tag 0 and the result, or tag 1 and the
//! message of the error; a result is tag 0 and a message, or tag 1 and the
//! rows, each encoded as in a page.

use crate::executor::codec::{
    parse_row, parse_string, parse_tag, parse_u64, read_number, read_row, read_string,
    string_encoding, tuple_encoding, varint, write_len, write_string, write_tag,
    write_value, CodecError, CodecErrorKind, Decoded,
};
use crate::executor::result::{outcome_view, tuple_views, ExecutionResult, ResultView, Tuple};
use crate::executor::roundtrip::{
    encodable, lemma_number_roundtrip, lemma_row_roundtrip, lemma_stands_split,
    lemma_string_roundtrip, stands_at,
};
use crate::sql::ast::{value_views, ValueView};
use crate::text::string_from_utf8;
use vstd::prelude::*;
use vstd::slice::slice_to_vec;
use vstd::utf8::{decode_utf8, encode_utf8, valid_utf8};

verus! {

/// Number of bytes of the length in front of a message.
pub const LEN_BYTES: usize = 4;

/// The four bytes that hold a length in big-endian order.
pub open spec fn be32_bytes(len: int) -> Seq<u8> {
    seq![
        (len / 0x100_0000) as u8,
        (len / 0x1_0000 % 256) as u8,
        (len / 0x100 % 256) as u8,
        (len % 256) as u8,
    ]
}

/// The length that four bytes hold in big-endian order.
pub open spec fn be32_value(bytes: Seq<u8>) -> int {
    bytes[0] as int * 0x100_0000 + bytes[1] as int * 0x1_0000 + bytes[2] as int * 0x100
        + bytes[3] as int
}

/// Reading a length back gives the length that was written.
pub proof fn lemma_be32_roundtrip(len: int)
    requires
        0 <= len <= u32::MAX,
    ensures
        be32_bytes(len).len() == LEN_BYTES,
        be32_value(be32_bytes(len)) == len,
{
}

/// A message: the length of the payload, then the payload.
pub open spec fn framed(payload: Seq<u8>) -> Seq<u8> {
    be32_bytes(payload.len() as int) + payload
}

/// Puts the length in front of a payload. The length must fit its four
/// bytes.
pub fn frame(payload: &[u8]) -> (message: Vec<u8>)
    requires
        payload@.len() <= u32::MAX,
    ensures
        message@ == framed(payload@),
{
    let len: usize = payload.len();
    let mut message: Vec<u8> = Vec::new();
    message.push((len / 0x100_0000) as u8);
    message.push((len / 0x1_0000 % 256) as u8);
    message.push((len / 0x100 % 256) as u8);
    message.push((len % 256) as u8);
    let mut body: Vec<u8> = slice_to_vec(payload);
    message.append(&mut body);
    assert(message@ =~= framed(payload@));
    message
}

/// The length of the payload that a message announces in its first four
/// bytes.
pub fn frame_length(header: &[u8]) -> (len: u32)
    requires
        header@.len() == LEN_BYTES,
    ensures
        len == be32_value(header@),
{
    let high: u32 = header[0] as u32 * 0x100_0000 + header[1] as u32 * 0x1_0000;
    high + header[2] as u32 * 0x100 + header[3] as u32
}

/// The message that asks to run a statement. The statement's UTF-8 bytes
/// must be few enough for the length to fit its four bytes.
pub fn encode_request(sql: &str) -> (message: Vec<u8>)
    requires
        encode_utf8(sql@).len() <= u32::MAX,
    ensures
        message@ == framed(encode_utf8(sql@)),
{
    frame(sql.as_bytes())
}

/// The statement that the payload of a request carries, or nothing where
/// the payload is not valid UTF-8.
pub fn decode_request(payload: Vec<u8>) -> (sql: Option<String>)
    ensures
        match sql {
            Some(text) => valid_utf8(payload@) && text@ == decode_utf8(payload@),
            None => !valid_utf8(payload@),
        },
{
    string_from_utf8(payload)
}

/// The encodings of rows, one after the other.
pub open spec fn rows_encoding(rows: Seq<Seq<ValueView>>) -> Seq<u8>
    decreases rows.len(),
{
    if rows.len() == 0 {
        Seq::empty()
    } else {
        rows_encoding(rows.drop_last()) + tuple_encoding(rows.last())
    }
}

/// The encoding of a result.
pub open spec fn result_encoding(result: ResultView) -> Seq<u8> {
    match result {
        ResultView::Message(text) => varint(0) + string_encoding(text),
        ResultView::Data(rows) => varint(1) + varint(rows.len()) + rows_encoding(rows),
    }
}

/// The payload of a response.
pub open spec fn response_encoding(outcome: Result<ResultView, Seq<char>>) -> Seq<u8> {
    match outcome {
        Ok(result) => varint(0) + result_encoding(result),
        Err(message) => varint(1) + string_encoding(message),
    }
}

/// Encodes what running a statement came to, as the payload of a response.
pub fn encode_response(outcome: &Result<ExecutionResult, String>) -> (payload: Vec<u8>)
    ensures
        payload@ == response_encoding(outcome_view(*outcome)),
{
    let mut payload: Vec<u8> = Vec::new();
    match outcome {
        Ok(ExecutionResult::Message(text)) => {
            write_tag(&mut payload, 0);
            write_tag(&mut payload, 0);
            write_string(&mut payload, text.as_str());
            assert(payload@ =~= response_encoding(outcome_view(*outcome)));
        },
        Ok(ExecutionResult::Data(tuples)) => {
            write_tag(&mut payload, 0);
            write_tag(&mut payload, 1);
            write_len(&mut payload, tuples.len());
            let ghost head = payload@;
            let ghost rows = tuple_views(tuples@);
            let mut k: usize = 0;
            while k < tuples.len()
                invariant
                    k <= tuples@.len(),
                    rows == tuple_views(tuples@),
                    payload@ == head + rows_encoding(rows.take(k as int)),
                decreases tuples@.len() - k,
            {
                let tuple = &tuples[k];
                write_len(&mut payload, tuple.values.len());
                let ghost row_head = payload@;
                let ghost values = tuple@;
                let mut j: usize = 0;
                while j < tuple.values.len()
                    invariant
                        j <= tuple.values@.len(),
                        values == value_views(tuple.values@),
                        payload@ == row_head + crate::executor::codec::values_encoding(
                            values.take(j as int),
                        ),
                    decreases tuple.values@.len() - j,
                {
                    write_value(&mut payload, &tuple.values[j]);
                    proof {
                        let upto = values.take(j + 1);
                        assert(upto.drop_last() =~= values.take(j as int));
                        assert(upto.last() == tuple.values@[j as int]@);
                    }
                    j = j + 1;
                }
                proof {
                    assert(values.take(j as int) =~= values);
                    let upto = rows.take(k + 1);
                    assert(upto.drop_last() =~= rows.take(k as int));
                    assert(upto.last() == values);
                    assert(payload@ =~= head + rows_encoding(upto));
                }
                k = k + 1;
            }
            assert(rows.take(k as int) =~= rows);
            assert(payload@ =~= response_encoding(outcome_view(*outcome)));
        },
        Err(message) => {
            write_tag(&mut payload, 1);
            write_string(&mut payload, message.as_str());
        },
    }
    payload
}

/// Reads `count` rows from `at` on, appending them to `seen`.
pub open spec fn read_rows(
    bytes: Seq<u8>,
    at: int,
    count: nat,
    seen: Seq<Seq<ValueView>>,
) -> Decoded<Seq<Seq<ValueView>>>
    decreases count,
{
    if count == 0 {
        Ok((seen, at))
    } else {
        match read_row(bytes, at) {
            Err(e) => Err(e),
            Ok((row, next)) => read_rows(bytes, next, (count - 1) as nat, seen.push(row)),
        }
    }
}

/// Reads a result at `at`.
pub open spec fn read_result(bytes: Seq<u8>, at: int) -> Decoded<ResultView> {
    match read_number(bytes, at, 4) {
        Err(e) => Err(e),
        Ok((tag, start)) => if tag == 0 {
            match read_string(bytes, start) {
                Err(e) => Err(e),
                Ok((text, end)) => Ok((ResultView::Message(text), end)),
            }
        } else if tag == 1 {
            match read_number(bytes, start, 8) {
                Err(e) => Err(e),
                Ok((count, first)) => match read_rows(bytes, first, count, Seq::empty()) {
                    Err(e) => Err(e),
                    Ok((rows, end)) => Ok((ResultView::Data(rows), end)),
                },
            }
        } else {
            Err(CodecErrorKind::UnknownVariant(tag as u32))
        },
    }
}

/// Reads the payload of a response. What follows it is not looked at.
pub open spec fn read_response(bytes: Seq<u8>) -> Result<
    Result<ResultView, Seq<char>>,
    CodecErrorKind,
> {
    match read_number(bytes, 0, 4) {
        Err(e) => Err(e),
        Ok((tag, start)) => if tag == 0 {
            match read_result(bytes, start) {
                Err(e) => Err(e),
                Ok((result, _)) => Ok(Ok(result)),
            }
        } else if tag == 1 {
            match read_string(bytes, start) {
                Err(e) => Err(e),
                Ok((message, _)) => Ok(Err(message)),
            }
        } else {
            Err(CodecErrorKind::UnknownVariant(tag as u32))
        },
    }
}

/// Reads a result at `at`.
fn parse_result(bytes: &[u8], at: usize) -> (result: Result<(ExecutionResult, usize), CodecError>)
    requires
        at <= bytes@.len(),
    ensures
        match result {
            Ok((r, next)) => read_result(bytes@, at as int) == Ok::<(ResultView, int), CodecErrorKind>(
                (r@, next as int),
            ),
            Err(e) => read_result(bytes@, at as int) == Err::<(ResultView, int), CodecErrorKind>(e@),
        },
{
    let (tag, start) = parse_tag(bytes, at)?;
    if tag == 0 {
        let (text, end) = parse_string(bytes, start)?;
        Ok((ExecutionResult::Message(text), end))
    } else if tag == 1 {
        let (count, first) = parse_u64(bytes, start)?;
        let mut tuples: Vec<Tuple> = Vec::new();
        let mut next: usize = first;
        let mut left: u64 = count;
        assert(tuple_views(tuples@) =~= Seq::<Seq<ValueView>>::empty());
        while left > 0
            invariant
                next <= bytes@.len(),
                read_number(bytes@, at as int, 4) == Ok::<(nat, int), CodecErrorKind>(
                    (1nat, start as int),
                ),
                read_number(bytes@, start as int, 8) == Ok::<(nat, int), CodecErrorKind>(
                    (count as nat, first as int),
                ),
                read_rows(bytes@, next as int, left as nat, tuple_views(tuples@)) == read_rows(
                    bytes@,
                    first as int,
                    count as nat,
                    Seq::empty(),
                ),
            decreases left,
        {
            let ghost seen = tuple_views(tuples@);
            let (tuple, behind) = match parse_row(bytes, next) {
                Ok(read) => read,
                Err(e) => {
                    return Err(e);
                },
            };
            let ghost row = tuple@;
            tuples.push(tuple);
            assert(tuple_views(tuples@) =~= seen.push(row));
            next = behind;
            left = left - 1;
        }
        Ok((ExecutionResult::Data(tuples), next))
    } else {
        Err(CodecError::UnknownVariant(tag))
    }
}

/// Decodes the payload of a response.
pub fn decode_response(payload: &[u8]) -> (outcome: Result<
    Result<ExecutionResult, String>,
    CodecError,
>)
    ensures
        match outcome {
            Ok(read) => read_response(payload@) == Ok::<
                Result<ResultView, Seq<char>>,
                CodecErrorKind,
            >(outcome_view(read)),
            Err(e) => read_response(payload@) == Err::<
                Result<ResultView, Seq<char>>,
                CodecErrorKind,
            >(e@),
        },
{
    let (tag, start) = parse_tag(payload, 0)?;
    if tag == 0 {
        let (result, _) = parse_result(payload, start)?;
        Ok(Ok(result))
    } else if tag == 1 {
        let (message, _) = parse_string(payload, start)?;
        Ok(Err(message))
    } else {
        Err(CodecError::UnknownVariant(tag))
    }
}

/// A row can be encoded: its number of values can be written, and so can
/// each value.
pub open spec fn row_encodable(values: Seq<ValueView>) -> bool {
    &&& values.len() <= u64::MAX
    &&& forall|k: int| 0 <= k < values.len() ==> encodable(#[trigger] values[k])
}

/// What running a statement came to can be encoded: texts are short enough
/// in UTF-8 for their lengths to be written, the number of rows can be
/// written, and so can each row.
pub open spec fn outcome_encodable(outcome: Result<ResultView, Seq<char>>) -> bool {
    match outcome {
        Ok(ResultView::Message(text)) => encode_utf8(text).len() <= u64::MAX,
        Ok(ResultView::Data(rows)) => {
            &&& rows.len() <= u64::MAX
            &&& forall|k: int| 0 <= k < rows.len() ==> row_encodable(#[trigger] rows[k])
        },
        Err(message) => encode_utf8(message).len() <= u64::MAX,
    }
}

/// The encoding of rows starts with the encoding of the first.
pub proof fn lemma_rows_encoding_front(rows: Seq<Seq<ValueView>>)
    requires
        rows.len() > 0,
    ensures
        rows_encoding(rows) == tuple_encoding(rows[0]) + rows_encoding(rows.skip(1)),
    decreases rows.len(),
{
    if rows.len() == 1 {
        assert(rows.drop_last() =~= Seq::<Seq<ValueView>>::empty());
        assert(rows.skip(1) =~= Seq::<Seq<ValueView>>::empty());
        assert(rows_encoding(rows) =~= tuple_encoding(rows[0]) + rows_encoding(rows.skip(1)));
    } else {
        let front = rows.drop_last();
        lemma_rows_encoding_front(front);
        assert(front.skip(1) =~= rows.skip(1).drop_last());
        assert(rows.skip(1).last() == rows.last());
        assert(rows_encoding(rows) =~= tuple_encoding(rows[0]) + rows_encoding(rows.skip(1)));
    }
}

/// Rows are read back from their encodings, whatever follows.
pub proof fn lemma_rows_roundtrip(
    bytes: Seq<u8>,
    at: int,
    rows: Seq<Seq<ValueView>>,
    seen: Seq<Seq<ValueView>>,
)
    requires
        stands_at(bytes, at, rows_encoding(rows)),
        forall|k: int| 0 <= k < rows.len() ==> row_encodable(#[trigger] rows[k]),
    ensures
        read_rows(bytes, at, rows.len(), seen) == Ok::<(Seq<Seq<ValueView>>, int), CodecErrorKind>(
            (seen + rows, at + rows_encoding(rows).len()),
        ),
    decreases rows.len(),
{
    if rows.len() == 0 {
        assert(seen + rows =~= seen);
    } else {
        let first = rows[0];
        let rest = rows.skip(1);
        lemma_rows_encoding_front(rows);
        lemma_stands_split(bytes, at, tuple_encoding(first), rows_encoding(rest));
        assert(row_encodable(first));
        lemma_row_roundtrip(bytes, at, first);
        assert forall|k: int| 0 <= k < rest.len() implies row_encodable(#[trigger] rest[k]) by {
            assert(rest[k] == rows[k + 1]);
        }
        lemma_rows_roundtrip(bytes, at + tuple_encoding(first).len(), rest, seen.push(first));
        assert(seen.push(first) + rest =~= seen + rows);
    }
}

/// A result is read back from its encoding, whatever follows.
pub proof fn lemma_result_roundtrip(bytes: Seq<u8>, at: int, result: ResultView)
    requires
        stands_at(bytes, at, result_encoding(result)),
        outcome_encodable(Ok(result)),
    ensures
        read_result(bytes, at) == Ok::<(ResultView, int), CodecErrorKind>(
            (result, at + result_encoding(result).len()),
        ),
{
    match result {
        ResultView::Message(text) => {
            lemma_stands_split(bytes, at, varint(0), string_encoding(text));
            lemma_number_roundtrip(bytes, at, 0, 4);
            lemma_string_roundtrip(bytes, at + varint(0).len(), text);
        },
        ResultView::Data(rows) => {
            let count = varint(rows.len());
            assert(result_encoding(result) =~= varint(1) + (count + rows_encoding(rows)));
            lemma_stands_split(bytes, at, varint(1), count + rows_encoding(rows));
            lemma_number_roundtrip(bytes, at, 1, 4);
            let start = at + varint(1).len();
            lemma_stands_split(bytes, start, count, rows_encoding(rows));
            lemma_number_roundtrip(bytes, start, rows.len(), 8);
            lemma_rows_roundtrip(bytes, start + count.len(), rows, Seq::empty());
            assert(Seq::<Seq<ValueView>>::empty() + rows =~= rows);
        },
    }
}

/// Decoding the payload of a response gives back what was encoded, also
/// where other bytes follow it.
pub proof fn lemma_response_roundtrip(outcome: Result<ResultView, Seq<char>>, rest: Seq<u8>)
    requires
        outcome_encodable(outcome),
    ensures
        read_response(response_encoding(outcome) + rest) == Ok::<
            Result<ResultView, Seq<char>>,
            CodecErrorKind,
        >(outcome),
{
    let payload = response_encoding(outcome);
    let bytes = payload + rest;
    assert(bytes.subrange(0, payload.len() as int) =~= payload);
    match outcome {
        Ok(result) => {
            lemma_stands_split(bytes, 0, varint(0), result_encoding(result));
            lemma_number_roundtrip(bytes, 0, 0, 4);
            lemma_result_roundtrip(bytes, varint(0).len() as int, result);
        },
        Err(message) => {
            lemma_stands_split(bytes, 0, varint(1), string_encoding(message));
            lemma_number_roundtrip(bytes, 0, 1, 4);
            lemma_string_roundtrip(bytes, varint(1).len() as int, message);
        },
    }
}

} // verus!

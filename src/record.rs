//! Records: a header of serial-type codes, then the values packed back to
//! back in the same order.
//!
//! Layout: `varint(header length, counting itself) | varint(serial type)* |
//! value bytes*`.

use crate::error::DecodeError;
use crate::value::{decodes_to, serial_width, value_error, Value};
use crate::varint::{is_varint, read_varint, varint_len, varint_value};
use vstd::prelude::*;
use vstd::slice::slice_subrange;

verus! {

/// The row of one table-leaf cell: its values in column order.
#[derive(Debug, Clone, PartialEq, Eq)]
pub struct Record(pub Vec<Value>);

/// The serial types held by the header bytes `hdr` from position `pos` on:
/// varints read back to back up to the end of `hdr`; `None` when one of
/// them runs past that end.
pub open spec fn header_types_from(hdr: Seq<u8>, pos: nat) -> Option<Seq<u64>>
    decreases hdr.len() - pos,
{
    if pos >= hdr.len() {
        Some(Seq::empty())
    } else {
        let s = hdr.skip(pos as int);
        if !is_varint(s) || varint_len(s) == 0 {
            None
        } else {
            match header_types_from(hdr, pos + varint_len(s)) {
                Some(rest) => Some(seq![varint_value(s) as u64] + rest),
                None => None,
            }
        }
    }
}

/// The header length that the record `buf` declares.
pub open spec fn header_len(buf: Seq<u8>) -> nat {
    varint_value(buf)
}

/// Whether the declared header length of `buf` covers its own varint and
/// lies within `buf`.
pub open spec fn header_len_ok(buf: Seq<u8>) -> bool {
    &&& is_varint(buf)
    &&& varint_len(buf) <= header_len(buf) <= buf.len()
}

/// The serial types of the record `buf`, in column order.
pub open spec fn record_types(buf: Seq<u8>) -> Option<Seq<u64>> {
    if header_len_ok(buf) {
        header_types_from(buf.take(header_len(buf) as int), varint_len(buf))
    } else {
        None
    }
}

/// Where the value of column `i` starts, counted from the start of the body.
pub open spec fn body_offset(ts: Seq<u64>, i: nat) -> nat
    decreases i,
{
    if i == 0 {
        0
    } else {
        body_offset(ts, (i - 1) as nat) + serial_width(ts[i - 1])
    }
}

/// The first failure among the values of columns `i` on, for serial types
/// `ts` and body `body`.
pub open spec fn body_error_from(ts: Seq<u64>, body: Seq<u8>, i: nat) -> Option<DecodeError>
    decreases ts.len() - i,
{
    if i >= ts.len() {
        None
    } else {
        match value_error(ts[i as int], body.skip(body_offset(ts, i) as int)) {
            Some(e) => Some(e),
            None => body_error_from(ts, body, i + 1),
        }
    }
}

/// Why the record `buf` cannot be decoded; `None` when it can.
pub open spec fn record_error(buf: Seq<u8>) -> Option<DecodeError> {
    if !is_varint(buf) {
        Some(DecodeError::Truncated)
    } else if !header_len_ok(buf) {
        Some(DecodeError::BadRecordHeader)
    } else {
        match record_types(buf) {
            None => Some(DecodeError::BadRecordHeader),
            Some(ts) => body_error_from(ts, buf.skip(header_len(buf) as int), 0),
        }
    }
}

/// The bytes of column `i` of the record `buf` whose serial types are `ts`.
pub open spec fn column_bytes(buf: Seq<u8>, ts: Seq<u64>, i: int) -> Seq<u8> {
    let start = header_len(buf) + body_offset(ts, i as nat);
    buf.subrange(start as int, (start + serial_width(ts[i])) as int)
}

/// Whether `vals` are the values of the record `buf`: one per serial type,
/// each read from its own stretch of the body.
pub open spec fn record_decodes(vals: Seq<Value>, buf: Seq<u8>) -> bool {
    &&& record_types(buf) matches Some(ts)
    &&& vals.len() == ts.len()
    &&& forall|i: int|
        0 <= i < ts.len() ==> #[trigger] decodes_to(vals[i], ts[i], column_bytes(buf, ts, i))
}

/// A column of serial type 8 or 9 (the constants 0 and 1) takes no body
/// bytes: the next column starts where it does, and its value is the
/// constant itself.
pub proof fn lemma_constant_column_takes_no_bytes(vals: Seq<Value>, buf: Seq<u8>, i: int)
    requires
        record_decodes(vals, buf),
        record_types(buf) matches Some(ts) && 0 <= i < ts.len() && (ts[i] == 8 || ts[i] == 9),
    ensures
        record_types(buf) matches Some(ts) && {
            &&& serial_width(ts[i]) == 0
            &&& body_offset(ts, (i + 1) as nat) == body_offset(ts, i as nat)
            &&& ts[i] == 8 ==> vals[i] == Value::Zero
            &&& ts[i] == 9 ==> vals[i] == Value::One
        },
{
    let ts = record_types(buf)->Some_0;
    assert(decodes_to(vals[i], ts[i], column_bytes(buf, ts, i)));
}

impl Record {
    /// Decodes the record that fills the start of `buf`.
    pub fn from_cell_bytes(buf: &[u8]) -> (r: Result<Record, DecodeError>)
        ensures
            match record_error(buf@) {
                Some(e) => r == Err::<Record, DecodeError>(e),
                None => r matches Ok(rec) && record_decodes(rec.0@, buf@),
            },
    {
        let ghost b = buf@;
        let (hlen, first) = match read_varint(buf) {
            Some(p) => p,
            None => return Err(DecodeError::Truncated),
        };
        if hlen < first as u64 || hlen > buf.len() as u64 {
            return Err(DecodeError::BadRecordHeader);
        }
        let body_start = hlen as usize;
        let ghost hdr = b.take(body_start as int);
        let mut serial_types: Vec<u64> = Vec::new();
        let mut pos: usize = first;
        while pos < body_start
            invariant
                b == buf@,
                hdr == b.take(body_start as int),
                header_len_ok(b),
                first == varint_len(b),
                body_start == header_len(b),
                first <= pos <= body_start,
                match header_types_from(hdr, pos as nat) {
                    Some(rest) => header_types_from(hdr, first as nat) == Some(
                        serial_types@ + rest,
                    ),
                    None => header_types_from(hdr, first as nat) is None,
                },
            decreases body_start - pos,
        {
            let s = slice_subrange(buf, pos, body_start);
            assert(s@ =~= hdr.skip(pos as int));
            match read_varint(s) {
                Some((t, n)) => {
                    proof {
                        let old_types = serial_types@;
                        if let Some(rest) = header_types_from(hdr, (pos + n) as nat) {
                            assert(old_types + (seq![t] + rest) =~= old_types.push(t) + rest);
                        }
                    }
                    serial_types.push(t);
                    pos = pos + n;
                },
                None => {
                    assert(header_types_from(hdr, pos as nat) is None);
                    assert(record_types(b) is None);
                    return Err(DecodeError::BadRecordHeader);
                },
            }
        }
        proof {
            assert(serial_types@ + Seq::<u64>::empty() =~= serial_types@);
        }
        let ghost ts = serial_types@;
        let ghost body = b.skip(body_start as int);
        let mut values: Vec<Value> = Vec::new();
        let mut cursor: usize = body_start;
        let mut i: usize = 0;
        while i < serial_types.len()
            invariant
                b == buf@,
                body == b.skip(body_start as int),
                record_types(b) == Some(ts),
                ts == serial_types@,
                body_start == header_len(b),
                i <= ts.len(),
                cursor == body_start + body_offset(ts, i as nat),
                cursor <= b.len(),
                body_error_from(ts, body, 0) == body_error_from(ts, body, i as nat),
                values@.len() == i,
                forall|k: int|
                    0 <= k < i ==> #[trigger] decodes_to(
                        values@[k],
                        ts[k],
                        column_bytes(b, ts, k),
                    ),
            decreases ts.len() - i,
        {
            let t = serial_types[i];
            let rest = slice_subrange(buf, cursor, buf.len());
            assert(rest@ =~= body.skip(body_offset(ts, i as nat) as int));
            let v = match Value::new(t, rest) {
                Ok(v) => v,
                Err(e) => return Err(e),
            };
            assert(rest@.take(serial_width(t) as int) =~= b.subrange(
                cursor as int,
                cursor + serial_width(t),
            ));
            values.push(v);
            cursor = cursor + Value::consume(t);
            i = i + 1;
        }
        Ok(Record(values))
    }
}

} // verus!

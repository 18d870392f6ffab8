//! Typed column values and the serial-type codes that describe them.

use crate::error::DecodeError;
use crate::util::{as_i64_be, be_int};
use vstd::prelude::*;
use vstd::slice::{slice_subrange, slice_to_vec};
use vstd::utf8::{decode_utf8, valid_utf8};

verus! {

/// One value of a record. Integers keep the bytes they were stored in, so
/// that the stored form is kept exactly; a float keeps its eight big-endian
/// IEEE-754 bytes.
#[derive(Debug, Clone, PartialEq, Eq)]
pub enum Value {
    Null,
    Int8([u8; 1]),
    Int16([u8; 2]),
    Int24([u8; 3]),
    Int32([u8; 4]),
    Int48([u8; 6]),
    Int64([u8; 8]),
    Float64([u8; 8]),
    Zero,
    One,
    Blob(Vec<u8>),
    SQLiteString(String),
}

/// Whether `t` is a serial-type code that names a value (all but 10 and 11).
pub open spec fn is_serial_type(t: u64) -> bool {
    t != 10 && t != 11
}

/// The number of body bytes that a value of serial type `t` occupies.
pub open spec fn serial_width(t: u64) -> nat
    recommends
        is_serial_type(t),
{
    if t >= 12 {
        if t % 2 == 0 {
            ((t - 12) / 2) as nat
        } else {
            ((t - 13) / 2) as nat
        }
    } else if t == 5 {
        6
    } else if t == 6 || t == 7 {
        8
    } else if t <= 4 {
        t as nat
    } else {
        0
    }
}

/// Whether `v` is the value of serial type `t` stored in the bytes `field`
/// (exactly `serial_width(t)` of them).
pub open spec fn decodes_to(v: Value, t: u64, field: Seq<u8>) -> bool {
    match v {
        Value::Null => t == 0,
        Value::Int8(a) => t == 1 && a@ == field,
        Value::Int16(a) => t == 2 && a@ == field,
        Value::Int24(a) => t == 3 && a@ == field,
        Value::Int32(a) => t == 4 && a@ == field,
        Value::Int48(a) => t == 5 && a@ == field,
        Value::Int64(a) => t == 6 && a@ == field,
        Value::Float64(a) => t == 7 && a@ == field,
        Value::Zero => t == 8,
        Value::One => t == 9,
        Value::Blob(b) => t >= 12 && t % 2 == 0 && b@ == field,
        Value::SQLiteString(s) => t >= 13 && t % 2 == 1 && valid_utf8(field) && s@
            == decode_utf8(field),
    }
}

/// What goes wrong when a value of serial type `t` is decoded from the start
/// of `bytes`; `None` when nothing does.
pub open spec fn value_error(t: u64, bytes: Seq<u8>) -> Option<DecodeError> {
    if !is_serial_type(t) {
        Some(DecodeError::InvalidSerialType(t))
    } else if bytes.len() < serial_width(t) {
        Some(DecodeError::Truncated)
    } else if t >= 13 && t % 2 == 1 && !valid_utf8(bytes.take(serial_width(t) as int)) {
        Some(DecodeError::InvalidText)
    } else {
        None
    }
}

/// `consume` and `new` agree on widths: a value of serial type `t` is read
/// from exactly the first `serial_width(t)` bytes before it. Fewer bytes are
/// too few, and bytes past them change nothing.
pub proof fn lemma_consume_is_width_read(t: u64, bytes: Seq<u8>)
    requires
        is_serial_type(t),
    ensures
        value_error(t, bytes) == Some(DecodeError::Truncated) <==> bytes.len() < serial_width(t),
        bytes.len() >= serial_width(t) ==> value_error(t, bytes) == value_error(
            t,
            bytes.take(serial_width(t) as int),
        ),
{
    let w = serial_width(t) as int;
    if bytes.len() >= w {
        assert(bytes.take(w).take(w) =~= bytes.take(w));
    }
}

/// The bytes of an integer value, most significant first; `None` for a
/// value that is no stored integer.
pub open spec fn int_bytes(v: Value) -> Option<Seq<u8>> {
    match v {
        Value::Int8(a) => Some(a@),
        Value::Int16(a) => Some(a@),
        Value::Int24(a) => Some(a@),
        Value::Int32(a) => Some(a@),
        Value::Int48(a) => Some(a@),
        Value::Int64(a) => Some(a@),
        _ => None,
    }
}

/// Relies on std::str::from_utf8: it accepts exactly the valid UTF-8 byte
/// sequences, and the text it gives holds the characters they encode.
#[verifier::external_body]
fn str_from_utf8(bytes: &[u8]) -> (r: Option<&str>)
    ensures
        r.is_some() <==> valid_utf8(bytes@),
        r matches Some(s) ==> s@ == decode_utf8(bytes@),
{
    match std::str::from_utf8(bytes) {
        Ok(s) => Some(s),
        Err(_) => None,
    }
}

/// The width of a value of serial type `t`, in bytes.
fn width_of(t: u64) -> (r: u64)
    requires
        is_serial_type(t),
    ensures
        r as nat == serial_width(t),
{
    if t >= 12 {
        if t % 2 == 0 {
            return (t - 12) / 2;
        } else {
            return (t - 13) / 2;
        }
    }
    match t {
        5 => 6,
        6 | 7 => 8,
        8 | 9 => 0,
        _ => t,
    }
}

impl Value {
    /// The number of body bytes a value of serial type `serial_type` takes;
    /// needs no payload, so a record header can be measured before its body
    /// is read.
    pub fn consume(serial_type: u64) -> (r: usize)
        requires
            is_serial_type(serial_type),
            serial_width(serial_type) <= usize::MAX,
        ensures
            r as nat == serial_width(serial_type),
    {
        width_of(serial_type) as usize
    }

    /// Decodes the value of serial type `serial_type` from the start of
    /// `value`, which may run on past it.
    pub fn new(serial_type: u64, value: &[u8]) -> (r: Result<Value, DecodeError>)
        ensures
            match value_error(serial_type, value@) {
                Some(e) => r == Err::<Value, DecodeError>(e),
                None => r matches Ok(v) && decodes_to(
                    v,
                    serial_type,
                    value@.take(serial_width(serial_type) as int),
                ),
            },
    {
        if serial_type == 10 || serial_type == 11 {
            return Err(DecodeError::InvalidSerialType(serial_type));
        }
        let width64 = width_of(serial_type);
        if (value.len() as u64) < width64 {
            return Err(DecodeError::Truncated);
        }
        let width = width64 as usize;
        let field = slice_subrange(value, 0, width);
        assert(field@ =~= value@.take(width as int));
        if serial_type >= 12 {
            if serial_type % 2 == 0 {
                return Ok(Value::Blob(slice_to_vec(field)));
            }
            return match str_from_utf8(field) {
                Some(s) => Ok(Value::SQLiteString(s.to_owned())),
                None => Err(DecodeError::InvalidText),
            };
        }
        let v = match serial_type {
            0 => Value::Null,
            1 => Value::Int8([field[0]]),
            2 => Value::Int16([field[0], field[1]]),
            3 => Value::Int24([field[0], field[1], field[2]]),
            4 => Value::Int32([field[0], field[1], field[2], field[3]]),
            5 => Value::Int48([field[0], field[1], field[2], field[3], field[4], field[5]]),
            6 => Value::Int64(
                [field[0], field[1], field[2], field[3], field[4], field[5], field[6], field[7]],
            ),
            7 => Value::Float64(
                [field[0], field[1], field[2], field[3], field[4], field[5], field[6], field[7]],
            ),
            8 => Value::Zero,
            _ => Value::One,
        };
        proof {
            assert(int_bytes(v) matches Some(a) ==> a =~= field@);
            if v is Float64 {
                assert(v->Float64_0@ =~= field@);
            }
        }
        Ok(v)
    }

    /// The value as a 64-bit signed integer, its sign extended from the
    /// width it was stored in; `None` for a value that is no stored integer.
    pub fn as_i64(&self) -> (r: Option<i64>)
        ensures
            int_bytes(*self) is None ==> r is None,
            int_bytes(*self) matches Some(b) ==> r matches Some(x) && x as int == be_int(b),
    {
        match self {
            Value::Int8(a) => Some(as_i64_be(a.as_slice())),
            Value::Int16(a) => Some(as_i64_be(a.as_slice())),
            Value::Int24(a) => Some(as_i64_be(a.as_slice())),
            Value::Int32(a) => Some(as_i64_be(a.as_slice())),
            Value::Int48(a) => Some(as_i64_be(a.as_slice())),
            Value::Int64(a) => Some(as_i64_be(a.as_slice())),
            _ => None,
        }
    }
}

} // verus!

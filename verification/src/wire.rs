//! The wire field scanner: turns a byte buffer into the ordered sequence of
//! raw fields of one message level.  A field is a varint tag — field number
//! in the upper bits, wire type in the low three — followed by a payload
//! whose shape the wire type dictates.  Scanning fails on a deprecated or
//! unknown wire type (anything outside 0, 1, 2 and 5), a truncated varint
//! or fixed-width value, or a declared length that exceeds the remaining
//! buffer.

use vstd::prelude::*;

use crate::varint::{read_varint, spec_varint_at, lemma_varint_bounds, MAX_VARINT_LEN};

verus! {

/// Raw payload of one scanned field.  A length-delimited payload is kept as
/// the index range of the enclosing buffer that holds it.
pub enum RawValue {
    Varint(u128),
    Fixed64(u64),
    Fixed32(u32),
    Delimited { start: usize, end: usize },
}

/// One scanned field: field number and raw payload.
pub struct RawField {
    pub num: u64,
    pub value: RawValue,
}

/// Spec-level counterpart of `RawValue`; range bounds are `int` so that the
/// scanner's spec can speak of them directly.
pub ghost enum RawValueS {
    Varint(u128),
    Fixed64(u64),
    Fixed32(u32),
    Delimited { start: int, end: int },
}

pub ghost struct RawFieldS {
    pub num: u64,
    pub value: RawValueS,
}

impl View for RawValue {
    type V = RawValueS;

    open spec fn view(&self) -> RawValueS {
        match *self {
            RawValue::Varint(v) => RawValueS::Varint(v),
            RawValue::Fixed64(v) => RawValueS::Fixed64(v),
            RawValue::Fixed32(v) => RawValueS::Fixed32(v),
            RawValue::Delimited { start, end } => RawValueS::Delimited {
                start: start as int,
                end: end as int,
            },
        }
    }
}

impl View for RawField {
    type V = RawFieldS;

    open spec fn view(&self) -> RawFieldS {
        RawFieldS { num: self.num, value: self.value@ }
    }
}

/// Little-endian value of the eight bytes of `b` that start at `j`.
pub open spec fn spec_le64(b: Seq<u8>, j: int) -> u64 {
    (b[j] + b[j + 1] * 0x100 + b[j + 2] * 0x10000 + b[j + 3] * 0x1000000 + b[j + 4] * 0x100000000
        + b[j + 5] * 0x10000000000 + b[j + 6] * 0x1000000000000 + b[j + 7]
        * 0x100000000000000) as u64
}

/// Little-endian value of the four bytes of `b` that start at `j`.
pub open spec fn spec_le32(b: Seq<u8>, j: int) -> u32 {
    (b[j] + b[j + 1] * 0x100 + b[j + 2] * 0x10000 + b[j + 3] * 0x1000000) as u32
}

/// The field that starts at index `i` of `b`: its number, its raw payload,
/// and the index of the first byte after it.  `None` when the tag or a
/// varint payload is malformed, the tag does not fit 64 bits, the wire type
/// is not one of 0, 1, 2, 5, or the payload would run past the end of `b`.
pub open spec fn spec_read_field(b: Seq<u8>, i: int) -> Option<(u64, RawValueS, int)> {
    match spec_varint_at(b, i, MAX_VARINT_LEN as nat) {
        None => None,
        Some((tag, j)) => if tag >= 0x10000000000000000u128 {
            None
        } else {
            let num = (tag / 8) as u64;
            let wire = tag % 8;
            if wire == 0 {
                match spec_varint_at(b, j, MAX_VARINT_LEN as nat) {
                    None => None,
                    Some((v, k)) => Some((num, RawValueS::Varint(v), k)),
                }
            } else if wire == 1 {
                if j + 8 <= b.len() {
                    Some((num, RawValueS::Fixed64(spec_le64(b, j)), j + 8))
                } else {
                    None
                }
            } else if wire == 2 {
                match spec_varint_at(b, j, MAX_VARINT_LEN as nat) {
                    None => None,
                    Some((len, k)) => if k + len <= b.len() {
                        Some((num, RawValueS::Delimited { start: k, end: k + len }, k + len))
                    } else {
                        None
                    },
                }
            } else if wire == 5 {
                if j + 4 <= b.len() {
                    Some((num, RawValueS::Fixed32(spec_le32(b, j)), j + 4))
                } else {
                    None
                }
            } else {
                None
            }
        },
    }
}

/// Every field that a scan yields lies within the buffer: it ends after the
/// index where it started, and a length-delimited payload sits between the
/// end of its length prefix and the end of the field.
pub proof fn lemma_read_field_bounds(b: Seq<u8>, i: int)
    requires
        0 <= i < b.len(),
        spec_read_field(b, i) is Some,
    ensures
        ({
            let (num, value, j) = spec_read_field(b, i)->Some_0;
            i < j <= b.len() && match value {
                RawValueS::Delimited { start, end } => i + 2 <= start <= end <= b.len() && end
                    <= j,
                _ => true,
            }
        }),
{
    let (tag, j0) = spec_varint_at(b, i, MAX_VARINT_LEN as nat)->Some_0;
    lemma_varint_bounds(b, i, MAX_VARINT_LEN as nat);
    let wire = tag % 8;
    if wire == 0 || wire == 2 {
        if spec_varint_at(b, j0, MAX_VARINT_LEN as nat) is Some {
            lemma_varint_bounds(b, j0, MAX_VARINT_LEN as nat);
        }
    }
}

/// The fields of `b` from index `i` on, in buffer order, or `None` when any
/// of them is malformed.  Scanning an empty tail yields no fields.
pub open spec fn spec_scan(b: Seq<u8>, i: int) -> Option<Seq<RawFieldS>>
    decreases b.len() - i,
{
    if i == b.len() {
        Some(Seq::empty())
    } else if !(0 <= i < b.len()) {
        None
    } else {
        match spec_read_field(b, i) {
            None => None,
            Some((num, value, j)) => if i < j <= b.len() {
                match spec_scan(b, j) {
                    None => None,
                    Some(rest) => Some(seq![RawFieldS { num, value }].add(rest)),
                }
            } else {
                None
            },
        }
    }
}

/// Every length-delimited payload among scanned fields lies within the
/// buffer and is at least two bytes shorter than it.
pub proof fn lemma_scan_delimited_bounds(b: Seq<u8>, i: int, k: int)
    requires
        0 <= i,
        spec_scan(b, i) is Some,
        0 <= k < spec_scan(b, i)->Some_0.len(),
        spec_scan(b, i)->Some_0[k].value is Delimited,
    ensures
        ({
            let v = spec_scan(b, i)->Some_0[k].value;
            2 <= v->start <= v->end <= b.len() && v->end - v->start + 2 <= b.len()
        }),
    decreases b.len() - i,
{
    let (num, value, j) = spec_read_field(b, i)->Some_0;
    lemma_read_field_bounds(b, i);
    if k == 0 {
    } else {
        lemma_scan_delimited_bounds(b, j, k - 1);
    }
}

/// Reads the field that starts at index `i`.
pub fn read_field(b: &[u8], i: usize) -> (r: Option<(u64, RawValue, usize)>)
    ensures
        match r {
            Some((num, value, j)) => spec_read_field(b@, i as int) == Some((num, value@, j as int)),
            None => spec_read_field(b@, i as int) is None,
        },
{
    let (tag, j) = match read_varint(b, i, MAX_VARINT_LEN) {
        None => {
            return None;
        },
        Some(p) => p,
    };
    proof {
        lemma_varint_bounds(b@, i as int, MAX_VARINT_LEN as nat);
    }
    if tag >= 0x10000000000000000u128 {
        return None;
    }
    let num = (tag / 8) as u64;
    let wire = tag % 8;
    if wire == 0 {
        match read_varint(b, j, MAX_VARINT_LEN) {
            None => None,
            Some((v, k)) => Some((num, RawValue::Varint(v), k)),
        }
    } else if wire == 1 {
        if b.len() - j >= 8 {
            let v = (b[j] as u64) + (b[j + 1] as u64) * 0x100 + (b[j + 2] as u64) * 0x10000 + (b[j
                + 3] as u64) * 0x1000000 + (b[j + 4] as u64) * 0x100000000 + (b[j + 5] as u64)
                * 0x10000000000 + (b[j + 6] as u64) * 0x1000000000000 + (b[j + 7] as u64)
                * 0x100000000000000;
            Some((num, RawValue::Fixed64(v), j + 8))
        } else {
            None
        }
    } else if wire == 2 {
        proof {
            if spec_varint_at(b@, j as int, MAX_VARINT_LEN as nat) is Some {
                lemma_varint_bounds(b@, j as int, MAX_VARINT_LEN as nat);
            }
        }
        match read_varint(b, j, MAX_VARINT_LEN) {
            None => None,
            Some((len, k)) => {
                if len <= (b.len() - k) as u128 {
                    let end = k + (len as usize);
                    Some((num, RawValue::Delimited { start: k, end }, end))
                } else {
                    None
                }
            },
        }
    } else if wire == 5 {
        if b.len() - j >= 4 {
            let v = (b[j] as u32) + (b[j + 1] as u32) * 0x100 + (b[j + 2] as u32) * 0x10000 + (b[j
                + 3] as u32) * 0x1000000;
            Some((num, RawValue::Fixed32(v), j + 4))
        } else {
            None
        }
    } else {
        None
    }
}

/// Scans the whole of `b` into its ordered field sequence.
pub fn scan_fields(b: &[u8]) -> (r: Option<Vec<RawField>>)
    ensures
        match spec_scan(b@, 0) {
            Some(fields) => match r {
                Some(v) => v@.len() == fields.len() && forall|k: int|
                    0 <= k < fields.len() ==> v@[k]@ == fields[k],
                None => false,
            },
            None => r is None,
        },
{
    let ghost all = spec_scan(b@, 0);
    let mut out: Vec<RawField> = Vec::new();
    let mut pos: usize = 0;
    loop
        invariant
            pos <= b.len(),
            all == spec_scan(b@, 0),
            match spec_scan(b@, pos as int) {
                Some(rest) => all is Some && {
                    let fields = all->Some_0;
                    &&& fields.len() == out@.len() + rest.len()
                    &&& forall|k: int| 0 <= k < out@.len() ==> fields[k] == out@[k]@
                    &&& forall|k: int|
                        out@.len() <= k < fields.len() ==> fields[k] == rest[k - out@.len()]
                },
                None => all is None,
            },
        decreases b.len() - pos,
    {
        if pos == b.len() {
            return Some(out);
        }
        match read_field(b, pos) {
            None => {
                return None;
            },
            Some((num, value, j)) => {
                proof {
                    lemma_read_field_bounds(b@, pos as int);
                }
                out.push(RawField { num, value });
                pos = j;
            },
        }
    }
}

} // verus!

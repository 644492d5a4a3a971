//! Base-128 varints: the low-level integer encoding of the protobuf wire
//! format.  Each byte carries seven value bits, least significant group
//! first; the high bit of a byte is set on every byte but the last.

use vstd::prelude::*;

verus! {

/// Longest accepted varint encoding.  Nineteen seven-bit groups are enough
/// for the full 128-bit range that a decoded varint may hold; anything
/// longer is rejected as malformed.
pub const MAX_VARINT_LEN: usize = 19;

/// Decoded value of the varint that starts at index `i` of `b`, together
/// with the index of the first byte after it.  `None` when the bytes run
/// out before a terminating byte (high bit clear), when the encoding uses
/// more than `fuel` bytes, or when the value does not fit in 128 bits.
pub open spec fn spec_varint_at(b: Seq<u8>, i: int, fuel: nat) -> Option<(u128, int)>
    decreases fuel,
{
    if fuel == 0 || !(0 <= i < b.len()) {
        None
    } else if b[i] < 0x80 {
        Some((b[i] as u128, i + 1))
    } else {
        match spec_varint_at(b, i + 1, (fuel - 1) as nat) {
            None => None,
            Some((rest, j)) => {
                if rest >= 0x2000000000000000000000000000000u128 {
                    None
                } else {
                    Some((((b[i] - 0x80) + 128 * rest) as u128, j))
                }
            },
        }
    }
}

/// A decoded varint always ends after the byte where it started and within
/// the buffer.
pub proof fn lemma_varint_bounds(b: Seq<u8>, i: int, fuel: nat)
    requires
        spec_varint_at(b, i, fuel) is Some,
    ensures
        i < spec_varint_at(b, i, fuel)->Some_0.1 <= b.len(),
        spec_varint_at(b, i, fuel)->Some_0.1 - i <= fuel,
    decreases fuel,
{
    if b[i] >= 0x80 {
        lemma_varint_bounds(b, i + 1, (fuel - 1) as nat);
    }
}

/// The canonical varint encoding of `v`: seven bits per byte, least
/// significant group first, high bit set on every byte but the last.
pub open spec fn spec_varint_enc(v: u128) -> Seq<u8>
    decreases v,
{
    if v < 0x80 {
        seq![v as u8]
    } else {
        seq![(0x80 + v % 0x80) as u8].add(spec_varint_enc(v / 0x80))
    }
}

/// Powers of 128: the number of values `k` seven-bit groups can hold.
pub open spec fn pow128(k: nat) -> nat
    decreases k,
{
    if k == 0 {
        1
    } else {
        128 * pow128((k - 1) as nat)
    }
}

/// A value below the `k`-th power of 128 encodes in at most `k` bytes.
pub proof fn lemma_varint_enc_len_bounded(v: u128, k: nat)
    requires
        1 <= k,
        v < pow128(k),
    ensures
        spec_varint_enc(v).len() <= k,
    decreases k,
{
    if v >= 0x80 {
        assert(pow128(k) == 128 * pow128((k - 1) as nat));
        assert(v / 0x80 < pow128((k - 1) as nat));
        lemma_varint_enc_len_bounded(v / 0x80, (k - 1) as nat);
    }
}

/// Every 128-bit value encodes in at most `MAX_VARINT_LEN` bytes.
pub proof fn lemma_varint_enc_len(v: u128)
    ensures
        1 <= spec_varint_enc(v).len() <= MAX_VARINT_LEN,
{
    reveal_with_fuel(pow128, 20);
    assert(pow128(19) == 0x2000000000000000000000000000000000);
    lemma_varint_enc_len_bounded(v, 19);
}

/// Decoding reverses encoding: wherever the encoding of `v` sits in a
/// buffer, the varint read from its first byte yields `v` back and ends
/// right after it.
pub proof fn lemma_varint_enc_decodes(b: Seq<u8>, i: int, v: u128, fuel: nat)
    requires
        0 <= i,
        i + spec_varint_enc(v).len() <= b.len(),
        b.subrange(i, i + spec_varint_enc(v).len()) == spec_varint_enc(v),
        fuel >= spec_varint_enc(v).len(),
    ensures
        spec_varint_at(b, i, fuel) == Some((v, i + spec_varint_enc(v).len())),
    decreases v,
{
    let enc = spec_varint_enc(v);
    assert(b[i] == enc[0]);
    if v < 0x80 {
        assert(spec_varint_at(b, i, fuel) == Some((v, i + 1)));
    } else {
        let rest = spec_varint_enc(v / 0x80);
        assert(enc =~= seq![(0x80 + v % 0x80) as u8].add(rest));
        assert forall|t: int| 0 <= t < rest.len() implies b[i + 1 + t] == rest[t] by {
            assert(b.subrange(i, i + enc.len())[t + 1] == enc[t + 1]);
        }
        assert(b.subrange(i + 1, i + 1 + rest.len()) =~= rest);
        lemma_varint_enc_decodes(b, i + 1, v / 0x80, (fuel - 1) as nat);
        assert(v / 0x80 < 0x2000000000000000000000000000000u128);
        assert((b[i] - 0x80) + 128 * (v / 0x80) == v);
    }
}

/// Reads the varint that starts at index `i`, spending at most `fuel`
/// bytes.
pub fn read_varint(b: &[u8], i: usize, fuel: usize) -> (r: Option<(u128, usize)>)
    ensures
        match r {
            Some((v, j)) => spec_varint_at(b@, i as int, fuel as nat) == Some((v, j as int)),
            None => spec_varint_at(b@, i as int, fuel as nat) is None,
        },
    decreases fuel,
{
    if fuel == 0 || i >= b.len() {
        return None;
    }
    let byte = b[i];
    if byte < 0x80 {
        Some((byte as u128, i + 1))
    } else {
        match read_varint(b, i + 1, fuel - 1) {
            None => None,
            Some((rest, j)) => {
                if rest >= 0x2000000000000000000000000000000u128 {
                    None
                } else {
                    Some((((byte - 0x80) as u128) + 128 * rest, j))
                }
            },
        }
    }
}

} // verus!

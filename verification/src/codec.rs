//! The data channel's wire format.
//!
//! A matrix travels over the data socket as its raw values, eight bytes per
//! value, row-major, little endian.  This module decodes such a buffer into
//! bit patterns and encodes bit patterns back into bytes, and proves that the
//! two directions are inverse to each other, so that every value — the NaN
//! patterns included — survives the trip bit for bit.

use vstd::prelude::*;
use vstd::bytes::{
    spec_u64_from_le_bytes, spec_u64_to_le_bytes, lemma_auto_spec_u64_to_from_le_bytes,
    u64_from_le_bytes, u64_to_le_bytes,
};
use vstd::slice::slice_subrange;
use crate::errors::DataLengthError;

verus! {

/// The bit patterns encoded by a byte buffer, eight bytes each, little
/// endian.
pub open spec fn spec_decode_bytes(bytes: Seq<u8>) -> Seq<u64> {
    Seq::new(bytes.len() / 8, |i: int| spec_u64_from_le_bytes(bytes.subrange(8 * i, 8 * i + 8)))
}

/// The byte buffer encoding a sequence of bit patterns, eight bytes each,
/// little endian.
pub open spec fn spec_encode_bits(bits: Seq<u64>) -> Seq<u8> {
    Seq::new(bits.len() * 8, |i: int| spec_u64_to_le_bytes(bits[i / 8])[i % 8])
}

/// Decoding undoes encoding: every sequence of bit patterns comes back
/// unchanged from its byte form.  Together with [`lemma_encode_after_decode`]
/// this is the round-trip law of the data channel; since it speaks of bit
/// patterns, it preserves NaN patterns as well as every finite value.
pub proof fn lemma_decode_after_encode(bits: Seq<u64>)
    ensures
        spec_decode_bytes(spec_encode_bits(bits)) == bits,
{
    lemma_auto_spec_u64_to_from_le_bytes();
    let bytes = spec_encode_bits(bits);
    assert forall|i: int| 0 <= i < bits.len() implies #[trigger] spec_decode_bytes(bytes)[i]
        == bits[i] by {
        assert(bytes.subrange(8 * i, 8 * i + 8) =~= spec_u64_to_le_bytes(bits[i])) by {
            assert forall|j: int| 0 <= j < 8 implies #[trigger] bytes.subrange(8 * i, 8 * i + 8)[j]
                == spec_u64_to_le_bytes(bits[i])[j] by {
                assert(bytes[8 * i + j] == spec_u64_to_le_bytes(bits[(8 * i + j) / 8])[(8 * i + j)
                    % 8]);
                assert((8 * i + j) / 8 == i && (8 * i + j) % 8 == j) by (nonlinear_arith)
                    requires
                        0 <= j < 8,
                ;
            }
        }
    }
    assert(spec_decode_bytes(spec_encode_bits(bits)) =~= bits);
}

/// Encoding undoes decoding on every buffer that holds whole values.
pub proof fn lemma_encode_after_decode(bytes: Seq<u8>)
    requires
        bytes.len() % 8 == 0,
    ensures
        spec_encode_bits(spec_decode_bytes(bytes)) == bytes,
{
    lemma_auto_spec_u64_to_from_le_bytes();
    let bits = spec_decode_bytes(bytes);
    assert(bits.len() * 8 == bytes.len()) by (nonlinear_arith)
        requires
            bytes.len() % 8 == 0,
            bits.len() == bytes.len() / 8,
    ;
    assert forall|i: int| 0 <= i < bytes.len() implies #[trigger] spec_encode_bits(bits)[i]
        == bytes[i] by {
        let v = i / 8;
        let j = i % 8;
        assert(0 <= j < 8 && i == 8 * v + j && 0 <= v < bits.len()) by (nonlinear_arith)
            requires
                0 <= i < bytes.len(),
                v == i / 8,
                j == i % 8,
                bits.len() * 8 == bytes.len(),
        ;
        assert(spec_u64_to_le_bytes(bits[v]) =~= bytes.subrange(8 * v, 8 * v + 8));
        assert(spec_encode_bits(bits)[i] == spec_u64_to_le_bytes(bits[v])[j]);
    }
    assert(spec_encode_bits(spec_decode_bytes(bytes)) =~= bytes);
}

/// Decode a raw buffer received for a matrix of `columns` columns into bit
/// patterns.  The buffer must hold whole rows: its length must be a multiple
/// of eight bytes per value times the column count; any other length is
/// reported as a [`DataLengthError`].
pub fn u8_to_f64_bits(u8_data: &Vec<u8>, columns: usize) -> (result: Result<
    Vec<u64>,
    DataLengthError,
>)
    requires
        columns >= 1,
        8 * columns <= usize::MAX,
    ensures
        match result {
            Ok(bits) => {
                &&& u8_data@.len() % (8 * columns as nat) == 0
                &&& bits@ == spec_decode_bytes(u8_data@)
            },
            Err(e) => {
                &&& u8_data@.len() % (8 * columns as nat) != 0
                &&& e@ == "Length of data was not a multiple of 8 * columns"@
            },
        },
{
    let len = u8_data.len();
    let denom = 8 * columns;
    if len % denom != 0 {
        return Err(DataLengthError::new());
    }
    let nrows = len / denom;
    proof {
        vstd::arithmetic::div_mod::lemma_fundamental_div_mod(len as int, denom as int);
    }
    assert(len == nrows * denom);
    assert(nrows * columns * 8 == len && nrows * columns <= len && nrows * columns == len as int
        / 8) by (nonlinear_arith)
        requires
            denom == 8 * columns,
            len == nrows * denom,
            columns >= 1,
    ;
    let count = nrows * columns;
    let mut bits: Vec<u64> = Vec::new();
    for i in 0..count
        invariant
            count == u8_data@.len() / 8,
            count * 8 == u8_data@.len(),
            count * 8 <= usize::MAX,
            bits@.len() == i,
            forall|k: int|
                0 <= k < i ==> #[trigger] bits@[k] == spec_u64_from_le_bytes(
                    u8_data@.subrange(8 * k, 8 * k + 8),
                ),
    {
        assert(8 * i + 8 <= count * 8) by (nonlinear_arith)
            requires
                i < count,
        ;
        let chunk = slice_subrange(u8_data.as_slice(), 8 * i, 8 * i + 8);
        let value = u64_from_le_bytes(chunk);
        bits.push(value);
    }
    assert(bits@ =~= spec_decode_bytes(u8_data@));
    Ok(bits)
}

/// Encode bit patterns into the raw byte form the data channel carries.
pub fn f64_bits_to_u8(bits: &Vec<u64>) -> (bytes: Vec<u8>)
    ensures
        bytes@ == spec_encode_bits(bits@),
{
    let count = bits.len();
    let mut bytes: Vec<u8> = Vec::new();
    for i in 0..count
        invariant
            count == bits@.len(),
            bytes@.len() == 8 * i,
            forall|k: int|
                0 <= k < 8 * i ==> #[trigger] bytes@[k] == spec_u64_to_le_bytes(bits@[k / 8])[k
                    % 8],
    {
        let mut chunk = u64_to_le_bytes(bits[i]);
        let ghost old_bytes = bytes@;
        bytes.append(&mut chunk);
        assert forall|k: int| 0 <= k < 8 * (i + 1) implies #[trigger] bytes@[k]
            == spec_u64_to_le_bytes(bits@[k / 8])[k % 8] by {
            if k < 8 * i {
                assert(bytes@[k] == old_bytes[k]);
            } else {
                assert(bytes@[k] == spec_u64_to_le_bytes(bits@[i as int])[k - 8 * i]);
                assert(k / 8 == i && k % 8 == k - 8 * i) by (nonlinear_arith)
                    requires
                        8 * i <= k < 8 * (i + 1),
                ;
            }
        }
    }
    assert(bytes@ =~= spec_encode_bits(bits@));
    bytes
}

} // verus!

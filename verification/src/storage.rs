//! What is stored in a checkpoint comes back as the numbers that were stored.

use crate::names::{Dtype, Info};
use crate::safetensors::le64;
use crate::scalar::Arith;
use crate::weights::{le32, signed32, signed64, stored, stored_i64};
use vstd::prelude::*;

verus! {

/// Byte `k` of a number, the least significant first.
pub open spec fn byte_of(n: int, k: int) -> int {
    (if k == 0 {
        n
    } else if k == 1 {
        n / 0x100
    } else if k == 2 {
        n / 0x1_0000
    } else if k == 3 {
        n / 0x100_0000
    } else if k == 4 {
        n / 0x1_0000_0000
    } else if k == 5 {
        n / 0x100_0000_0000
    } else if k == 6 {
        n / 0x1_0000_0000_0000
    } else {
        n / 0x100_0000_0000_0000
    }) % 256
}

proof fn lemma_le32(s: Seq<u8>, n: int)
    requires
        s.len() == 4,
        0 <= n < 0x1_0000_0000,
        forall|k: int| 0 <= k < 4 ==> #[trigger] s[k] == byte_of(n, k),
    ensures
        le32(s) == n,
{
    assert(s[0] == n % 256 && s[1] == n / 0x100 % 256 && s[2] == n / 0x1_0000 % 256 && s[3] == n
        / 0x100_0000 % 256);
}

/// Four bytes from the least significant on make up the number.
proof fn lemma_four_bytes(n: int)
    requires
        0 <= n < 0x1_0000_0000,
    ensures
        n % 256 + (n / 0x100 % 256) * 0x100 + (n / 0x1_0000 % 256) * 0x1_0000 + (n / 0x100_0000
            % 256) * 0x100_0000 == n,
{
}

/// The lower bytes of a number are those of its lower half.
proof fn lemma_lower_byte(n: int, low: int, high: int)
    requires
        n == high * 0x1_0000_0000 + low,
        0 <= low < 0x1_0000_0000,
        0 <= high,
    ensures
        n % 256 == low % 256,
        n / 0x100 % 256 == low / 0x100 % 256,
        n / 0x1_0000 % 256 == low / 0x1_0000 % 256,
        n / 0x100_0000 % 256 == low / 0x100_0000 % 256,
{
    assert(n / 0x100 == high * 0x100_0000 + low / 0x100);
    assert(n / 0x1_0000 == high * 0x1_0000 + low / 0x1_0000);
    assert(n / 0x100_0000 == high * 0x100 + low / 0x100_0000);
}

proof fn lemma_le64(s: Seq<u8>, n: int)
    requires
        s.len() == 8,
        0 <= n < 0x1_0000_0000_0000_0000,
        forall|k: int| 0 <= k < 8 ==> #[trigger] s[k] == byte_of(n, k),
    ensures
        le64(s) == n,
{
    let (low, high) = (n % 0x1_0000_0000, n / 0x1_0000_0000);
    lemma_lower_byte(n, low, high);
    lemma_four_bytes(low);
    lemma_four_bytes(high);
    vstd::arithmetic::div_mod::lemma_div_denominator(n, 0x1_0000_0000, 0x100);
    vstd::arithmetic::div_mod::lemma_div_denominator(n, 0x1_0000_0000, 0x1_0000);
    vstd::arithmetic::div_mod::lemma_div_denominator(n, 0x1_0000_0000, 0x100_0000);
    let (b0, b1, b2, b3) = (low % 256, low / 0x100 % 256, low / 0x1_0000 % 256, low / 0x100_0000
        % 256);
    let (b4, b5, b6, b7) = (high % 256, high / 0x100 % 256, high / 0x1_0000 % 256, high
        / 0x100_0000 % 256);
    assert(s[0] == b0 && s[1] == b1 && s[2] == b2 && s[3] == b3);
    assert(s[4] == b4 && s[5] == b5 && s[6] == b6 && s[7] == b7);
    lemma_eight(s, b0, b1, b2, b3, b4, b5, b6, b7, low, high);
}

proof fn lemma_eight(
    s: Seq<u8>,
    b0: int,
    b1: int,
    b2: int,
    b3: int,
    b4: int,
    b5: int,
    b6: int,
    b7: int,
    low: int,
    high: int,
)
    requires
        s[0] == b0 && s[1] == b1 && s[2] == b2 && s[3] == b3,
        s[4] == b4 && s[5] == b5 && s[6] == b6 && s[7] == b7,
        b0 + b1 * 0x100 + b2 * 0x1_0000 + b3 * 0x100_0000 == low,
        b4 + b5 * 0x100 + b6 * 0x1_0000 + b7 * 0x100_0000 == high,
    ensures
        le64(s) == high * 0x1_0000_0000 + low,
{
}

/// A tensor of single-precision numbers gives back, at place `i`, the number whose bit pattern
/// stands in the four bytes of that place, the least significant first.
pub proof fn lemma_floats_come_back<T>(m: Arith<T>, file: Seq<u8>, t: Info, i: int, bits: u32)
    requires
        t.dtype == Dtype::F32,
        0 <= t.offset,
        0 <= i < t.nbytes / 4,
        t.offset + t.nbytes <= file.len(),
        forall|k: int|
            0 <= k < 4 ==> #[trigger] file[t.offset + 4 * i + k] == byte_of(bits as int, k),
    ensures
        stored(m, file, t).len() == t.nbytes / 4,
        stored(m, file, t)[i] == (m.bits)(bits),
{
    let s = file.subrange(t.offset + 4 * i, t.offset + 4 * i + 4);
    assert forall|k: int| 0 <= k < 4 implies #[trigger] s[k] == byte_of(bits as int, k) by {
        assert(s[k] == file[t.offset + 4 * i + k]);
    }
    lemma_le32(s, bits as int);
}

/// A tensor of integers of eight bytes gives back, at place `i`, the integer that stands there in
/// two's complement, the least significant byte first.
pub proof fn lemma_long_integers_come_back<T>(m: Arith<T>, file: Seq<u8>, t: Info, i: int, n: i64)
    requires
        t.dtype == Dtype::Int,
        t.esize == 8,
        0 <= t.offset,
        0 <= i < t.nbytes / 8,
        t.offset + t.nbytes <= file.len(),
        ({
            let pattern = if n < 0 {
                n + 0x1_0000_0000_0000_0000
            } else {
                n as int
            };
            forall|k: int|
                0 <= k < 8 ==> #[trigger] file[t.offset + 8 * i + k] == byte_of(pattern, k)
        }),
    ensures
        stored_i64(file, t)[i] == n,
        stored(m, file, t)[i] == (m.of_i64)(n),
{
    let pattern = if n < 0 {
        n + 0x1_0000_0000_0000_0000
    } else {
        n as int
    };
    let s = file.subrange(t.offset + 8 * i, t.offset + 8 * i + 8);
    assert forall|k: int| 0 <= k < 8 implies #[trigger] s[k] == byte_of(pattern, k) by {
        assert(s[k] == file[t.offset + 8 * i + k]);
    }
    lemma_le64(s, pattern);
    assert(signed64(pattern) == n);
}

/// A tensor of integers of four bytes gives back, at place `i`, the integer that stands there in
/// two's complement, the least significant byte first.
pub proof fn lemma_integers_come_back<T>(m: Arith<T>, file: Seq<u8>, t: Info, i: int, n: i32)
    requires
        t.dtype == Dtype::Int,
        t.esize == 4,
        0 <= t.offset,
        0 <= i < t.nbytes / 4,
        t.offset + t.nbytes <= file.len(),
        ({
            let pattern = if n < 0 {
                n + 0x1_0000_0000
            } else {
                n as int
            };
            forall|k: int|
                0 <= k < 4 ==> #[trigger] file[t.offset + 4 * i + k] == byte_of(pattern, k)
        }),
    ensures
        stored(m, file, t)[i] == (m.of_i64)(n as i64),
{
    let pattern = if n < 0 {
        n + 0x1_0000_0000
    } else {
        n as int
    };
    let s = file.subrange(t.offset + 4 * i, t.offset + 4 * i + 4);
    assert forall|k: int| 0 <= k < 4 implies #[trigger] s[k] == byte_of(pattern, k) by {
        assert(s[k] == file[t.offset + 4 * i + k]);
    }
    lemma_le32(s, pattern);
    assert(signed32(pattern) == n);
}

} // verus!

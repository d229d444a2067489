//! Packing of boolean sequences into bytes, eight per byte, lowest bit first.

use vstd::prelude::*;

verus! {

/// The numeric value of bit position `k` of a byte, for `k` from 0 to 7.
pub open spec fn bit_weight(k: int) -> int {
    if k <= 0 {
        1
    } else if k == 1 {
        2
    } else if k == 2 {
        4
    } else if k == 3 {
        8
    } else if k == 4 {
        16
    } else if k == 5 {
        32
    } else if k == 6 {
        64
    } else {
        128
    }
}

/// 1 if `bits` has a true entry at `i`, 0 if the entry is false or missing.
pub open spec fn bit_at(bits: Seq<bool>, i: int) -> int {
    if 0 <= i < bits.len() && bits[i] {
        1
    } else {
        0
    }
}

/// The value of the `n` entries of `bits` from `base` on, read as the `n`
/// lowest bits of a number.
pub open spec fn low_bits(bits: Seq<bool>, base: int, n: int) -> int
    decreases n,
{
    if n <= 0 {
        0
    } else {
        low_bits(bits, base, n - 1) + bit_at(bits, base + n - 1) * bit_weight(n - 1)
    }
}

/// Number of bytes that `n` bits occupy.
pub open spec fn packed_len(n: nat) -> nat {
    ((n + 7) / 8) as nat
}

/// The packed form of `bits`: byte `j` holds entries `8 * j` to `8 * j + 7`,
/// entry `8 * j + k` in bit `k`; bits past the end of `bits` are 0.
pub open spec fn packed(bits: Seq<bool>) -> Seq<u8> {
    Seq::new(packed_len(bits.len()), |j: int| low_bits(bits, 8 * j, 8) as u8)
}

/// Whether bit `k` of `byte` is set.
pub open spec fn bit_of(byte: u8, k: int) -> bool {
    (byte as int / bit_weight(k)) % 2 == 1
}

/// The bits of `bytes`, eight per byte, lowest bit first.
pub open spec fn unpacked(bytes: Seq<u8>) -> Seq<bool> {
    Seq::new(8 * bytes.len(), |i: int| bit_of(bytes[i / 8], i % 8))
}

/// `bits` followed by as many `false` entries as fill its last byte.
pub open spec fn padded(bits: Seq<bool>) -> Seq<bool> {
    Seq::new(8 * packed_len(bits.len()), |i: int| i < bits.len() && bits[i])
}

/// A group of `n` bits has a value below the weight of the next bit.
pub proof fn lemma_low_bits_bound(bits: Seq<bool>, base: int, n: int)
    requires
        0 <= n <= 8,
    ensures
        0 <= low_bits(bits, base, n),
        n < 8 ==> low_bits(bits, base, n) < bit_weight(n),
        low_bits(bits, base, n) <= 255,
    decreases n,
{
    if n > 0 {
        lemma_low_bits_bound(bits, base, n - 1);
    }
}

/// Bit `k` of a packed byte is the entry that was packed into it.
pub proof fn lemma_packed_bit(bits: Seq<bool>, base: int, k: int)
    requires
        0 <= k < 8,
    ensures
        bit_of(low_bits(bits, base, 8) as u8, k) == (bit_at(bits, base + k) == 1),
{
    reveal_with_fuel(low_bits, 9);
    lemma_low_bits_bound(bits, base, 8);
}

/// Packing never yields nothing for a non-empty input.
pub proof fn lemma_packed_len(bits: Seq<bool>)
    ensures
        packed(bits).len() == packed_len(bits.len()),
        bits.len() > 0 ==> packed(bits).len() > 0,
        8 * packed(bits).len() < bits.len() + 8,
        bits.len() <= 8 * packed(bits).len(),
{
}

/// Unpacking what was packed gives the input back, followed by `false`
/// entries up to the next multiple of eight.
pub proof fn lemma_unpack_pack(bits: Seq<bool>)
    ensures
        unpacked(packed(bits)) == padded(bits),
{
    let bytes = packed(bits);
    assert forall|i: int| 0 <= i < 8 * bytes.len() implies #[trigger] unpacked(bytes)[i] == padded(
        bits,
    )[i] by {
        let j = i / 8;
        let k = i % 8;
        lemma_packed_bit(bits, 8 * j, k);
        assert(bytes[j] == low_bits(bits, 8 * j, 8) as u8);
    }
    assert(unpacked(bytes) =~= padded(bits));
}

/// Packs `bits` into bytes.
pub fn pack_bits(bits: &Vec<bool>) -> (out: Vec<u8>)
    ensures
        out@ == packed(bits@),
{
    let len = bits.len();
    let chunks: usize = if len % 8 == 0 {
        len / 8
    } else {
        len / 8 + 1
    };
    let mut out: Vec<u8> = Vec::new();
    let mut j: usize = 0;
    while j < chunks
        invariant
            len == bits.len(),
            chunks == packed_len(len as nat),
            j <= chunks,
            out.len() == j,
            forall|c: int| 0 <= c < j ==> #[trigger] out@[c] == low_bits(bits@, 8 * c, 8) as u8,
        decreases chunks - j,
    {
        let base: usize = j * 8;
        let mut acc: u8 = 0;
        let mut weight: u8 = 1;
        let mut k: usize = 0;
        while k < 8
            invariant
                len == bits.len(),
                base < len,
                k <= 8,
                k < 8 ==> weight == bit_weight(k as int),
                acc == low_bits(bits@, base as int, k as int),
            decreases 8 - k,
        {
            proof {
                lemma_low_bits_bound(bits@, base as int, k as int);
                lemma_low_bits_bound(bits@, base as int, k + 1);
            }
            if k < len - base && bits[base + k] {
                acc = acc + weight;
            }
            if k < 7 {
                weight = weight * 2;
            }
            k += 1;
        }
        out.push(acc);
        j += 1;
    }
    assert(out@ =~= packed(bits@));
    out
}

/// Unpacks `bytes` into bits, eight per byte.
pub fn unpack_bits(bytes: &Vec<u8>) -> (out: Vec<bool>)
    ensures
        out@ == unpacked(bytes@),
{
    let mut out: Vec<bool> = Vec::new();
    let mut j: usize = 0;
    while j < bytes.len()
        invariant
            j <= bytes.len(),
            out.len() == 8 * j,
            forall|i: int| 0 <= i < 8 * j ==> #[trigger] out@[i] == bit_of(bytes@[i / 8], i % 8),
        decreases bytes.len() - j,
    {
        let byte = bytes[j];
        let mut weight: u8 = 1;
        let mut k: usize = 0;
        while k < 8
            invariant
                j < bytes.len(),
                byte == bytes@[j as int],
                k <= 8,
                k < 8 ==> weight == bit_weight(k as int),
                out.len() == 8 * j + k,
                forall|i: int|
                    0 <= i < 8 * j + k ==> #[trigger] out@[i] == bit_of(bytes@[i / 8], i % 8),
            decreases 8 - k,
        {
            out.push((byte / weight) % 2 == 1);
            if k < 7 {
                weight = weight * 2;
            }
            k += 1;
        }
        j += 1;
    }
    assert(out@ =~= unpacked(bytes@));
    out
}

} // verus!

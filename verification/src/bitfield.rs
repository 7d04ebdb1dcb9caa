use vstd::prelude::*;

verus! {

/// Bit `j` of byte `b`, counting from the most significant bit (`j` from 0
/// to 7).
pub open spec fn bit_of(b: u8, j: int) -> bool {
    (b >> ((7 - j) as u8)) & 1u8 == 1u8
}

/// Entry `i` of a bitfield: bit `i % 8` of byte `i / 8`.
pub open spec fn bitfield_entry(bits: Seq<u8>, i: int) -> bool {
    bit_of(bits[i / 8], i % 8)
}

/// `bits` is the packed form of `available`: `(n + 7) / 8` bytes for `n`
/// entries, entry `i` in bit `i % 8` (from the most significant bit) of byte
/// `i / 8`, and zero bits past the last entry.
pub open spec fn packs(bits: Seq<u8>, available: Seq<bool>) -> bool {
    &&& bits.len() == (available.len() + 7) / 8
    &&& forall|i: int| 0 <= i < 8 * bits.len() ==>
            #[trigger] bitfield_entry(bits, i) == (i < available.len() && available[i])
}

/// `available` holds every bit of `bits`, eight per byte, most significant
/// bit first.
pub open spec fn unpacks(available: Seq<bool>, bits: Seq<u8>) -> bool {
    &&& available.len() == 8 * bits.len()
    &&& forall|i: int| 0 <= i < available.len() ==> #[trigger] available[i] == bitfield_entry(bits, i)
}

/// Setting bit `s` of a byte sets that bit and keeps the others.
proof fn lemma_set_bit(x: u8, s: u8, t: u8)
    requires
        s < 8,
        t < 8,
    ensures
        ((x | (1u8 << (7 - s) as u8)) >> (7 - t) as u8) & 1u8 == 1u8
            <==> ((x >> (7 - t) as u8) & 1u8 == 1u8 || s == t),
{
    assert(((x | (1u8 << (7 - s) as u8)) >> (7 - t) as u8) & 1u8 == 1u8
        <==> ((x >> (7 - t) as u8) & 1u8 == 1u8 || s == t)) by (bit_vector)
        requires
            s < 8,
            t < 8,
    ;
}

/// The zero byte has no bit set.
proof fn lemma_zero_bits(t: u8)
    requires
        t < 8,
    ensures
        !(((0u8 >> (7 - t) as u8) & 1u8) == 1u8),
{
    assert(!(((0u8 >> (7 - t) as u8) & 1u8) == 1u8)) by (bit_vector)
        requires
            t < 8,
    ;
}

/// Testing a bit with a mask agrees with `bit_of`.
proof fn lemma_mask_bit(x: u8, s: u8)
    requires
        s < 8,
    ensures
        (x & (1u8 << (7 - s) as u8) != 0u8) <==> ((x >> (7 - s) as u8) & 1u8 == 1u8),
{
    assert((x & (1u8 << (7 - s) as u8) != 0u8) <==> ((x >> (7 - s) as u8) & 1u8 == 1u8)) by (bit_vector)
        requires
            s < 8,
    ;
}

/// Packs `available` eight entries to a byte, the first entry in the most
/// significant bit; the bits past the last entry are zero.
pub fn encode_availability(available: &Vec<bool>) -> (bits: Vec<u8>)
    ensures
        packs(bits@, available@),
{
    let n = available.len();
    let len = n / 8 + if n % 8 == 0 { 0 } else { 1 };
    let mut bits: Vec<u8> = Vec::new();
    let mut k: usize = 0;
    while k < len
        invariant
            k <= len,
            len == (n + 7) / 8,
            bits@.len() == k,
            forall|j: int| 0 <= j < k ==> bits@[j] == 0u8,
        decreases len - k,
    {
        bits.push(0u8);
        k = k + 1;
    }
    assert forall|p: int| 0 <= p < 8 * bits@.len() implies !#[trigger] bitfield_entry(bits@, p) by {
        lemma_zero_bits((p % 8) as u8);
    }
    let mut i: usize = 0;
    while i < n
        invariant
            n == available@.len(),
            i <= n,
            bits@.len() == (n + 7) / 8,
            forall|p: int| 0 <= p < 8 * bits@.len() ==>
                #[trigger] bitfield_entry(bits@, p) == (p < i && available@[p]),
        decreases n - i,
    {
        if available[i] {
            let byte_index = i / 8;
            let bit_index = (i % 8) as u8;
            let old_byte = bits[byte_index];
            let new_byte = old_byte | (1u8 << (7 - bit_index));
            let ghost old_bits = bits@;
            bits.set(byte_index, new_byte);
            assert forall|p: int| 0 <= p < 8 * bits@.len() implies #[trigger] bitfield_entry(bits@, p)
                == (p < i + 1 && available@[p]) by {
                if p / 8 == byte_index as int {
                    lemma_set_bit(old_byte, bit_index, (p % 8) as u8);
                    assert(bitfield_entry(old_bits, p) == (p < i && available@[p]));
                } else {
                    assert(bitfield_entry(old_bits, p) == (p < i && available@[p]));
                }
            }
        }
        i = i + 1;
    }
    bits
}

/// Unpacks a bitfield: eight entries per byte, most significant bit first.
pub fn decode_availability(bits: &[u8]) -> (available: Vec<bool>)
    ensures
        unpacks(available@, bits@),
{
    let mut available: Vec<bool> = Vec::new();
    let mut k: usize = 0;
    while k < bits.len()
        invariant
            k <= bits@.len(),
            available@.len() == 8 * k,
            forall|i: int| 0 <= i < available@.len() ==> #[trigger] available@[i] == bitfield_entry(bits@, i),
        decreases bits@.len() - k,
    {
        let byte = bits[k];
        let mut bit: u8 = 0;
        while bit < 8
            invariant
                k < bits@.len(),
                byte == bits@[k as int],
                bit <= 8,
                available@.len() == 8 * k + bit,
                forall|i: int| 0 <= i < available@.len() ==> #[trigger] available@[i] == bitfield_entry(bits@, i),
            decreases 8 - bit,
        {
            let has_chunk = (byte & (1u8 << (7 - bit))) != 0;
            proof {
                lemma_mask_bit(byte, bit);
                let i = 8 * k + bit;
                assert(i / 8 == k as int && i % 8 == bit as int);
            }
            available.push(has_chunk);
            bit = bit + 1;
        }
        k = k + 1;
    }
    available
}

/// Unpacking a packed availability gives back every entry, followed by the
/// zero bits that pad the last byte.
pub proof fn lemma_availability_roundtrip(available: Seq<bool>, bits: Seq<u8>, unpacked: Seq<bool>)
    requires
        packs(bits, available),
        unpacks(unpacked, bits),
    ensures
        unpacked.len() >= available.len(),
        unpacked.len() < available.len() + 8,
        unpacked.take(available.len() as int) == available,
        forall|i: int| available.len() <= i < unpacked.len() ==> !#[trigger] unpacked[i],
{
    assert(unpacked.take(available.len() as int) =~= available);
}

} // verus!

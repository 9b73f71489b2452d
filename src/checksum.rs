//! The rolling 16-bit checksum that every integrity check of the format uses.
use vstd::prelude::*;

verus! {

/// One step of the checksum: rotate the running value right by one bit,
/// then add the byte, modulo 2^16.
pub open spec fn checksum_step(sum: u16, byte: u8) -> u16 {
    ((sum as int / 2 + (sum as int % 2) * 0x8000 + byte as int) % 0x10000) as u16
}

/// The checksum of `data` started from `seed`, folding the bytes from the front.
pub open spec fn checksum_of(data: Seq<u8>, seed: u16) -> u16
    decreases data.len(),
{
    if data.len() == 0 {
        seed
    } else {
        checksum_of(data.drop_first(), checksum_step(seed, data[0]))
    }
}

proof fn lemma_checksum_cons(data: Seq<u8>, i: int, sum: u16)
    requires
        0 <= i < data.len(),
    ensures
        checksum_of(data.subrange(i, data.len() as int), sum) == checksum_of(
            data.subrange(i + 1, data.len() as int),
            checksum_step(sum, data[i]),
        ),
{
    assert(data.subrange(i, data.len() as int).drop_first() =~= data.subrange(
        i + 1,
        data.len() as int,
    ));
}

/// Computes the checksum of `data` seeded with `initial_checksum`.
pub fn data_checksum(data: &[u8], initial_checksum: u16) -> (r: u16)
    ensures
        r == checksum_of(data@, initial_checksum),
{
    let n = data.len();
    let mut sum: u16 = initial_checksum;
    let mut i: usize = 0;
    assert(data@.subrange(0, n as int) =~= data@);
    while i < n
        invariant
            i <= n == data@.len(),
            checksum_of(data@.subrange(i as int, n as int), sum) == checksum_of(
                data@,
                initial_checksum,
            ),
        decreases n - i,
    {
        proof {
            lemma_checksum_cons(data@, i as int, sum);
        }
        let byte = data[i];
        let low_bit = sum & 1;
        let mut rotated = sum >> 1;
        if low_bit > 0 {
            rotated = rotated | 0x8000;
        }
        assert(rotated as int == sum as int / 2 + (sum as int % 2) * 0x8000) by (bit_vector)
            requires
                low_bit == sum & 1,
                rotated == if low_bit > 0 { (sum >> 1) | 0x8000 } else { sum >> 1 },
        ;
        let total: u32 = rotated as u32 + byte as u32;
        assert(total & 0xffff == total % 0x10000) by (bit_vector);
        sum = (total & 0xffff) as u16;
        i = i + 1;
    }
    assert(data@.subrange(n as int, n as int).len() == 0);
    sum
}

/// Checksumming a concatenation is the same as checksumming the second part
/// seeded with the checksum of the first.
pub proof fn lemma_checksum_concat(a: Seq<u8>, b: Seq<u8>, seed: u16)
    ensures
        checksum_of(a + b, seed) == checksum_of(b, checksum_of(a, seed)),
    decreases a.len(),
{
    if a.len() > 0 {
        assert((a + b).drop_first() =~= a.drop_first() + b);
        lemma_checksum_concat(a.drop_first(), b, checksum_step(seed, a[0]));
    } else {
        assert(a + b =~= b);
    }
}

proof fn lemma_step_injective(a: u16, b: u16, x: u8, y: u8)
    requires
        checksum_step(a, x) == checksum_step(b, y),
        a == b || x == y,
    ensures
        a == b && x == y,
{
}

/// Distinct seeds give distinct checksums of the same data.
pub proof fn lemma_checksum_seed_injective(data: Seq<u8>, a: u16, b: u16)
    requires
        a != b,
    ensures
        checksum_of(data, a) != checksum_of(data, b),
    decreases data.len(),
{
    if data.len() > 0 {
        if checksum_step(a, data[0]) == checksum_step(b, data[0]) {
            lemma_step_injective(a, b, data[0], data[0]);
        }
        lemma_checksum_seed_injective(data.drop_first(), checksum_step(a, data[0]), checksum_step(b, data[0]));
    }
}

/// Changing one byte of the data changes its checksum.
pub proof fn lemma_checksum_one_byte(data: Seq<u8>, k: int, byte: u8, seed: u16)
    requires
        0 <= k < data.len(),
        byte != data[k],
    ensures
        checksum_of(data.update(k, byte), seed) != checksum_of(data, seed),
    decreases data.len(),
{
    let changed = data.update(k, byte);
    if k == 0 {
        assert(changed.drop_first() =~= data.drop_first());
        if checksum_step(seed, byte) == checksum_step(seed, data[0]) {
            lemma_step_injective(seed, seed, byte, data[0]);
        }
        lemma_checksum_seed_injective(data.drop_first(), checksum_step(seed, byte), checksum_step(seed, data[0]));
    } else {
        assert(changed.drop_first() =~= data.drop_first().update(k - 1, byte));
        lemma_checksum_one_byte(data.drop_first(), k - 1, byte, checksum_step(seed, data[0]));
    }
}

} // verus!

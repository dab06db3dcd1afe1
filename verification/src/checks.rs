use vstd::prelude::*;

verus! {

/// One shift of the reflected CRC-32 register (polynomial 0xEDB88320).
pub open spec fn crc_bit(c: u32) -> u32 {
    if c & 1 != 0 { 0xEDB88320u32 ^ (c >> 1) } else { c >> 1 }
}

/// `k` register shifts.
pub open spec fn crc_bits(c: u32, k: nat) -> u32
    decreases k,
{
    if k == 0 { c } else { crc_bit(crc_bits(c, (k - 1) as nat)) }
}

/// The CRC register after feeding `bytes` starting from register value `c`.
pub open spec fn crc_update(c: u32, bytes: Seq<u8>) -> u32
    decreases bytes.len(),
{
    if bytes.len() == 0 {
        c
    } else {
        crc_bits(crc_update(c, bytes.drop_last()) ^ (bytes.last() as u32), 8)
    }
}

/// CRC-32 as used by PNG chunks: register starts at all ones, result is complemented.
pub open spec fn crc32_spec(bytes: Seq<u8>) -> u32 {
    !crc_update(!0u32, bytes)
}

pub fn crc32(bytes: &[u8]) -> (r: u32)
    ensures
        r == crc32_spec(bytes@),
{
    let mut c: u32 = !0u32;
    let mut i: usize = 0;
    while i < bytes.len()
        invariant
            i <= bytes.len(),
            c == crc_update(!0u32, bytes@.take(i as int)),
        decreases bytes.len() - i,
    {
        assert(bytes@.take(i + 1).drop_last() =~= bytes@.take(i as int));
        c = c ^ (bytes[i] as u32);
        let ghost start = c;
        let mut k: u32 = 0;
        while k < 8
            invariant
                k <= 8,
                c == crc_bits(start, k as nat),
            decreases 8 - k,
        {
            c = if c & 1 != 0 { 0xEDB88320u32 ^ (c >> 1) } else { c >> 1 };
            k = k + 1;
        }
        i = i + 1;
    }
    assert(bytes@.take(bytes.len() as int) =~= bytes@);
    !c
}


/// The two Adler-32 running sums after `bytes`.
pub open spec fn adler_sums(bytes: Seq<u8>) -> (nat, nat)
    decreases bytes.len(),
{
    if bytes.len() == 0 {
        (1, 0)
    } else {
        let (a, b) = adler_sums(bytes.drop_last());
        let a2 = ((a + bytes.last()) % 65521) as nat;
        (a2, ((b + a2) % 65521) as nat)
    }
}

pub open spec fn adler32_spec(bytes: Seq<u8>) -> u32 {
    let (a, b) = adler_sums(bytes);
    ((b as u32) << 16) | (a as u32)
}

proof fn lemma_adler_sums_bounded(bytes: Seq<u8>)
    ensures
        adler_sums(bytes).0 < 65521,
        adler_sums(bytes).1 < 65521,
    decreases bytes.len(),
{
    if bytes.len() > 0 {
        lemma_adler_sums_bounded(bytes.drop_last());
    }
}

/// Adler-32 checksum (the zlib trailer).
pub fn adler32(bytes: &[u8]) -> (r: u32)
    ensures
        r == adler32_spec(bytes@),
{
    let mut a: u32 = 1;
    let mut b: u32 = 0;
    let mut i: usize = 0;
    while i < bytes.len()
        invariant
            i <= bytes.len(),
            a as nat == adler_sums(bytes@.take(i as int)).0,
            b as nat == adler_sums(bytes@.take(i as int)).1,
            a < 65521,
            b < 65521,
        decreases bytes.len() - i,
    {
        assert(bytes@.take(i + 1).drop_last() =~= bytes@.take(i as int));
        a = (a + bytes[i] as u32) % 65521;
        b = (b + a) % 65521;
        i = i + 1;
    }
    assert(bytes@.take(bytes.len() as int) =~= bytes@);
    (b << 16) | a
}

/// FNV-1a 64-bit state after `bytes`.
pub open spec fn fnv_state(bytes: Seq<u8>) -> u64
    decreases bytes.len(),
{
    if bytes.len() == 0 {
        0xcbf29ce484222325u64
    } else {
        (fnv_state(bytes.drop_last()) ^ (bytes.last() as u64)).wrapping_mul(0x100000001b3u64)
    }
}

/// FNV-1a 64-bit hash, used to name cache and download files.
pub fn fnv64(bytes: &[u8]) -> (h: u64)
    ensures
        h == fnv_state(bytes@),
{
    let mut h: u64 = 0xcbf29ce484222325u64;
    let mut i: usize = 0;
    while i < bytes.len()
        invariant
            i <= bytes.len(),
            h == fnv_state(bytes@.take(i as int)),
        decreases bytes.len() - i,
    {
        assert(bytes@.take(i + 1).drop_last() =~= bytes@.take(i as int));
        h = h ^ (bytes[i] as u64);
        h = h.wrapping_mul(0x100000001b3u64);
        i = i + 1;
    }
    assert(bytes@.take(bytes.len() as int) =~= bytes@);
    h
}

} // verus!

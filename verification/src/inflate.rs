use vstd::prelude::*;

verus! {

/// Why a zlib stream could not be decoded.
#[derive(Debug, Clone, Copy, PartialEq, Eq, Structural)]
pub enum InflateError {
    Unsupported,
    Truncated,
    InvalidCode,
    InvalidLength,
    InvalidDistance,
    InvalidBackReference,
    InvalidRepeat,
    InvalidBlock,
}

/// Bit `i` of a byte stream, least significant bit of each byte first (RFC 1951 order).
pub open spec fn bit_at(data: Seq<u8>, i: int) -> u32 {
    ((data[i / 8] >> ((i % 8) as u32)) & 1u8) as u32
}

pub open spec fn pow2(n: nat) -> nat
    decreases n,
{
    if n == 0 { 1 } else { 2 * pow2((n - 1) as nat) }
}

/// The `n` bits starting at bit `start`, read as a number whose first bit is least significant.
pub open spec fn bits_value(data: Seq<u8>, start: int, n: nat) -> nat
    decreases n,
{
    if n == 0 {
        0
    } else {
        bits_value(data, start, (n - 1) as nat) + (bit_at(data, start + n - 1) as nat) * pow2(
            (n - 1) as nat,
        )
    }
}

/// Reading `n` bits at bit position `start`: the value and the position after them.
pub open spec fn read_bits(data: Seq<u8>, start: int, n: nat) -> Result<(nat, int), InflateError> {
    if start + n > 8 * data.len() {
        Err(InflateError::Truncated)
    } else {
        Ok((bits_value(data, start, n), start + n))
    }
}

proof fn lemma_bit01(x: u8, s: u32)
    ensures
        (x >> s) & 1u8 <= 1,
{
    assert((x >> s) & 1u8 <= 1) by (bit_vector);
}

proof fn lemma_pow2_mono(a: nat, b: nat)
    requires
        a <= b,
    ensures
        pow2(a) <= pow2(b),
    decreases b,
{
    if a < b {
        lemma_pow2_mono(a, (b - 1) as nat);
    }
}

proof fn lemma_mul01(b: nat, p: nat)
    requires
        b <= 1,
    ensures
        b == 0 ==> b * p == 0,
        b == 1 ==> b * p == p,
{
}

pub proof fn lemma_bits_value_bound(data: Seq<u8>, start: int, n: nat)
    ensures
        bits_value(data, start, n) < pow2(n),
    decreases n,
{
    if n > 0 {
        lemma_bits_value_bound(data, start, (n - 1) as nat);
        lemma_bit01(data[(start + n - 1) / 8], ((start + n - 1) % 8) as u32);
        let b = bit_at(data, start + n - 1);
        if b == 0 {
            assert((b as nat) * pow2((n - 1) as nat) == 0);
        } else {
            assert(b == 1);
            assert((b as nat) * pow2((n - 1) as nat) == pow2((n - 1) as nat));
        }
    }
}

/// A little-endian bit reader over a byte slice.
pub struct Bits<'a> {
    pub data: &'a [u8],
    pub pos: usize,
    pub bit: u32,
}

impl<'a> Bits<'a> {
    pub open spec fn wf(&self) -> bool {
        &&& self.bit < 8
        &&& self.pos * 8 + self.bit <= 8 * self.data@.len()
    }

    /// The absolute bit position of the reader.
    pub open spec fn at(&self) -> int {
        self.pos * 8 + self.bit
    }

    pub fn bits(&mut self, n: u32) -> (r: Result<u32, InflateError>)
        requires
            old(self).wf(),
            n <= 16,
        ensures
            final(self).wf(),
            final(self).data == old(self).data,
            match read_bits(old(self).data@, old(self).at(), n as nat) {
                Ok((v, next)) => r == Ok::<u32, InflateError>(v as u32) && final(self).at() == next,
                Err(e) => r == Err::<u32, InflateError>(e),
            },
    {
        let ghost start = self.at();
        let mut v: u32 = 0;
        let mut mult: u32 = 1;
        let mut i: u32 = 0;
        while i < n
            invariant
                self.wf(),
                self.data == old(self).data,
                start == old(self).at(),
                n <= 16,
                i <= n,
                self.at() == start + i,
                mult as nat == pow2(i as nat),
                v as nat == bits_value(self.data@, start, i as nat),
                v < mult,
                mult <= 65536,
            decreases n - i,
        {
            assert(self.data@.len() == self.data.len());
            if self.pos >= self.data.len() {
                proof {
                    assert(start + n > 8 * self.data@.len());
                }
                return Err(InflateError::Truncated);
            }
            let b: u8 = (self.data[self.pos] >> self.bit) & 1;
            proof {
                let idx = start + i;
                assert(idx / 8 == self.pos as int && idx % 8 == self.bit as int);
                assert(b as u32 == bit_at(self.data@, idx));
                lemma_bit01(self.data@[self.pos as int], self.bit);
            }
            proof {
                lemma_pow2_mono(i as nat, 15);
                assert(pow2(15) == 32768) by { reveal_with_fuel(pow2, 16); }
            }
            proof {
                assert(bits_value(self.data@, start, (i + 1) as nat) == bits_value(
                    self.data@,
                    start,
                    i as nat,
                ) + (bit_at(self.data@, start + i) as nat) * pow2(i as nat));
                lemma_mul01(bit_at(self.data@, start + i) as nat, pow2(i as nat));
            }
            if b == 1 {
                v = v + mult;
            }
            mult = mult * 2;
            self.bit = self.bit + 1;
            if self.bit == 8 {
                self.bit = 0;
                self.pos = self.pos + 1;
            }
            i = i + 1;
        }
        Ok(v)
    }

    /// Skips to the next byte boundary.
    pub fn align(&mut self)
        requires
            old(self).wf(),
        ensures
            final(self).wf(),
            final(self).data == old(self).data,
            final(self).bit == 0,
            final(self).pos == if old(self).bit != 0 { old(self).pos + 1 } else { old(self).pos as int },
    {
        assert(self.data@.len() == self.data.len());
        if self.bit != 0 {
            self.bit = 0;
            self.pos = self.pos + 1;
        }
    }
}


/// Number of symbols whose code length is `l`.
pub open spec fn len_count(lengths: Seq<u8>, l: int) -> nat
    decreases lengths.len(),
{
    if lengths.len() == 0 {
        0
    } else {
        len_count(lengths.drop_last(), l) + if lengths.last() == l { 1nat } else { 0nat }
    }
}

/// The symbols whose code length is `l`, in increasing order.
pub open spec fn syms_of_len(lengths: Seq<u8>, l: int) -> Seq<int>
    decreases lengths.len(),
{
    if lengths.len() == 0 {
        seq![]
    } else {
        syms_of_len(lengths.drop_last(), l) + if lengths.last() == l {
            seq![lengths.len() - 1]
        } else {
            seq![]
        }
    }
}

/// How many codes are shorter than `l` bits (lengths 1 to l - 1): where the codes of
/// length `l` begin in canonical order.
pub open spec fn code_base(lengths: Seq<u8>, l: int) -> nat
    decreases l,
{
    if l <= 1 {
        0
    } else {
        code_base(lengths, l - 1) + len_count(lengths, l - 1)
    }
}

/// Number of symbols whose code length lies in `lo .. hi`.
pub open spec fn count_between(lengths: Seq<u8>, lo: int, hi: int) -> nat
    decreases lengths.len(),
{
    if lengths.len() == 0 {
        0
    } else {
        count_between(lengths.drop_last(), lo, hi) + if lo <= lengths.last() < hi {
            1nat
        } else {
            0nat
        }
    }
}

pub proof fn lemma_syms_len(lengths: Seq<u8>, l: int)
    ensures
        syms_of_len(lengths, l).len() == len_count(lengths, l),
        forall|t: int|
            0 <= t < syms_of_len(lengths, l).len() ==> 0 <= #[trigger] syms_of_len(lengths, l)[t]
                < lengths.len(),
    decreases lengths.len(),
{
    if lengths.len() > 0 {
        lemma_syms_len(lengths.drop_last(), l);
    }
}

proof fn lemma_count_between_split(lengths: Seq<u8>, lo: int, l: int)
    requires
        lo <= l,
    ensures
        count_between(lengths, lo, l + 1) == count_between(lengths, lo, l) + len_count(lengths, l),
    decreases lengths.len(),
{
    if lengths.len() > 0 {
        lemma_count_between_split(lengths.drop_last(), lo, l);
    }
}

proof fn lemma_count_between_bound(lengths: Seq<u8>, lo: int, hi: int)
    ensures
        count_between(lengths, lo, hi) <= lengths.len(),
    decreases lengths.len(),
{
    if lengths.len() > 0 {
        lemma_count_between_bound(lengths.drop_last(), lo, hi);
    }
}

proof fn lemma_code_base(lengths: Seq<u8>, l: int)
    requires
        l >= 1,
    ensures
        code_base(lengths, l) == count_between(lengths, 1, l),
        code_base(lengths, l) <= lengths.len(),
    decreases l,
{
    if l > 1 {
        lemma_code_base(lengths, l - 1);
        lemma_count_between_split(lengths, 1, l - 1);
    } else {
        lemma_count_between_zero(lengths);
    }
    lemma_count_between_bound(lengths, 1, l);
}

proof fn lemma_count_between_zero(lengths: Seq<u8>)
    ensures
        count_between(lengths, 1, 1) == 0,
    decreases lengths.len(),
{
    if lengths.len() > 0 {
        lemma_count_between_zero(lengths.drop_last());
    }
}

proof fn lemma_code_base_mono(lengths: Seq<u8>, a: int, b: int)
    requires
        a <= b,
    ensures
        code_base(lengths, a) <= code_base(lengths, b),
        a >= 1 ==> code_base(lengths, a) + len_count(lengths, a) <= code_base(lengths, b) || a == b,
    decreases b - a,
{
    if a < b {
        lemma_code_base_mono(lengths, a, b - 1);
    }
}

proof fn lemma_len_count_prefix(lengths: Seq<u8>, i: int, l: int)
    requires
        0 <= i <= lengths.len(),
    ensures
        len_count(lengths.take(i), l) <= len_count(lengths, l),
    decreases lengths.len() - i,
{
    if i < lengths.len() {
        lemma_len_count_prefix(lengths, i + 1, l);
        assert(lengths.take(i + 1).drop_last() =~= lengths.take(i));
    } else {
        assert(lengths.take(i) =~= lengths);
    }
}

/// A canonical Huffman decoding table built from code lengths (as in zlib's `puff`):
/// `counts[l]` codes of each length, and the symbols sorted by (length, symbol).
pub struct Huffman {
    pub counts: Vec<u16>,
    pub symbols: Vec<u16>,
    pub lengths: Ghost<Seq<u8>>,
}

impl Huffman {
    pub open spec fn wf(&self) -> bool {
        let lengths = self.lengths@;
        &&& self.counts@.len() == 16
        &&& lengths.len() < 65536
        &&& forall|l: int| 1 <= l < 16 ==> #[trigger] self.counts@[l] == len_count(lengths, l)
        &&& self.symbols@.len() == code_base(lengths, 16)
        &&& forall|l: int, t: int|
            1 <= l < 16 && 0 <= t < len_count(lengths, l) ==> self.symbols@[code_base(lengths, l)
                + t] as int == #[trigger] syms_of_len(lengths, l)[t]
    }
}

/// Builds the decoding table for the given code lengths.
pub fn huffman(lengths: &[u8]) -> (h: Huffman)
    requires
        lengths@.len() < 65536,
        forall|i: int| 0 <= i < lengths@.len() ==> #[trigger] lengths@[i] < 16,
    ensures
        h.wf(),
        h.lengths@ == lengths@,
{
    let ghost ls = lengths@;
    let mut counts: Vec<u16> = vec![0u16; 16];
    let mut i: usize = 0;
    while i < lengths.len()
        invariant
            ls == lengths@,
            ls.len() < 65536,
            forall|k: int| 0 <= k < ls.len() ==> #[trigger] ls[k] < 16,
            i <= lengths.len(),
            counts@.len() == 16,
            forall|l: int| 0 <= l < 16 ==> #[trigger] counts@[l] == len_count(ls.take(i as int), l),
        decreases lengths.len() - i,
    {
        proof {
            assert(ls.take(i + 1).drop_last() =~= ls.take(i as int));
            assert forall|l: int| 0 <= l < 16 implies len_count(ls.take(i as int), l) <= i by {
                lemma_count_le(ls.take(i as int), l);
            }
        }
        let l = lengths[i] as usize;
        let c = counts[l];
        counts.set(l, c + 1);
        i = i + 1;
    }
    assert(ls.take(ls.len() as int) =~= ls);
    counts.set(0, 0);
    let mut offsets: Vec<u16> = vec![0u16; 16];
    let mut l: usize = 1;
    while l < 16
        invariant
            ls == lengths@,
            ls.len() < 65536,
            1 <= l <= 16,
            counts@.len() == 16,
            offsets@.len() == 16,
            counts@[0] == 0,
            forall|k: int| 1 <= k < 16 ==> #[trigger] counts@[k] == len_count(ls, k),
            forall|k: int| 1 <= k < l ==> #[trigger] offsets@[k] == code_base(ls, k),
        decreases 16 - l,
    {
        proof {
            lemma_code_base(ls, l as int);
        }
        if l == 1 {
            offsets.set(1, 0);
        } else {
            let v = offsets[l - 1] + counts[l - 1];
            offsets.set(l, v);
        }
        l = l + 1;
    }
    proof {
        lemma_code_base(ls, 16);
    }
    let total: usize = offsets[15] as usize + counts[15] as usize;
    assert(total == code_base(ls, 16));
    let mut symbols: Vec<u16> = vec![0u16; total];
    let mut sym: usize = 0;
    while sym < lengths.len()
        invariant
            ls == lengths@,
            ls.len() < 65536,
            forall|k: int| 0 <= k < ls.len() ==> #[trigger] ls[k] < 16,
            sym <= lengths.len(),
            symbols@.len() == total,
            total == code_base(ls, 16),
            total <= ls.len(),
            offsets@.len() == 16,
            counts@.len() == 16,
            forall|k: int| 1 <= k < 16 ==> #[trigger] counts@[k] == len_count(ls, k),
            forall|k: int|
                1 <= k < 16 ==> #[trigger] offsets@[k] == code_base(ls, k) + len_count(
                    ls.take(sym as int),
                    k,
                ),
            forall|k: int, t: int|
                1 <= k < 16 && 0 <= t < len_count(ls.take(sym as int), k) ==> symbols@[code_base(
                    ls,
                    k,
                ) + t] as int == #[trigger] syms_of_len(ls.take(sym as int), k)[t],
        decreases lengths.len() - sym,
    {
        let l = lengths[sym] as usize;
        let ghost tp = ls.take(sym as int);
        let ghost tk = ls.take(sym + 1);
        let ghost old_symbols = symbols@;
        proof {
            assert(tk.drop_last() =~= tp);
            lemma_syms_len(tp, l as int);
            lemma_syms_len(tk, l as int);
        }
        if l > 0 {
            let o = offsets[l];
            proof {
                lemma_len_count_prefix(ls, sym + 1, l as int);
                lemma_code_base_mono(ls, l as int, l as int + 1);
                lemma_code_base_mono(ls, l as int + 1, 16);
            }
            proof {
                assert(tk.last() == l);
                assert(len_count(tk, l as int) == len_count(tp, l as int) + 1);
                assert(syms_of_len(tk, l as int) =~= syms_of_len(tp, l as int).push(sym as int));
                assert(o == code_base(ls, l as int) + len_count(tp, l as int));
            }
            symbols.set(o as usize, sym as u16);
            offsets.set(l, o + 1);
            proof {
                assert forall|k: int, t: int|
                    1 <= k < 16 && 0 <= t < len_count(tk, k) implies symbols@[code_base(ls, k) + t]
                    as int == #[trigger] syms_of_len(tk, k)[t] by {
                    lemma_syms_len(tp, k);
                    lemma_len_count_prefix(ls, sym as int, k);
                    if k == l {
                        if t < len_count(tp, k) {
                            assert(syms_of_len(tk, k)[t] == syms_of_len(tp, k)[t]);
                            assert(old_symbols[code_base(ls, k) + t] as int == syms_of_len(tp, k)[t]);
                            assert(code_base(ls, k) + t != o);
                            assert(symbols@[code_base(ls, k) + t] == old_symbols[code_base(ls, k) + t]);
                        } else {
                            assert(code_base(ls, k) + t == o);
                            assert(symbols@[o as int] == sym as u16);
                            assert(syms_of_len(tk, k)[t] == sym);
                        }
                    } else {
                        assert(syms_of_len(tk, k) =~= syms_of_len(tp, k));
                        assert(len_count(tk, k) == len_count(tp, k));
                        if k < l {
                            lemma_code_base_mono(ls, k, l as int);
                            assert(code_base(ls, k) + t < o);
                        } else {
                            lemma_code_base_mono(ls, l as int, k);
                            assert(code_base(ls, k) + t > o);
                        }
                        assert(old_symbols[code_base(ls, k) + t] as int == syms_of_len(tp, k)[t]);
                        lemma_code_base_mono(ls, k + 1, 16);
                        assert(code_base(ls, k + 1) == code_base(ls, k) + len_count(ls, k));
                        assert(code_base(ls, k) + t < total);
                        assert(symbols@[code_base(ls, k) + t] == old_symbols[code_base(ls, k) + t]);
                    }
                }
            }
        } else {
            proof {
                assert forall|k: int, t: int|
                    1 <= k < 16 && 0 <= t < len_count(tk, k) implies symbols@[code_base(ls, k) + t]
                    as int == #[trigger] syms_of_len(tk, k)[t] by {
                    assert(syms_of_len(tk, k) == syms_of_len(tp, k));
                    assert(old_symbols[code_base(ls, k) + t] as int == syms_of_len(tp, k)[t]);
                }
            }
        }
        sym = sym + 1;
    }
    assert(ls.take(ls.len() as int) =~= ls);
    Huffman { counts, symbols, lengths: Ghost(ls) }
}

proof fn lemma_count_le(lengths: Seq<u8>, l: int)
    ensures
        len_count(lengths, l) <= lengths.len(),
    decreases lengths.len(),
{
    if lengths.len() > 0 {
        lemma_count_le(lengths.drop_last(), l);
    }
}


/// Canonical Huffman decoding (RFC 1951, 3.2.2), continuing at code length `len` with the
/// bits read so far forming `code` and the first code of this length being `first`.
pub open spec fn huff_decode_from(
    lengths: Seq<u8>,
    data: Seq<u8>,
    at: int,
    len: int,
    code: int,
    first: int,
) -> Result<(int, int), InflateError>
    decreases 16 - len,
{
    if len >= 16 || len < 1 {
        Err(InflateError::InvalidCode)
    } else if at < 0 || at >= 8 * data.len() {
        Err(InflateError::Truncated)
    } else {
        let code1 = code + bit_at(data, at);
        let count = len_count(lengths, len);
        if code1 - first < count {
            Ok((syms_of_len(lengths, len)[code1 - first], at + 1))
        } else {
            huff_decode_from(lengths, data, at + 1, len + 1, 2 * code1, 2 * (first + count))
        }
    }
}

/// Decodes one symbol at bit position `at`: the symbol and the position after its code.
pub open spec fn huff_decode(lengths: Seq<u8>, data: Seq<u8>, at: int) -> Result<
    (int, int),
    InflateError,
> {
    huff_decode_from(lengths, data, at, 1, 0, 0)
}

proof fn lemma_huff_decode_from_advances(
    lengths: Seq<u8>,
    data: Seq<u8>,
    at: int,
    len: int,
    code: int,
    first: int,
)
    requires
        first <= code,
    ensures
        huff_decode_from(lengths, data, at, len, code, first) matches Ok((s, next)) ==> at < next
            <= 8 * data.len() && 0 <= s < lengths.len(),
    decreases 16 - len,
{
    if 1 <= len < 16 && 0 <= at < 8 * data.len() {
        let code1 = code + bit_at(data, at);
        let count = len_count(lengths, len);
        if code1 - first < count {
            lemma_syms_len(lengths, len);
            lemma_bit01(data[at / 8], (at % 8) as u32);
            assert(0 <= syms_of_len(lengths, len)[code1 - first] < lengths.len());
        } else {
            lemma_huff_decode_from_advances(lengths, data, at + 1, len + 1, 2 * code1, 2 * (first + count));
        }
    }
}

pub proof fn lemma_huff_decode_advances(lengths: Seq<u8>, data: Seq<u8>, at: int)
    ensures
        huff_decode(lengths, data, at) matches Ok((s, next)) ==> at < next <= 8 * data.len() && 0
            <= s < lengths.len(),
{
    lemma_huff_decode_from_advances(lengths, data, at, 1, 0, 0);
}

proof fn lemma_bits_value_one(data: Seq<u8>, at: int)
    ensures
        bits_value(data, at, 1) == bit_at(data, at),
{
    assert(bits_value(data, at, 0) == 0);
    assert(pow2(0) == 1);
    assert(bits_value(data, at, 1) == bits_value(data, at, 0) + (bit_at(data, at + 1 - 1) as nat)
        * pow2(0));
}

impl Huffman {
    /// Reads one symbol from the bit stream.
    pub fn decode(&self, b: &mut Bits) -> (r: Result<u16, InflateError>)
        requires
            self.wf(),
            old(b).wf(),
        ensures
            final(b).wf(),
            final(b).data == old(b).data,
            match huff_decode(self.lengths@, old(b).data@, old(b).at()) {
                Ok((s, next)) => r == Ok::<u16, InflateError>(s as u16) && final(b).at() == next,
                Err(e) => r == Err::<u16, InflateError>(e),
            },
    {
        let ghost lengths = self.lengths@;
        let ghost data = b.data@;
        let ghost target = huff_decode(lengths, data, b.at());
        assert(target == huff_decode(self.lengths@, old(b).data@, old(b).at()));
        let mut code: u32 = 0;
        let mut first: u32 = 0;
        let mut index: u32 = 0;
        let mut len: usize = 1;
        assert(pow2(1) == 2) by { reveal_with_fuel(pow2, 2); }
        while len < 16
            invariant
                self.wf(),
                b.wf(),
                b.data == old(b).data,
                b.data@ == data,
                lengths == self.lengths@,
                1 <= len <= 16,
                target == huff_decode_from(lengths, data, b.at(), len as int, code as int, first as int),
                target == huff_decode(self.lengths@, old(b).data@, old(b).at()),
                index as int == code_base(lengths, len as int),
                first <= code,
                code + 2 <= pow2(len as nat),
                code % 2 == 0,
                code <= 65536,
            decreases 16 - len,
        {
            proof {
                lemma_code_base(lengths, len as int);
                lemma_pow2_mono(len as nat, 15);
                assert(pow2(15) == 32768) by { reveal_with_fuel(pow2, 16); }
            }
            let ghost at0 = b.at();
            let bit = b.bits(1);
            let bit = match bit {
                Ok(v) => v,
                Err(e) => {
                    proof {
                        assert(at0 >= 8 * data.len());
                        assert(target == Err::<(int, int), InflateError>(InflateError::Truncated));
                    }
                    return Err(e);
                },
            };
            proof {
                lemma_bits_value_one(data, at0);
                lemma_bit01(data[at0 / 8], (at0 % 8) as u32);
            }
            let ghost code0 = code;
            code = code + bit;
            let count = self.counts[len] as u32;
            if code - first < count {
                proof {
                    lemma_code_base_mono(lengths, len as int, len as int + 1);
                    lemma_code_base_mono(lengths, len as int + 1, 16);
                    lemma_syms_len(lengths, len as int);
                    let t = code - first;
                    assert(self.symbols@[code_base(lengths, len as int) + t] as int == syms_of_len(
                        lengths,
                        len as int,
                    )[t as int]);
                    assert(target == Ok::<(int, int), InflateError>((syms_of_len(lengths, len as int)[t as int], at0 + 1)));
                    assert(0 <= syms_of_len(lengths, len as int)[t as int] < lengths.len());
                }
                return Ok(self.symbols[(index + code - first) as usize]);
            }
            proof {
                lemma_code_base(lengths, len as int + 1);
                lemma_code_base(lengths, 16);
                assert(pow2(len as nat + 1) == 2 * pow2(len as nat));
            }
            index = index + count;
            first = (first + count) * 2;
            code = code * 2;
            len = len + 1;
        }
        return Err(InflateError::InvalidCode);
    }
}


/// Base match lengths for length codes 257..285.
pub open spec fn len_base(i: int) -> nat {
    seq![3nat, 4, 5, 6, 7, 8, 9, 10, 11, 13, 15, 17, 19, 23, 27, 31, 35, 43, 51, 59, 67, 83, 99, 115, 131, 163, 195, 227, 258][i]
}

/// Extra bits for length codes 257..285.
pub open spec fn len_extra(i: int) -> nat {
    seq![0nat, 0, 0, 0, 0, 0, 0, 0, 1, 1, 1, 1, 2, 2, 2, 2, 3, 3, 3, 3, 4, 4, 4, 4, 5, 5, 5, 5, 0][i]
}

/// Base distances for distance codes 0..29.
pub open spec fn dist_base(i: int) -> nat {
    seq![1nat, 2, 3, 4, 5, 7, 9, 13, 17, 25, 33, 49, 65, 97, 129, 193, 257, 385, 513, 769, 1025, 1537, 2049, 3073, 4097, 6145, 8193, 12289, 16385, 24577][i]
}

/// Extra bits for distance codes 0..29.
pub open spec fn dist_extra(i: int) -> nat {
    seq![0nat, 0, 0, 0, 1, 1, 2, 2, 3, 3, 4, 4, 5, 5, 6, 6, 7, 7, 8, 8, 9, 9, 10, 10, 11, 11, 12, 12, 13, 13][i]
}

fn len_base_exec(i: usize) -> (r: usize)
    requires
        i < 29,
    ensures
        r == len_base(i as int),
        r <= 258,
{
    let t: [usize; 29] = [3, 4, 5, 6, 7, 8, 9, 10, 11, 13, 15, 17, 19, 23, 27, 31, 35, 43, 51, 59, 67, 83, 99, 115, 131, 163, 195, 227, 258];
    assert(t@ =~= seq![3usize, 4, 5, 6, 7, 8, 9, 10, 11, 13, 15, 17, 19, 23, 27, 31, 35, 43, 51, 59, 67, 83, 99, 115, 131, 163, 195, 227, 258]);
    t[i]
}

fn len_extra_exec(i: usize) -> (r: u32)
    requires
        i < 29,
    ensures
        r == len_extra(i as int),
        r <= 5,
{
    let t: [u32; 29] = [0, 0, 0, 0, 0, 0, 0, 0, 1, 1, 1, 1, 2, 2, 2, 2, 3, 3, 3, 3, 4, 4, 4, 4, 5, 5, 5, 5, 0];
    assert(t@ =~= seq![0u32, 0, 0, 0, 0, 0, 0, 0, 1, 1, 1, 1, 2, 2, 2, 2, 3, 3, 3, 3, 4, 4, 4, 4, 5, 5, 5, 5, 0]);
    t[i]
}

fn dist_base_exec(i: usize) -> (r: usize)
    requires
        i < 30,
    ensures
        r == dist_base(i as int),
        1 <= r <= 24577,
{
    let t: [usize; 30] = [1, 2, 3, 4, 5, 7, 9, 13, 17, 25, 33, 49, 65, 97, 129, 193, 257, 385, 513, 769, 1025, 1537, 2049, 3073, 4097, 6145, 8193, 12289, 16385, 24577];
    assert(t@ =~= seq![1usize, 2, 3, 4, 5, 7, 9, 13, 17, 25, 33, 49, 65, 97, 129, 193, 257, 385, 513, 769, 1025, 1537, 2049, 3073, 4097, 6145, 8193, 12289, 16385, 24577]);
    t[i]
}

fn dist_extra_exec(i: usize) -> (r: u32)
    requires
        i < 30,
    ensures
        r == dist_extra(i as int),
        r <= 13,
{
    let t: [u32; 30] = [0, 0, 0, 0, 1, 1, 2, 2, 3, 3, 4, 4, 5, 5, 6, 6, 7, 7, 8, 8, 9, 9, 10, 10, 11, 11, 12, 12, 13, 13];
    assert(t@ =~= seq![0u32, 0, 0, 0, 1, 1, 2, 2, 3, 3, 4, 4, 5, 5, 6, 6, 7, 7, 8, 8, 9, 9, 10, 10, 11, 11, 12, 12, 13, 13]);
    t[i]
}

/// Appends `n` bytes copied from `d` bytes back, one at a time (so copies may overlap).
pub open spec fn lz_copy(out: Seq<u8>, d: int, n: nat) -> Seq<u8>
    decreases n,
{
    if n == 0 {
        out
    } else {
        lz_copy(out.push(out[out.len() - d]), d, (n - 1) as nat)
    }
}

pub proof fn lemma_read_bits_advances(data: Seq<u8>, at: int, n: nat)
    ensures
        read_bits(data, at, n) matches Ok((v, next)) ==> next == at + n && next <= 8 * data.len()
            && v < pow2(n),
{
    lemma_bits_value_bound(data, at, n);
}

/// Decodes the symbols of one compressed block, appending literals and copies to `out`,
/// until the end-of-block symbol: the position after it and the output.
#[verifier::opaque]
pub open spec fn inflate_block_spec(
    lit: Seq<u8>,
    dist: Seq<u8>,
    data: Seq<u8>,
    at: int,
    out: Seq<u8>,
) -> Result<(int, Seq<u8>), InflateError>
    decreases 8 * data.len() - at,
{
    if at < 0 || at > 8 * data.len() {
        Err(InflateError::Truncated)
    } else {
        match huff_decode(lit, data, at) {
            Err(e) => Err(e),
            Ok((sym, a1)) => {
                proof {
                    lemma_huff_decode_advances(lit, data, at);
                }
                if sym < 256 {
                    inflate_block_spec(lit, dist, data, a1, out.push(sym as u8))
                } else if sym == 256 {
                    Ok((a1, out))
                } else if sym - 257 >= 29 {
                    Err(InflateError::InvalidLength)
                } else {
                    match read_bits(data, a1, len_extra(sym - 257)) {
                        Err(e) => Err(e),
                        Ok((e1, a2)) => {
                            proof {
                                lemma_read_bits_advances(data, a1, len_extra(sym - 257));
                            }
                            match huff_decode(dist, data, a2) {
                                Err(e) => Err(e),
                                Ok((dsym, a3)) => {
                                    proof {
                                        lemma_huff_decode_advances(dist, data, a2);
                                    }
                                    if dsym >= 30 {
                                        Err(InflateError::InvalidDistance)
                                    } else {
                                        match read_bits(data, a3, dist_extra(dsym)) {
                                            Err(e) => Err(e),
                                            Ok((e2, a4)) => {
                                                proof {
                                                    lemma_read_bits_advances(data, a3, dist_extra(dsym));
                                                }
                                                let d = dist_base(dsym) + e2;
                                                if d > out.len() {
                                                    Err(InflateError::InvalidBackReference)
                                                } else {
                                                    inflate_block_spec(
                                                        lit,
                                                        dist,
                                                        data,
                                                        a4,
                                                        lz_copy(out, d as int, len_base(sym - 257) + e1),
                                                    )
                                                }
                                            },
                                        }
                                    }
                                },
                            }
                        },
                    }
                }
            },
        }
    }
}

pub proof fn lemma_inflate_block_advances(
    lit: Seq<u8>,
    dist: Seq<u8>,
    data: Seq<u8>,
    at: int,
    out: Seq<u8>,
)
    ensures
        inflate_block_spec(lit, dist, data, at, out) matches Ok((next, o)) ==> at < next <= 8
            * data.len(),
    decreases 8 * data.len() - at,
{
    reveal(inflate_block_spec);
    if 0 <= at <= 8 * data.len() {
        lemma_huff_decode_advances(lit, data, at);
        if let Ok((sym, a1)) = huff_decode(lit, data, at) {
            if sym < 256 {
                lemma_inflate_block_advances(lit, dist, data, a1, out.push(sym as u8));
            } else if sym > 256 && sym - 257 < 29 {
                lemma_read_bits_advances(data, a1, len_extra(sym - 257));
                if let Ok((e1, a2)) = read_bits(data, a1, len_extra(sym - 257)) {
                    lemma_huff_decode_advances(dist, data, a2);
                    if let Ok((dsym, a3)) = huff_decode(dist, data, a2) {
                        if dsym < 30 {
                            lemma_read_bits_advances(data, a3, dist_extra(dsym));
                            if let Ok((e2, a4)) = read_bits(data, a3, dist_extra(dsym)) {
                                let d = dist_base(dsym) + e2;
                                if d <= out.len() {
                                    lemma_inflate_block_advances(
                                        lit,
                                        dist,
                                        data,
                                        a4,
                                        lz_copy(out, d as int, len_base(sym - 257) + e1),
                                    );
                                }
                            }
                        }
                    }
                }
            }
        }
    }
}

proof fn lemma_lz_copy_len(out: Seq<u8>, d: int, n: nat)
    ensures
        lz_copy(out, d, n).len() == out.len() + n,
    decreases n,
{
    if n > 0 {
        lemma_lz_copy_len(out.push(out[out.len() - d]), d, (n - 1) as nat);
    }
}

/// Decodes one compressed block from the reader into `out`.
#[verifier::rlimit(40)]
pub fn inflate_block(b: &mut Bits, lit: &Huffman, dist: &Huffman, out: &mut Vec<u8>) -> (r: Result<
    (),
    InflateError,
>)
    requires
        old(b).wf(),
        lit.wf(),
        dist.wf(),
    ensures
        final(b).wf(),
        final(b).data == old(b).data,
        match inflate_block_spec(
            lit.lengths@,
            dist.lengths@,
            old(b).data@,
            old(b).at(),
            old(out)@,
        ) {
            Ok((next, o)) => r is Ok && final(b).at() == next && final(out)@ == o,
            Err(e) => r == Err::<(), InflateError>(e),
        },
{
    let ghost data = b.data@;
    let ghost target = inflate_block_spec(lit.lengths@, dist.lengths@, data, b.at(), out@);
    loop
        invariant
            b.wf(),
            b.data == old(b).data,
            b.data@ == data,
            lit.wf(),
            dist.wf(),
            target == inflate_block_spec(lit.lengths@, dist.lengths@, data, b.at(), out@),
            target == inflate_block_spec(
                lit.lengths@,
                dist.lengths@,
                old(b).data@,
                old(b).at(),
                old(out)@,
            ),
        decreases 8 * data.len() - b.at(),
    {
        let ghost at0 = b.at();
        let ghost out0 = out@;
        proof {
            reveal(inflate_block_spec);
            lemma_huff_decode_advances(lit.lengths@, data, at0);
        }
        let sym = match lit.decode(b) {
            Ok(s) => s as usize,
            Err(e) => {
                return Err(e);
            },
        };
        if sym < 256 {
            out.push(sym as u8);
        } else if sym == 256 {
            return Ok(());
        } else {
            let idx = sym - 257;
            if idx >= 29 {
                return Err(InflateError::InvalidLength);
            }
            let extra = len_extra_exec(idx);
            let e1 = match b.bits(extra) {
                Ok(v) => v,
                Err(e) => {
                    return Err(e);
                },
            };
            proof {
                lemma_read_bits_advances(data, b.at() - extra, extra as nat);
                assert(pow2(5) == 32) by { reveal_with_fuel(pow2, 6); }
                lemma_pow2_mono(extra as nat, 5);
            }
            let len = len_base_exec(idx) + e1 as usize;
            let ghost a2 = b.at();
            proof {
                lemma_huff_decode_advances(dist.lengths@, data, a2);
            }
            let dsym = match dist.decode(b) {
                Ok(s) => s as usize,
                Err(e) => {
                    return Err(e);
                },
            };
            if dsym >= 30 {
                return Err(InflateError::InvalidDistance);
            }
            let dextra = dist_extra_exec(dsym);
            let e2 = match b.bits(dextra) {
                Ok(v) => v,
                Err(e) => {
                    return Err(e);
                },
            };
            proof {
                lemma_read_bits_advances(data, b.at() - dextra, dextra as nat);
                assert(pow2(13) == 8192) by { reveal_with_fuel(pow2, 14); }
                lemma_pow2_mono(dextra as nat, 13);
            }
            let d = dist_base_exec(dsym) + e2 as usize;
            if d > out.len() {
                return Err(InflateError::InvalidBackReference);
            }
            let start = out.len() - d;
            let mut k: usize = 0;
            while k < len
                invariant
                    k <= len,
                    1 <= d <= out0.len(),
                    start == out0.len() - d,
                    out@.len() == out0.len() + k,
                    lz_copy(out@, d as int, (len - k) as nat) == lz_copy(out0, d as int, len as nat),
                decreases len - k,
            {
                assert(start + k < out.len());
                let byte = out[start + k];
                proof {
                    assert(out@[out@.len() - d] == byte);
                }
                out.push(byte);
                k = k + 1;
            }
        }
    }
}

/// Code lengths of the fixed literal/length code (RFC 1951, 3.2.6).
pub open spec fn fixed_lit() -> Seq<u8> {
    Seq::new(288, |i: int| if i <= 143 { 8u8 } else if i <= 255 { 9u8 } else if i <= 279 { 7u8 } else { 8u8 })
}

/// Code lengths of the fixed distance code.
pub open spec fn fixed_dist() -> Seq<u8> {
    Seq::new(30, |i: int| 5u8)
}

/// The fixed literal/length and distance tables.
pub fn fixed_tables() -> (r: (Huffman, Huffman))
    ensures
        r.0.wf(),
        r.1.wf(),
        r.0.lengths@ == fixed_lit(),
        r.1.lengths@ == fixed_dist(),
{
    let mut lit: Vec<u8> = Vec::new();
    let mut i: usize = 0;
    while i < 288
        invariant
            i <= 288,
            lit@ =~= fixed_lit().take(i as int),
        decreases 288 - i,
    {
        let l: u8 = if i <= 143 { 8 } else if i <= 255 { 9 } else if i <= 279 { 7 } else { 8 };
        lit.push(l);
        i = i + 1;
    }
    let dist: Vec<u8> = vec![5u8; 30];
    assert(lit@ =~= fixed_lit());
    assert(dist@ =~= fixed_dist());
    (huffman(lit.as_slice()), huffman(dist.as_slice()))
}


/// The order in which code-length code lengths are stored (RFC 1951, 3.2.7).
pub open spec fn cl_order(k: int) -> int {
    seq![16int, 17, 18, 0, 8, 7, 9, 6, 10, 5, 11, 4, 12, 3, 13, 2, 14, 1, 15][k]
}

fn cl_order_exec(k: usize) -> (r: usize)
    requires
        k < 19,
    ensures
        r == cl_order(k as int),
        r < 19,
{
    let t: [usize; 19] = [16, 17, 18, 0, 8, 7, 9, 6, 10, 5, 11, 4, 12, 3, 13, 2, 14, 1, 15];
    assert(t@ =~= seq![16usize, 17, 18, 0, 8, 7, 9, 6, 10, 5, 11, 4, 12, 3, 13, 2, 14, 1, 15]);
    t[k]
}

/// Reads the 3-bit code-length code lengths `k .. hclen` into `cl`.
pub open spec fn read_cl(data: Seq<u8>, at: int, k: int, hclen: int, cl: Seq<u8>) -> Result<
    (Seq<u8>, int),
    InflateError,
>
    decreases hclen - k,
{
    if k >= hclen {
        Ok((cl, at))
    } else {
        match read_bits(data, at, 3) {
            Err(e) => Err(e),
            Ok((v, a1)) => read_cl(data, a1, k + 1, hclen, cl.update(cl_order(k), v as u8)),
        }
    }
}

/// Decodes code lengths with the code-length code until at least `target` are known.
pub open spec fn read_code_lengths(
    cl: Seq<u8>,
    data: Seq<u8>,
    at: int,
    lengths: Seq<u8>,
    target: nat,
) -> Result<(Seq<u8>, int), InflateError>
    decreases 8 * data.len() - at,
{
    if lengths.len() >= target {
        Ok((lengths, at))
    } else if at < 0 || at > 8 * data.len() {
        Err(InflateError::Truncated)
    } else {
        match huff_decode(cl, data, at) {
            Err(e) => Err(e),
            Ok((sym, a1)) => {
                proof {
                    lemma_huff_decode_advances(cl, data, at);
                }
                if sym <= 15 {
                    read_code_lengths(cl, data, a1, lengths.push(sym as u8), target)
                } else if sym == 16 {
                    if lengths.len() == 0 {
                        Err(InflateError::InvalidRepeat)
                    } else {
                        match read_bits(data, a1, 2) {
                            Err(e) => Err(e),
                            Ok((r, a2)) => {
                                proof {
                                    lemma_read_bits_advances(data, a1, 2);
                                }
                                read_code_lengths(
                                    cl,
                                    data,
                                    a2,
                                    lengths + Seq::new((3 + r) as nat, |i: int| lengths.last()),
                                    target,
                                )
                            },
                        }
                    }
                } else if sym == 17 {
                    match read_bits(data, a1, 3) {
                        Err(e) => Err(e),
                        Ok((r, a2)) => {
                            proof {
                                lemma_read_bits_advances(data, a1, 3);
                            }
                            read_code_lengths(
                                cl,
                                data,
                                a2,
                                lengths + Seq::new((3 + r) as nat, |i: int| 0u8),
                                target,
                            )
                        },
                    }
                } else {
                    match read_bits(data, a1, 7) {
                        Err(e) => Err(e),
                        Ok((r, a2)) => {
                            proof {
                                lemma_read_bits_advances(data, a1, 7);
                            }
                            read_code_lengths(
                                cl,
                                data,
                                a2,
                                lengths + Seq::new((11 + r) as nat, |i: int| 0u8),
                                target,
                            )
                        },
                    }
                }
            },
        }
    }
}

/// Reads the header of a dynamic block: the literal/length and distance code lengths and
/// the position after them.
#[verifier::opaque]
pub open spec fn dynamic_tables_spec(data: Seq<u8>, at: int) -> Result<
    (Seq<u8>, Seq<u8>, int),
    InflateError,
> {
    match read_bits(data, at, 5) {
        Err(e) => Err(e),
        Ok((v1, a1)) => match read_bits(data, a1, 5) {
            Err(e) => Err(e),
            Ok((v2, a2)) => match read_bits(data, a2, 4) {
                Err(e) => Err(e),
                Ok((v3, a3)) => {
                    let hlit = v1 + 257;
                    let hdist = v2 + 1;
                    match read_cl(data, a3, 0, (v3 + 4) as int, Seq::new(19, |i: int| 0u8)) {
                        Err(e) => Err(e),
                        Ok((cl, a4)) => match read_code_lengths(cl, data, a4, seq![], (hlit + hdist) as nat) {
                            Err(e) => Err(e),
                            Ok((lengths, a5)) => Ok(
                                (lengths.take(hlit as int), lengths.subrange(hlit as int, (hlit + hdist) as int), a5),
                            ),
                        },
                    }
                },
            },
        },
    }
}

proof fn lemma_read_cl_advances(data: Seq<u8>, at: int, k: int, hclen: int, cl: Seq<u8>)
    ensures
        read_cl(data, at, k, hclen, cl) matches Ok((c, next)) ==> at <= next <= 8 * data.len() || (
        k >= hclen && next == at),
    decreases hclen - k,
{
    if k < hclen {
        lemma_read_bits_advances(data, at, 3);
        if let Ok((v, a1)) = read_bits(data, at, 3) {
            lemma_read_cl_advances(data, a1, k + 1, hclen, cl.update(cl_order(k), v as u8));
        }
    }
}

proof fn lemma_read_code_lengths_advances(
    cl: Seq<u8>,
    data: Seq<u8>,
    at: int,
    lengths: Seq<u8>,
    target: nat,
)
    ensures
        read_code_lengths(cl, data, at, lengths, target) matches Ok((ls, next)) ==> at <= next && (
        next <= 8 * data.len() || next == at) && ls.len() >= target,
    decreases 8 * data.len() - at,
{
    if lengths.len() < target && 0 <= at <= 8 * data.len() {
        lemma_huff_decode_advances(cl, data, at);
        if let Ok((sym, a1)) = huff_decode(cl, data, at) {
            if sym <= 15 {
                lemma_read_code_lengths_advances(cl, data, a1, lengths.push(sym as u8), target);
            } else if sym == 16 {
                lemma_read_bits_advances(data, a1, 2);
                if lengths.len() > 0 {
                    if let Ok((r, a2)) = read_bits(data, a1, 2) {
                        lemma_read_code_lengths_advances(
                            cl,
                            data,
                            a2,
                            lengths + Seq::new((3 + r) as nat, |i: int| lengths.last()),
                            target,
                        );
                    }
                }
            } else if sym == 17 {
                lemma_read_bits_advances(data, a1, 3);
                if let Ok((r, a2)) = read_bits(data, a1, 3) {
                    lemma_read_code_lengths_advances(
                        cl,
                        data,
                        a2,
                        lengths + Seq::new((3 + r) as nat, |i: int| 0u8),
                        target,
                    );
                }
            } else {
                lemma_read_bits_advances(data, a1, 7);
                if let Ok((r, a2)) = read_bits(data, a1, 7) {
                    lemma_read_code_lengths_advances(
                        cl,
                        data,
                        a2,
                        lengths + Seq::new((11 + r) as nat, |i: int| 0u8),
                        target,
                    );
                }
            }
        }
    }
}

pub proof fn lemma_dynamic_tables_advances(data: Seq<u8>, at: int)
    ensures
        dynamic_tables_spec(data, at) matches Ok((l, d, next)) ==> at < next <= 8 * data.len(),
{
    reveal(dynamic_tables_spec);
    lemma_read_bits_advances(data, at, 5);
    if let Ok((v1, a1)) = read_bits(data, at, 5) {
        lemma_read_bits_advances(data, a1, 5);
        if let Ok((v2, a2)) = read_bits(data, a1, 5) {
            lemma_read_bits_advances(data, a2, 4);
            if let Ok((v3, a3)) = read_bits(data, a2, 4) {
                lemma_read_cl_advances(data, a3, 0, (v3 + 4) as int, Seq::new(19, |i: int| 0u8));
                if let Ok((cl, a4)) = read_cl(data, a3, 0, (v3 + 4) as int, Seq::new(19, |i: int| 0u8)) {
                    lemma_read_code_lengths_advances(cl, data, a4, seq![], (v1 + 257 + v2 + 1) as nat);
                }
            }
        }
    }
}

fn read_cl_exec(b: &mut Bits, hclen: usize) -> (r: Result<Vec<u8>, InflateError>)
    requires
        old(b).wf(),
        hclen <= 19,
    ensures
        final(b).wf(),
        final(b).data == old(b).data,
        match read_cl(old(b).data@, old(b).at(), 0, hclen as int, Seq::new(19, |i: int| 0u8)) {
            Ok((cl, next)) => r matches Ok(v) && v@ == cl && final(b).at() == next && cl.len() == 19
                && forall|i: int| 0 <= i < 19 ==> #[trigger] cl[i] < 8,
            Err(e) => r matches Err(e2) && e2 == e,
        },
{
    let ghost data = b.data@;
    let mut cl_lengths: Vec<u8> = vec![0u8; 19];
    let ghost cl_target = read_cl(data, b.at(), 0, hclen as int, Seq::new(19, |i: int| 0u8));
    assert(cl_lengths@ =~= Seq::new(19, |i: int| 0u8));
    let mut k: usize = 0;
    while k < hclen
        invariant
            b.wf(),
            b.data == old(b).data,
            b.data@ == data,
            hclen <= 19,
            k <= hclen,
            cl_lengths@.len() == 19,
            forall|i: int| 0 <= i < 19 ==> #[trigger] cl_lengths@[i] < 8,
            cl_target == read_cl(data, b.at(), k as int, hclen as int, cl_lengths@),
            cl_target == read_cl(old(b).data@, old(b).at(), 0, hclen as int, Seq::new(19, |i: int| 0u8)),
        decreases hclen - k,
    {
        let slot = cl_order_exec(k);
        let ghost at1 = b.at();
        let v = match b.bits(3) {
            Ok(v) => v,
            Err(e) => {
                return Err(e);
            },
        };
        proof {
            lemma_bits_value_bound(data, at1, 3);
            assert(pow2(3) == 8) by { reveal_with_fuel(pow2, 4); }
        }
        cl_lengths.set(slot, v as u8);
        k = k + 1;
    }
    Ok(cl_lengths)
}

fn read_code_lengths_exec(b: &mut Bits, cl: &Huffman, target_len: usize) -> (r: Result<
    Vec<u8>,
    InflateError,
>)
    requires
        old(b).wf(),
        cl.wf(),
        target_len <= 320,
    ensures
        final(b).wf(),
        final(b).data == old(b).data,
        match read_code_lengths(cl.lengths@, old(b).data@, old(b).at(), seq![], target_len as nat) {
            Ok((ls, next)) => r matches Ok(v) && v@ == ls && final(b).at() == next && ls.len()
                < target_len + 139 && forall|i: int| 0 <= i < ls.len() ==> #[trigger] ls[i] < 16,
            Err(e) => r matches Err(e2) && e2 == e,
        },
{
    let ghost data = b.data@;
    let mut lengths: Vec<u8> = Vec::new();
    let ghost len_target = read_code_lengths(cl.lengths@, data, b.at(), seq![], target_len as nat);
    while lengths.len() < target_len
        invariant
            b.wf(),
            b.data == old(b).data,
            b.data@ == data,
            cl.wf(),
            target_len <= 320,
            lengths@.len() < target_len + 139,
            forall|i: int| 0 <= i < lengths@.len() ==> #[trigger] lengths@[i] < 16,
            len_target == read_code_lengths(cl.lengths@, data, b.at(), lengths@, target_len as nat),
            len_target == read_code_lengths(cl.lengths@, old(b).data@, old(b).at(), seq![], target_len as nat),
        decreases 8 * data.len() - b.at(),
    {
        let ghost at1 = b.at();
        proof {
            lemma_huff_decode_advances(cl.lengths@, data, at1);
        }
        let sym = match cl.decode(b) {
            Ok(s) => s,
            Err(e) => {
                return Err(e);
            },
        };
        if sym <= 15 {
            lengths.push(sym as u8);
        } else if sym == 16 {
            if lengths.len() == 0 {
                return Err(InflateError::InvalidRepeat);
            }
            let prev = lengths[lengths.len() - 1];
            let ghost a2 = b.at();
            let r = match b.bits(2) {
                Ok(v) => v,
                Err(e) => {
                    return Err(e);
                },
            };
            proof {
                lemma_read_bits_advances(data, a2, 2);
                assert(pow2(2) == 4) by { reveal_with_fuel(pow2, 3); }
            }
            let ghost before = lengths@;
            let n = 3 + r;
            let mut j: u32 = 0;
            while j < n
                invariant
                    j <= n,
                    n <= 6,
                    lengths@ =~= before + Seq::new(j as nat, |i: int| prev),
                decreases n - j,
            {
                lengths.push(prev);
                j = j + 1;
            }
            assert(prev == before.last());
        } else if sym == 17 {
            let ghost a2 = b.at();
            let r = match b.bits(3) {
                Ok(v) => v,
                Err(e) => {
                    return Err(e);
                },
            };
            proof {
                lemma_read_bits_advances(data, a2, 3);
                assert(pow2(3) == 8) by { reveal_with_fuel(pow2, 4); }
            }
            let ghost before = lengths@;
            let n = 3 + r;
            let mut j: u32 = 0;
            while j < n
                invariant
                    j <= n,
                    n <= 10,
                    lengths@ =~= before + Seq::new(j as nat, |i: int| 0u8),
                decreases n - j,
            {
                lengths.push(0);
                j = j + 1;
            }
        } else {
            let ghost a2 = b.at();
            let r = match b.bits(7) {
                Ok(v) => v,
                Err(e) => {
                    return Err(e);
                },
            };
            proof {
                lemma_read_bits_advances(data, a2, 7);
                assert(pow2(7) == 128) by { reveal_with_fuel(pow2, 8); }
            }
            let ghost before = lengths@;
            let n = 11 + r;
            let mut j: u32 = 0;
            while j < n
                invariant
                    j <= n,
                    n <= 138,
                    lengths@ =~= before + Seq::new(j as nat, |i: int| 0u8),
                decreases n - j,
            {
                lengths.push(0);
                j = j + 1;
            }
        }
    }
    Ok(lengths)
}

/// Reads the code tables of a dynamic block.
pub fn dynamic_tables(b: &mut Bits) -> (r: Result<(Huffman, Huffman), InflateError>)
    requires
        old(b).wf(),
    ensures
        final(b).wf(),
        final(b).data == old(b).data,
        match dynamic_tables_spec(old(b).data@, old(b).at()) {
            Ok((l, d, next)) => r matches Ok((lh, dh)) && lh.wf() && dh.wf() && lh.lengths@ == l
                && dh.lengths@ == d && final(b).at() == next,
            Err(e) => r matches Err(e2) && e2 == e,
        },
{
    reveal(dynamic_tables_spec);
    let ghost data = b.data@;
    let ghost at0 = b.at();
    let v1 = match b.bits(5) {
        Ok(v) => v,
        Err(e) => {
            return Err(e);
        },
    };
    let v2 = match b.bits(5) {
        Ok(v) => v,
        Err(e) => {
            return Err(e);
        },
    };
    let v3 = match b.bits(4) {
        Ok(v) => v,
        Err(e) => {
            return Err(e);
        },
    };
    proof {
        lemma_bits_value_bound(data, at0, 5);
        lemma_bits_value_bound(data, at0 + 5, 5);
        lemma_bits_value_bound(data, at0 + 10, 4);
        assert(pow2(5) == 32) by { reveal_with_fuel(pow2, 6); }
        assert(pow2(4) == 16) by { reveal_with_fuel(pow2, 5); }
    }
    let hlit = v1 as usize + 257;
    let hdist = v2 as usize + 1;
    let hclen = v3 as usize + 4;
    let cl_lengths = match read_cl_exec(b, hclen) {
        Ok(v) => v,
        Err(e) => {
            return Err(e);
        },
    };
    let cl = huffman(cl_lengths.as_slice());
    let ghost a4 = b.at();
    proof {
        lemma_read_code_lengths_advances(cl_lengths@, data, a4, seq![], (hlit + hdist) as nat);
    }
    let lengths = match read_code_lengths_exec(b, &cl, hlit + hdist) {
        Ok(v) => v,
        Err(e) => {
            return Err(e);
        },
    };
    let mut lit_lengths: Vec<u8> = Vec::new();
    let mut i: usize = 0;
    while i < hlit
        invariant
            i <= hlit,
            hlit <= lengths@.len(),
            lit_lengths@ =~= lengths@.take(i as int),
        decreases hlit - i,
    {
        lit_lengths.push(lengths[i]);
        i = i + 1;
    }
    let mut dist_lengths: Vec<u8> = Vec::new();
    let mut i: usize = hlit;
    while i < hlit + hdist
        invariant
            hlit <= 288,
            hdist <= 32,
            hlit <= i <= hlit + hdist,
            hlit + hdist <= lengths@.len(),
            dist_lengths@ =~= lengths@.subrange(hlit as int, i as int),
        decreases hlit + hdist - i,
    {
        dist_lengths.push(lengths[i]);
        i = i + 1;
    }
    Ok((huffman(lit_lengths.as_slice()), huffman(dist_lengths.as_slice())))
}

/// A stored (uncompressed) block starting at bit `at`: skip to a byte boundary, read the
/// 16-bit little-endian length, skip the complement, copy that many bytes.
pub open spec fn stored_block(data: Seq<u8>, at: int, out: Seq<u8>) -> Result<
    (int, Seq<u8>),
    InflateError,
> {
    let p = if at % 8 != 0 { at / 8 + 1 } else { at / 8 };
    if p + 4 > data.len() {
        Err(InflateError::Truncated)
    } else {
        let n = data[p] as int + 256 * data[p + 1] as int;
        let q = p + 4;
        if q + n > data.len() {
            Err(InflateError::Truncated)
        } else {
            Ok((8 * (q + n), out + data.subrange(q, q + n)))
        }
    }
}

/// One block of any type starting at bit `at` (after its 3 header bits have been read).
pub open spec fn block_body(data: Seq<u8>, btype: nat, at: int, out: Seq<u8>) -> Result<
    (int, Seq<u8>),
    InflateError,
> {
    if btype == 0 {
        stored_block(data, at, out)
    } else if btype == 1 {
        inflate_block_spec(fixed_lit(), fixed_dist(), data, at, out)
    } else if btype == 2 {
        match dynamic_tables_spec(data, at) {
            Err(e) => Err(e),
            Ok((l, d, a3)) => inflate_block_spec(l, d, data, a3, out),
        }
    } else {
        Err(InflateError::InvalidBlock)
    }
}

pub proof fn lemma_block_body_advances(data: Seq<u8>, btype: nat, at: int, out: Seq<u8>)
    requires
        0 <= at,
    ensures
        block_body(data, btype, at, out) matches Ok((next, o)) ==> at < next <= 8 * data.len(),
{
    if btype == 1 {
        lemma_inflate_block_advances(fixed_lit(), fixed_dist(), data, at, out);
    } else if btype == 2 {
        lemma_dynamic_tables_advances(data, at);
        if let Ok((l, d, a3)) = dynamic_tables_spec(data, at) {
            lemma_inflate_block_advances(l, d, data, a3, out);
        }
    }
}

/// One block with its 3-bit header: whether it is the last block, the position after it,
/// and the output with its bytes appended.
pub open spec fn block_step(data: Seq<u8>, at: int, out: Seq<u8>) -> Result<
    (nat, int, Seq<u8>),
    InflateError,
> {
    match read_bits(data, at, 1) {
        Err(e) => Err(e),
        Ok((last, a1)) => match read_bits(data, a1, 2) {
            Err(e) => Err(e),
            Ok((btype, a2)) => match block_body(data, btype, a2, out) {
                Err(e) => Err(e),
                Ok((a4, out2)) => Ok((last, a4, out2)),
            },
        },
    }
}

pub proof fn lemma_block_step_advances(data: Seq<u8>, at: int, out: Seq<u8>)
    requires
        0 <= at,
    ensures
        block_step(data, at, out) matches Ok((last, next, o)) ==> at < next <= 8 * data.len() && last
            <= 1,
{
    assert(pow2(1) == 2) by { reveal_with_fuel(pow2, 2); }
    lemma_read_bits_advances(data, at, 1);
    if let Ok((last, a1)) = read_bits(data, at, 1) {
        lemma_read_bits_advances(data, a1, 2);
        if let Ok((btype, a2)) = read_bits(data, a1, 2) {
            lemma_block_body_advances(data, btype, a2, out);
        }
    }
}

/// Decodes the blocks of a deflate stream starting at bit `at` until the final block.
pub open spec fn inflate_blocks(data: Seq<u8>, at: int, out: Seq<u8>) -> Result<
    Seq<u8>,
    InflateError,
>
    decreases 8 * data.len() - at,
{
    if at < 0 || at > 8 * data.len() {
        Err(InflateError::Truncated)
    } else {
        match block_step(data, at, out) {
            Err(e) => Err(e),
            Ok((last, a4, out2)) => {
                proof {
                    lemma_block_step_advances(data, at, out);
                }
                if last == 1 {
                    Ok(out2)
                } else {
                    inflate_blocks(data, a4, out2)
                }
            },
        }
    }
}

/// The zlib stream decoder used for PNG image data (RFC 1950/1951): the two header bytes
/// must name the deflate method; the Adler-32 trailer is not checked.
pub open spec fn inflate_spec(data: Seq<u8>) -> Result<Seq<u8>, InflateError> {
    if data.len() < 6 || data[0] & 0x0Fu8 != 8 {
        Err(InflateError::Unsupported)
    } else {
        inflate_blocks(data, 16, seq![])
    }
}

fn inflate_one_block(b: &mut Bits, out: &mut Vec<u8>) -> (r: Result<u32, InflateError>)
    requires
        old(b).wf(),
    ensures
        final(b).wf(),
        final(b).data == old(b).data,
        match block_step(old(b).data@, old(b).at(), old(out)@) {
            Ok((last, next, o)) => r == Ok::<u32, InflateError>(last as u32) && final(b).at() == next
                && final(out)@ == o,
            Err(e) => r == Err::<u32, InflateError>(e),
        },
{
    let ghost data = b.data@;
    let ghost out0 = out@;
    let last = match b.bits(1) {
        Ok(v) => v,
        Err(e) => {
            return Err(e);
        },
    };
    let btype = match b.bits(2) {
        Ok(v) => v,
        Err(e) => {
            return Err(e);
        },
    };
    proof {
        lemma_bits_value_bound(data, old(b).at(), 1);
        lemma_bits_value_bound(data, old(b).at() + 1, 2);
        assert(pow2(1) == 2) by { reveal_with_fuel(pow2, 2); }
        assert(pow2(2) == 4) by { reveal_with_fuel(pow2, 3); }
    }
    let ghost a2 = b.at();
    if btype == 0 {
        assert(a2 / 8 == b.pos && a2 % 8 == b.bit);
        b.align();
        assert(data.len() == b.data.len());
        if b.data.len() - b.pos < 4 {
            return Err(InflateError::Truncated);
        }
        let len = b.data[b.pos] as usize + 256 * (b.data[b.pos + 1] as usize);
        let start = b.pos + 4;
        if len > b.data.len() - start {
            return Err(InflateError::Truncated);
        }
        let mut k: usize = 0;
        while k < len
            invariant
                k <= len,
                start + len <= data.len(),
                b.data@ == data,
                out@ =~= out0 + data.subrange(start as int, (start + k) as int),
            decreases len - k,
        {
            assert(start + k < b.data.len());
            out.push(b.data[start + k]);
            k = k + 1;
        }
        b.pos = start + len;
    } else if btype == 1 {
        let (lit, dist) = fixed_tables();
        match inflate_block(b, &lit, &dist, out) {
            Ok(()) => {},
            Err(e) => {
                return Err(e);
            },
        }
    } else if btype == 2 {
        let (lit, dist) = match dynamic_tables(b) {
            Ok(t) => t,
            Err(e) => {
                assert(dynamic_tables_spec(data, a2) == Err::<(Seq<u8>, Seq<u8>, int), InflateError>(e));
                return Err(e);
            },
        };
        match inflate_block(b, &lit, &dist, out) {
            Ok(()) => {},
            Err(e) => {
                return Err(e);
            },
        }
    } else {
        return Err(InflateError::InvalidBlock);
    }
    Ok(last)
}

/// Decompresses a zlib stream.
pub fn inflate(data: &[u8]) -> (r: Result<Vec<u8>, InflateError>)
    ensures
        match inflate_spec(data@) {
            Ok(o) => r matches Ok(v) && v@ == o,
            Err(e) => r matches Err(e2) && e2 == e,
        },
{
    if data.len() < 6 || data[0] & 0x0F != 8 {
        return Err(InflateError::Unsupported);
    }
    let mut b = Bits { data, pos: 2, bit: 0 };
    let mut out: Vec<u8> = Vec::new();
    let ghost target = inflate_spec(data@);
    loop
        invariant
            b.wf(),
            b.data == data,
            target == inflate_blocks(data@, b.at(), out@),
            target == inflate_spec(data@),
        decreases 8 * data@.len() - b.at(),
    {
        let ghost at0 = b.at();
        let ghost out0 = out@;
        proof {
            lemma_block_step_advances(data@, b.at(), out@);
        }
        let last = match inflate_one_block(&mut b, &mut out) {
            Ok(v) => v,
            Err(e) => {
                return Err(e);
            },
        };
        if last == 1 {
            assert(inflate_blocks(data@, at0, out0) == Ok::<Seq<u8>, InflateError>(out@));
            return Ok(out);
        }
    }
}

} // verus!

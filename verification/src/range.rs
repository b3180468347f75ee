//! The range coder.
//!
//! A stream of symbols is coded as a number inside a nested sequence of
//! intervals. The decoder keeps the size of the current interval and the
//! distance of the coded number from its upper end; the encoder keeps the
//! interval itself.

use crate::fixed::{
    bit_length, ilog, lemma_div_is_ordered_by_denominator_signed, lemma_wrap32_range, wadd, wrap32,
    wsub,
};
use crate::icdf::{context_ok, ICDFContext};
use vstd::arithmetic::div_mod::*;
use vstd::arithmetic::mul::*;
use vstd::arithmetic::power2::*;
use vstd::bits::*;
use vstd::prelude::*;

pub use crate::range_encoder::RangeEncoder;

verus! {

/// Interval sizes up to this one are scaled up by a byte.
pub const MIN_RANGE_SIZE: u32 = 0x80_0000;

/// Largest symbol width that `decode_uint` codes as one symbol.
pub const EC_UINT_BITS: u32 = 8;

/// Bytes that an encoder keeps.
pub const RANGE_ENCODER_STORAGE_BYTES: usize = 1275;

// ---------------------------------------------------------------------
// Bits of a stream
// ---------------------------------------------------------------------

/// Bit `pos` of the stream, most significant bit of a byte first, and zero
/// behind the last byte.
pub open spec fn bit_at(buf: Seq<u8>, pos: int) -> int {
    if 0 <= pos && pos / 8 < buf.len() {
        (buf[pos / 8] as int / pow2((7 - pos % 8) as nat) as int) % 2
    } else {
        0
    }
}

/// The number written by the `n` bits from `pos` on.
pub open spec fn bits_value(buf: Seq<u8>, pos: int, n: nat) -> int
    decreases n,
{
    if n == 0 {
        0
    } else {
        2 * bits_value(buf, pos, (n - 1) as nat) + bit_at(buf, pos + n - 1)
    }
}

/// Where `n` bits further is; reading stops at the end of the stream.
pub open spec fn bits_end(buf: Seq<u8>, pos: int, n: nat) -> int {
    if pos >= 8 * buf.len() {
        pos
    } else if pos + n > 8 * buf.len() {
        8 * buf.len() as int
    } else {
        pos + n
    }
}

pub proof fn lemma_bits_value_bound(buf: Seq<u8>, pos: int, n: nat)
    ensures
        0 <= bits_value(buf, pos, n) < pow2(n),
    decreases n,
{
    if n == 0 {
        lemma2_to64();
    } else {
        lemma_bits_value_bound(buf, pos, (n - 1) as nat);
        lemma_pow2_unfold(n);
    }
}

// ---------------------------------------------------------------------
// Decoder model
// ---------------------------------------------------------------------

/// What a decoder knows: the stream, how far it is read, the count of bits
/// charged so far, the interval size and the distance from its upper end.
pub struct DecState {
    pub buf: Seq<u8>,
    pub pos: int,
    pub total: int,
    pub rng: int,
    pub dif: int,
}

/// One byte more of precision.
pub open spec fn dec_scale_up(s: DecState) -> DecState {
    DecState {
        buf: s.buf,
        pos: bits_end(s.buf, s.pos, 8),
        total: wrap32(s.total + 8),
        rng: s.rng * 256,
        dif: (s.dif * 256 + 255 - bits_value(s.buf, s.pos, 8)) % 0x8000_0000,
    }
}

/// As many bytes more as bring the interval size above the minimum.
pub open spec fn dec_normalized(s: DecState) -> DecState
    decreases 0x8000_0001 - s.rng,
{
    if s.rng <= 0 || s.rng > MIN_RANGE_SIZE {
        s
    } else {
        dec_normalized(dec_scale_up(s))
    }
}

/// The state once the interval is narrowed to size `rng`, with the coded
/// number `dif` below its upper end.
pub open spec fn dec_narrowed(s: DecState, rng: int, dif: int) -> DecState {
    dec_normalized(DecState { rng, dif, ..s })
}

/// The decoder before the first symbol of `buf`.
pub open spec fn dec_start(buf: Seq<u8>) -> DecState {
    dec_normalized(
        DecState {
            buf,
            pos: bits_end(buf, 0, 7),
            total: 9,
            rng: 128,
            dif: 127 - bits_value(buf, 0, 7),
        },
    )
}

/// The bit that has probability `2^-logp` of being one.
pub open spec fn dec_logp_bit(s: DecState, logp: nat) -> int {
    if s.dif >= s.rng / pow2(logp) as int {
        0
    } else {
        1
    }
}

pub open spec fn dec_logp_next(s: DecState, logp: nat) -> DecState {
    let scale = s.rng / pow2(logp) as int;
    if s.dif >= scale {
        dec_narrowed(s, s.rng - scale, s.dif - scale)
    } else {
        dec_narrowed(s, scale, s.dif)
    }
}

/// The first entry from `from` on whose share of the interval, counted from
/// the upper end, does not reach up to the coded number.
pub open spec fn icdf_first(dif: int, scale: int, icdf: Seq<int>, from: int) -> int
    decreases icdf.len() - from,
{
    if from < 0 || from >= icdf.len() || dif >= scale * icdf[from] {
        from
    } else {
        icdf_first(dif, scale, icdf, from + 1)
    }
}

/// The symbol that an inverse cumulative table of `2^ftb` counts yields.
pub open spec fn dec_icdf_symbol(s: DecState, icdf: Seq<int>, ftb: nat) -> int {
    icdf_first(s.dif, s.rng / pow2(ftb) as int, icdf, 0)
}

pub open spec fn dec_icdf_next(s: DecState, icdf: Seq<int>, ftb: nat) -> DecState {
    let scale = s.rng / pow2(ftb) as int;
    let k = icdf_first(s.dif, scale, icdf, 0);
    let upper = if k == 0 {
        s.rng
    } else {
        scale * icdf[k - 1]
    };
    dec_narrowed(s, upper - scale * icdf[k], s.dif - scale * icdf[k])
}

/// Of `total` equal shares, the one that holds the coded number.
pub open spec fn dec_share(s: DecState, total: int) -> int {
    let q = s.dif / (s.rng / total) + 1;
    total - if q < total {
        q
    } else {
        total
    }
}

/// The first entry from `from` on that is above `count`.
pub open spec fn first_above(dist: Seq<u16>, count: int, from: int) -> int
    decreases dist.len() - from,
{
    if from < 0 || from >= dist.len() || dist[from] > count {
        from
    } else {
        first_above(dist, count, from + 1)
    }
}

/// The symbol that a context yields.
pub open spec fn dec_context_symbol(s: DecState, total: int, dist: Seq<u16>) -> int {
    first_above(dist, dec_share(s, total), 0)
}

/// The state once the shares `low..high` of `total` are chosen.
pub open spec fn dec_shares_taken(s: DecState, low: int, high: int, total: int) -> DecState {
    let scale = s.rng / total;
    dec_narrowed(
        s,
        if low == 0 {
            s.rng - scale * (total - high)
        } else {
            scale * (high - low)
        },
        s.dif - scale * (total - high),
    )
}

pub open spec fn dec_context_next(s: DecState, total: int, dist: Seq<u16>) -> DecState {
    let k = dec_context_symbol(s, total, dist);
    let low = if k == 0 {
        0
    } else {
        dist[k - 1] as int
    };
    dec_shares_taken(s, low, dist[k] as int, total)
}

/// A value of `0..total`, each equally likely.
pub open spec fn dec_uniform_next(s: DecState, total: int) -> DecState {
    let k = dec_share(s, total);
    dec_shares_taken(s, k, k + 1, total)
}

/// How many low bits of a value of `0..total` are written as plain bits.
pub open spec fn uint_tail_bits(total: int) -> nat {
    let bits = bit_length((total - 1) as nat);
    if bits > EC_UINT_BITS {
        (bits - EC_UINT_BITS) as nat
    } else {
        0
    }
}

/// A value of `0..total`: a uniform high part and plain low bits. What lies above
/// the range, which no writer writes, is taken for the largest value.
pub open spec fn dec_uint_value(s: DecState, total: int) -> int {
    let shift = uint_tail_bits(total);
    let heads = (total - 1) / pow2(shift) as int + 1;
    let mid = dec_uniform_next(s, heads);
    let value = dec_share(s, heads) * pow2(shift) as int + bits_value(s.buf, mid.pos, shift);
    if value < total {
        value
    } else {
        total - 1
    }
}

pub open spec fn dec_uint_next(s: DecState, total: int) -> DecState {
    let shift = uint_tail_bits(total);
    let heads = (total - 1) / pow2(shift) as int + 1;
    let mid = dec_uniform_next(s, heads);
    DecState {
        pos: bits_end(s.buf, mid.pos, shift),
        total: wrap32(mid.total + shift),
        ..mid
    }
}

/// Number of whole bits consumed so far.
pub open spec fn dec_tell(s: DecState) -> int {
    wrap32(s.total - bit_length(s.rng as nat))
}

/// The coded number lies inside the interval.
pub open spec fn dec_inside(s: DecState) -> bool {
    0 <= s.dif < s.rng
}

/// An inverse cumulative table of `2^ftb` counts that ends with zero.
pub open spec fn icdf_ok(icdf: Seq<int>, ftb: nat) -> bool {
    &&& ftb <= 16
    &&& icdf.len() > 0
    &&& icdf.last() == 0
    &&& forall|i: int| 0 <= i < icdf.len() ==> 0 <= #[trigger] icdf[i] <= pow2(ftb)
}

pub open spec fn ints_of_u8(s: Seq<u8>) -> Seq<int> {
    Seq::new(s.len(), |i: int| s[i] as int)
}

pub open spec fn ints_of_u16(s: Seq<u16>) -> Seq<int> {
    Seq::new(s.len(), |i: int| s[i] as int)
}

/// Normalising scales the interval up, and keeps the number inside it.
pub proof fn lemma_dec_normalized(s: DecState)
    requires
        0 < s.rng,
    ensures
        dec_normalized(s).rng > MIN_RANGE_SIZE,
        s.rng <= u32::MAX ==> dec_normalized(s).rng <= u32::MAX,
        dec_normalized(s).buf == s.buf,
        dec_inside(s) ==> dec_inside(dec_normalized(s)),
        dec_inside(s) && s.rng <= 0x8000_0000 ==> dec_normalized(s).rng <= 0x8000_0000,
    decreases 0x8000_0001 - s.rng,
{
    if s.rng <= MIN_RANGE_SIZE {
        lemma_dec_normalized(dec_scale_up(s));
        lemma_bits_value_bound(s.buf, s.pos, 8);
        lemma2_to64();
        if dec_inside(s) {
            lemma_small_mod(
                (s.dif * 256 + 255 - bits_value(s.buf, s.pos, 8)) as nat,
                0x8000_0000,
            );
        }
    }
}

// ---------------------------------------------------------------------
// Decoder
// ---------------------------------------------------------------------

/// Reads symbols from a byte stream.
#[derive(Debug, Clone)]
pub struct RangeDecoder<'a> {
    pub buf: &'a [u8],
    pub bits_read: usize,
    pub total_bits: i32,
    /// Size of the current interval.
    pub range_size: u32,
    /// Distance of the coded number from the upper end of the interval, minus
    /// one.
    pub high_and_coded_difference: u32,
}

impl<'a> View for RangeDecoder<'a> {
    type V = DecState;

    open spec fn view(&self) -> DecState {
        DecState {
            buf: self.buf@,
            pos: self.bits_read as int,
            total: self.total_bits as int,
            rng: self.range_size as int,
            dif: self.high_and_coded_difference as int,
        }
    }
}

impl<'a> RangeDecoder<'a> {
    /// The decoder can take a symbol: its interval is scaled up, and the bit
    /// positions of its stream fit the machine.
    pub open spec fn wf(&self) -> bool {
        &&& self.range_size > MIN_RANGE_SIZE
        &&& self.buf@.len() <= usize::MAX / 8
    }

    /// Reads bytes until the interval is scaled up.
    pub fn normalize(&mut self)
        requires
            old(self).range_size > 0,
            old(self).buf@.len() <= usize::MAX / 8,
        ensures
            final(self)@ == dec_normalized(old(self)@),
            final(self).wf(),
            final(self)@.buf == old(self)@.buf,
    {
        proof {
            lemma_dec_normalized(self@);
        }
        while self.range_size <= MIN_RANGE_SIZE
            invariant
                self.range_size > 0,
                self.buf@.len() <= usize::MAX / 8,
                dec_normalized(self@) == dec_normalized(old(self)@),
            decreases 0x8000_0001 - self.range_size,
        {
            let ghost before = self@;
            self.range_size = self.range_size * 256;
            self.total_bits = wadd(self.total_bits, 8);
            let sym: u32 = self.get_bits(8);
            proof {
                lemma_bits_value_bound(before.buf, before.pos, 8);
                lemma2_to64();
            }
            let scaled: u64 = self.high_and_coded_difference as u64 * 256 + (255 - sym) as u64;
            self.high_and_coded_difference = (scaled % 0x8000_0000) as u32;
            assert(self@ == dec_scale_up(before));
        }
    }

    fn get_bit(&mut self) -> (bit: u32)
        requires
            old(self).buf@.len() <= usize::MAX / 8,
        ensures
            bit == bit_at(old(self)@.buf, old(self)@.pos),
            bit <= 1,
            final(self)@ == (DecState {
                pos: bits_end(old(self)@.buf, old(self)@.pos, 1),
                ..old(self)@
            }),
    {
        let index: usize = self.bits_read / 8;
        let offset: usize = self.bits_read % 8;
        if index >= self.buf.len() {
            return 0;
        }
        self.bits_read = self.bits_read + 1;
        let byte: u8 = self.buf[index];
        let shift: u8 = (7 - offset) as u8;
        proof {
            lemma_u8_shr_is_div(byte, shift);
        }
        ((byte >> shift) % 2) as u32
    }

    /// Reads `n` bits, most significant first.
    pub fn get_bits(&mut self, n: usize) -> (bits: u32)
        requires
            n <= 32,
            old(self).buf@.len() <= usize::MAX / 8,
        ensures
            bits == bits_value(old(self)@.buf, old(self)@.pos, n as nat),
            final(self)@ == (DecState {
                pos: bits_end(old(self)@.buf, old(self)@.pos, n as nat),
                ..old(self)@
            }),
    {
        let mut bits: u32 = 0;
        let ghost start = self@;
        for i in 0..n
            invariant
                n <= 32,
                self.buf@.len() <= usize::MAX / 8,
                start == old(self)@,
                self.buf@ == start.buf,
                self@ == (DecState { pos: bits_end(start.buf, start.pos, i as nat), ..start }),
                bits == bits_value(start.buf, start.pos, i as nat),
        {
            proof {
                lemma_bits_value_bound(start.buf, start.pos, i as nat);
                lemma_bits_value_bound(start.buf, start.pos, (i + 1) as nat);
                lemma_pow2_unfold((i + 1) as nat);
                lemma2_to64();
                if i < 31 {
                    lemma_pow2_strictly_increases((i + 1) as nat, 32);
                }
            }
            let bit: u32 = self.get_bit();
            bits = bits * 2 + bit;
        }
        bits
    }

    /// The decoder before the first symbol of `buf`.
    pub fn init(buf: &'a [u8]) -> (decoder: RangeDecoder<'a>)
        requires
            buf@.len() <= usize::MAX / 8,
        ensures
            decoder@ == dec_start(buf@),
            decoder.wf(),
            dec_inside(decoder@),
    {
        let mut decoder: RangeDecoder<'a> = RangeDecoder {
            buf,
            bits_read: 0,
            total_bits: 9,
            range_size: 128,
            high_and_coded_difference: 0,
        };
        let head: u32 = decoder.get_bits(7);
        proof {
            lemma_bits_value_bound(buf@, 0, 7);
            lemma2_to64();
        }
        decoder.high_and_coded_difference = 127 - head;
        proof {
            lemma_dec_normalized(decoder@);
        }
        decoder.normalize();
        decoder
    }

    /// Number of whole bits consumed so far.
    pub fn tell(&self) -> (r: i32)
        ensures
            r == dec_tell(self@),
    {
        let used: u32 = ilog(self.range_size);
        wsub(self.total_bits, used as i32)
    }

    /// Of `2^bits` equal shares, the one that holds the coded number.
    pub fn decode_bin(&self, bits: u32) -> (share: u32)
        requires
            bits <= 23,
            self.wf(),
        ensures
            share == pow2(bits as nat) - {
                let q = self@.dif / (self@.rng / pow2(bits as nat) as int) + 1;
                if q < pow2(bits as nat) {
                    q
                } else {
                    pow2(bits as nat) as int
                }
            },
    {
        proof {
            lemma_u32_shr_is_div(self.range_size, bits);
            lemma2_to64();
            lemma_pow2_pos(bits as nat);
            if bits < 23 {
                lemma_pow2_strictly_increases(bits as nat, 23);
            }
            lemma_u32_shl_is_mul(1, bits);
            lemma_div_non_zero(self.range_size as int, pow2(bits as nat) as int);
        }
        let scale: u32 = self.range_size >> bits;
        let max: u32 = 1u32 << bits;
        let s: u32 = self.high_and_coded_difference / scale;
        if s < max - 1 {
            max - (s + 1)
        } else {
            0
        }
    }

    /// Decodes a bit that has probability `2^-logp` of being one.
    pub fn decode_symbol_logp(&mut self, logp: usize) -> (bit: u32)
        requires
            logp < 32,
            logp == 0 ==> dec_inside(old(self)@),
            old(self).wf(),
        ensures
            bit == dec_logp_bit(old(self)@, logp as nat),
            final(self)@ == dec_logp_next(old(self)@, logp as nat),
            final(self).wf(),
            final(self)@.buf == old(self)@.buf,
            dec_inside(old(self)@) ==> dec_inside(final(self)@),
    {
        let shift: u32 = logp as u32;
        let ghost before = self@;
        proof {
            lemma_u32_shr_is_div(self.range_size, shift);
            lemma_pow2_pos(logp as nat);
            lemma_div_is_ordered_by_denominator_signed(self.range_size as int, pow2(logp as nat) as int);
            if logp > 0 {
                lemma_pow2_unfold(logp as nat);
                lemma_pow2_pos((logp - 1) as nat);
                lemma_div_is_strictly_smaller(self.range_size as int, pow2(logp as nat) as int);
            } else {
                lemma2_to64();
            }
        }
        let scale: u32 = self.range_size >> shift;
        let k: u32 = if self.high_and_coded_difference >= scale {
            self.high_and_coded_difference = self.high_and_coded_difference - scale;
            self.range_size = self.range_size - scale;
            0
        } else {
            self.range_size = scale;
            1
        };
        proof {
            if self.range_size > 0 {
                lemma_dec_normalized(self@);
            }
        }
        self.normalize();
        k
    }

    /// Narrows the interval to the shares `low..high` of `total`.
    pub fn update(&mut self, scale: u32, low: u32, high: u32, total: u32)
        requires
            old(self).wf(),
            0 < total <= 0x1_0000,
            low < high <= total,
            scale == old(self).range_size / total,
            old(self).high_and_coded_difference >= scale * (total - high),
        ensures
            final(self)@ == dec_shares_taken(old(self)@, low as int, high as int, total as int),
            final(self).wf(),
            final(self)@.buf == old(self)@.buf,
            dec_inside(old(self)@) && (low > 0 ==> old(self)@.dif < scale * (total - low))
                ==> dec_inside(final(self)@),
    {
        proof {
            lemma_fundamental_div_mod(self.range_size as int, total as int);
            lemma_mod_bound(self.range_size as int, total as int);
            lemma_div_non_zero(self.range_size as int, total as int);
            assert(scale * (total - high) < scale * total) by (nonlinear_arith)
                requires
                    scale > 0,
                    0 <= total - high < total,
            ;
            assert(scale * total == total * scale) by (nonlinear_arith);
            assert(0 < scale * (high - low) <= scale * total) by (nonlinear_arith)
                requires
                    scale > 0,
                    0 < high - low <= total,
            ;
            assert(scale * (total - low) == scale * (total - high) + scale * (high - low))
                by (nonlinear_arith);
        }
        let above: u32 = scale * (total - high);
        self.high_and_coded_difference = self.high_and_coded_difference - above;
        if low == 0 {
            self.range_size = self.range_size - above;
        } else {
            self.range_size = scale * (high - low);
        }
        proof {
            lemma_dec_normalized(self@);
        }
        self.normalize();
    }

    /// Decodes a symbol of a context.
    pub fn decode_symbol_with_icdf(&mut self, icdf_ctx: ICDFContext) -> (k: u32)
        requires
            old(self).wf(),
            context_ok(icdf_ctx.total as int, icdf_ctx.dist_table@),
            icdf_ctx.dist_table@.len() <= 0x1_0000,
        ensures
            k == dec_context_symbol(old(self)@, icdf_ctx.total as int, icdf_ctx.dist_table@),
            k < icdf_ctx.dist_table@.len(),
            final(self)@ == dec_context_next(
                old(self)@,
                icdf_ctx.total as int,
                icdf_ctx.dist_table@,
            ),
            final(self).wf(),
            final(self)@.buf == old(self)@.buf,
            dec_inside(old(self)@) ==> dec_inside(final(self)@),
    {
        let total: u32 = icdf_ctx.total;
        let table: &[u16] = icdf_ctx.dist_table;
        let ghost s0 = self@;
        proof {
            lemma_div_non_zero(self.range_size as int, total as int);
        }
        let scale: u32 = self.range_size / total;
        let q: u32 = self.high_and_coded_difference / scale;
        let share: u32 = if q < total - 1 {
            total - (q + 1)
        } else {
            0
        };
        assert(share == dec_share(s0, total as int));
        let mut k: usize = 0;
        while table[k] as u32 <= share
            invariant
                k < table@.len() <= 0x1_0000,
                table@.last() == total,
                share < total,
                table@ == icdf_ctx.dist_table@,
                first_above(table@, share as int, 0) == first_above(table@, share as int, k as int),
                k > 0 ==> table@[k - 1] <= share,
            decreases table@.len() - k,
        {
            k = k + 1;
        }
        let high: u32 = table[k] as u32;
        let low: u32 = if k != 0 {
            table[k - 1] as u32
        } else {
            0
        };
        proof {
            lemma_fundamental_div_mod(self.high_and_coded_difference as int, scale as int);
            lemma_mod_bound(self.high_and_coded_difference as int, scale as int);
            lemma_fundamental_div_mod(self.range_size as int, total as int);
            lemma_mod_bound(self.range_size as int, total as int);
            let d = self.high_and_coded_difference as int;
            assert(d >= scale * (total - high)) by (nonlinear_arith)
                requires
                    d == scale * q + d % (scale as int),
                    d % (scale as int) >= 0,
                    scale > 0,
                    share < high <= total,
                    share == 0 ==> q >= total - 1,
                    share > 0 ==> share == total - (q + 1),
            ;
            if low > 0 {
                assert(d < scale * (total - low)) by (nonlinear_arith)
                    requires
                        d == scale * q + d % (scale as int),
                        d % (scale as int) < scale,
                        scale > 0,
                        0 < low <= share,
                        share == total - (q + 1),
                ;
            }
        }
        self.update(scale, low, high, total);
        k as u32
    }

    /// Decodes a symbol of an 8-bit inverse cumulative table.
    pub fn decode_icdf(&mut self, icdf: &[u8], ftb: u32) -> (k: usize)
        requires
            old(self).wf(),
            dec_inside(old(self)@),
            icdf_ok(ints_of_u8(icdf@), ftb as nat),
        ensures
            k == dec_icdf_symbol(old(self)@, ints_of_u8(icdf@), ftb as nat),
            k < icdf@.len(),
            final(self)@ == dec_icdf_next(old(self)@, ints_of_u8(icdf@), ftb as nat),
            final(self).wf(),
            final(self)@.buf == old(self)@.buf,
            dec_inside(final(self)@),
    {
        let n: usize = icdf.len();
        let ghost t = ints_of_u8(icdf@);
        proof {
            lemma_icdf_scale(self@, t, ftb);
            assert(t[0] == icdf@[0]);
        }
        let d: u32 = self.high_and_coded_difference;
        let r: u32 = self.range_size >> ftb;
        let mut upper: u32 = self.range_size;
        let mut s: u32 = r * icdf[0] as u32;
        let mut index: usize = 0;
        while d < s
            invariant
                index < n,
                n == icdf@.len(),
                t == ints_of_u8(icdf@),
                t.last() == 0,
                s == r * t[index as int],
                d < upper,
                upper == if index == 0 {
                    self.range_size as int
                } else {
                    r * t[index - 1]
                },
                icdf_first(d as int, r as int, t, 0) == icdf_first(d as int, r as int, t, index as int),
                forall|i: int| 0 <= i < t.len() ==> 0 <= r * #[trigger] t[i] <= self.range_size,
            decreases icdf@.len() - index,
        {
            proof {
                if index + 1 == icdf@.len() {
                    assert(t.last() == t[index as int]);
                    assert(r * 0 == 0);
                }
                assert(0 <= r * t[index + 1] <= self.range_size);
            }
            index = index + 1;
            upper = s;
            s = r * icdf[index] as u32;
        }
        self.high_and_coded_difference = d - s;
        self.range_size = upper - s;
        proof {
            lemma_dec_normalized(self@);
        }
        self.normalize();
        index
    }

    /// Decodes a symbol of a 16-bit inverse cumulative table.
    pub fn decode_icdf16(&mut self, icdf: &[u16], ftb: u32) -> (k: usize)
        requires
            old(self).wf(),
            dec_inside(old(self)@),
            icdf_ok(ints_of_u16(icdf@), ftb as nat),
        ensures
            k == dec_icdf_symbol(old(self)@, ints_of_u16(icdf@), ftb as nat),
            k < icdf@.len(),
            final(self)@ == dec_icdf_next(old(self)@, ints_of_u16(icdf@), ftb as nat),
            final(self).wf(),
            final(self)@.buf == old(self)@.buf,
            dec_inside(final(self)@),
    {
        let n: usize = icdf.len();
        let ghost t = ints_of_u16(icdf@);
        proof {
            lemma_icdf_scale(self@, t, ftb);
            assert(t[0] == icdf@[0]);
        }
        let d: u32 = self.high_and_coded_difference;
        let r: u32 = self.range_size >> ftb;
        let mut upper: u32 = self.range_size;
        let mut s: u32 = r * icdf[0] as u32;
        let mut index: usize = 0;
        while d < s
            invariant
                index < n,
                n == icdf@.len(),
                t == ints_of_u16(icdf@),
                t.last() == 0,
                s == r * t[index as int],
                d < upper,
                upper == if index == 0 {
                    self.range_size as int
                } else {
                    r * t[index - 1]
                },
                icdf_first(d as int, r as int, t, 0) == icdf_first(d as int, r as int, t, index as int),
                forall|i: int| 0 <= i < t.len() ==> 0 <= r * #[trigger] t[i] <= self.range_size,
            decreases icdf@.len() - index,
        {
            proof {
                if index + 1 == icdf@.len() {
                    assert(t.last() == t[index as int]);
                    assert(r * 0 == 0);
                }
                assert(0 <= r * t[index + 1] <= self.range_size);
            }
            index = index + 1;
            upper = s;
            s = r * icdf[index] as u32;
        }
        self.high_and_coded_difference = d - s;
        self.range_size = upper - s;
        proof {
            lemma_dec_normalized(self@);
        }
        self.normalize();
        index
    }

    fn decode_uniform(&mut self, total: u32) -> (share: u32)
        requires
            old(self).wf(),
            0 < total <= 0x1_0000,
        ensures
            share == dec_share(old(self)@, total as int),
            share < total,
            final(self)@ == dec_uniform_next(old(self)@, total as int),
            final(self).wf(),
            final(self)@.buf == old(self)@.buf,
            dec_inside(old(self)@) ==> dec_inside(final(self)@),
    {
        proof {
            lemma_div_non_zero(self.range_size as int, total as int);
        }
        let scale: u32 = self.range_size / total;
        let q: u32 = self.high_and_coded_difference / scale;
        let share: u32 = if q < total - 1 {
            total - (q + 1)
        } else {
            0
        };
        proof {
            lemma_fundamental_div_mod(self.high_and_coded_difference as int, scale as int);
            lemma_mod_bound(self.high_and_coded_difference as int, scale as int);
            let d = self.high_and_coded_difference as int;
            assert(d >= scale * (total - (share + 1))) by (nonlinear_arith)
                requires
                    d == scale * q + d % (scale as int),
                    d % (scale as int) >= 0,
                    scale > 0,
                    share == 0 ==> q >= total - 1,
                    share > 0 ==> share == total - (q + 1),
            ;
            if share > 0 {
                assert(d < scale * (total - share)) by (nonlinear_arith)
                    requires
                        d == scale * q + d % (scale as int),
                        d % (scale as int) < scale,
                        scale > 0,
                        share == total - (q + 1),
                ;
            }
        }
        self.update(scale, share, share + 1, total);
        share
    }

    /// Decodes a value of `0..total`, each equally likely. Wide values carry
    /// their low bits as plain bits; what a damaged stream puts above the range
    /// is taken for the largest value.
    pub fn decode_uint(&mut self, total: u32) -> (value: u32)
        requires
            old(self).wf(),
            total > 1,
        ensures
            value == dec_uint_value(old(self)@, total as int),
            value < total,
            final(self)@ == dec_uint_next(old(self)@, total as int),
            final(self).wf(),
            final(self)@.buf == old(self)@.buf,
            dec_inside(old(self)@) ==> dec_inside(final(self)@),
    {
        let bits: u32 = ilog(total - 1);
        proof {
            lemma_bit_length_bound((total - 1) as nat);
            lemma2_to64();
        }
        if bits > EC_UINT_BITS {
            let shift: u32 = bits - EC_UINT_BITS;
            proof {
                lemma_u32_shr_is_div((total - 1) as u32, shift);
                lemma_pow2_pos(shift as nat);
                lemma_pow2_adds(shift as nat, 8);
                lemma_div_by_multiple(256, pow2(shift as nat) as int);
                assert((total - 1) / (pow2(shift as nat) as int) < 256) by {
                    lemma_multiply_divide_lt(
                        (total - 1) as int,
                        pow2(shift as nat) as int,
                        256,
                    );
                }
                lemma_div_pos_is_pos((total - 1) as int, pow2(shift as nat) as int);
            }
            let symbols: u32 = ((total - 1) >> shift) + 1;
            let symbol: u32 = self.decode_uniform(symbols);
            let ghost mid = self@;
            let tail: u32 = self.get_bits(shift as usize);
            self.total_bits = wadd(self.total_bits, shift as i32);
            proof {
                lemma_bits_value_bound(mid.buf, mid.pos, shift as nat);
                lemma_pow2_strictly_increases(shift as nat, 25);
                lemma_u32_shl_is_mul(1, shift);
                assert(symbol * pow2(shift as nat) <= 255 * pow2(shift as nat)) by (nonlinear_arith)
                    requires
                        symbol <= 255,
                        pow2(shift as nat) >= 0,
                ;
            }
            let value: u32 = symbol * (1u32 << shift) + tail;
            if value < total {
                value
            } else {
                total - 1
            }
        } else {
            proof {
                assert(pow2(bits as nat) <= 256) by {
                    if bits < 8 {
                        lemma_pow2_strictly_increases(bits as nat, 8);
                    }
                }
                assert((total - 1) / 1 + 1 == total as int);
                assert(dec_share(self@, total as int) * 1 == dec_share(self@, total as int));
            }
            let ghost s0 = self@;
            let value: u32 = self.decode_uniform(total);
            proof {
                let mid = dec_uniform_next(s0, total as int);
                assert(bits_end(s0.buf, mid.pos, 0) == mid.pos);
                lemma_wrap32_range(mid.total);
                assert(wrap32(mid.total + 0) == mid.total);
                assert(dec_uint_next(s0, total as int) == mid);
            }
            value
        }
    }
}

pub proof fn lemma_bit_length_bound(v: nat)
    ensures
        v < pow2(bit_length(v)),
        v > 0 ==> pow2((bit_length(v) - 1) as nat) <= v,
    decreases v,
{
    lemma2_to64();
    if v > 0 {
        lemma_bit_length_bound(v / 2);
        lemma_pow2_unfold(bit_length(v));
        if v / 2 > 0 {
            lemma_pow2_unfold((bit_length(v) - 1) as nat);
        }
    }
}

proof fn lemma_icdf_scale(s: DecState, t: Seq<int>, ftb: u32)
    requires
        icdf_ok(t, ftb as nat),
        0 < s.rng <= u32::MAX,
    ensures
        ((s.rng as u32) >> ftb) == s.rng / pow2(ftb as nat) as int,
        forall|i: int|
            0 <= i < t.len() ==> 0 <= (s.rng / pow2(ftb as nat) as int) * #[trigger] t[i] <= s.rng,
{
    let p = pow2(ftb as nat) as int;
    let r = s.rng / p;
    lemma_pow2_pos(ftb as nat);
    lemma_u32_shr_is_div(s.rng as u32, ftb);
    lemma_fundamental_div_mod(s.rng, p);
    lemma_mod_bound(s.rng, p);
    lemma_div_pos_is_pos(s.rng, p);
    assert forall|i: int| 0 <= i < t.len() implies 0 <= r * #[trigger] t[i] <= s.rng by {
        assert(0 <= r * t[i] <= s.rng) by (nonlinear_arith)
            requires
                0 <= t[i] <= p,
                r >= 0,
                s.rng == p * r + s.rng % p,
                s.rng % p >= 0,
        ;
    }
}

} // verus!

//! The encoding half of the range coder.
//!
//! The encoder narrows an interval of the numbers below `2^(31 + 8n)`, where
//! `n` counts the bytes by which the precision has grown. Carries into bytes
//! that are already determined are settled lazily: the last byte that is not
//! `0xff` and a count of `0xff` bytes behind it are held back.

use crate::fixed::{bit_length, ilog};
use crate::icdf::{context_ok, ICDFContext};
use crate::range::{
    icdf_ok, ints_of_u16, ints_of_u8, lemma_bit_length_bound, MIN_RANGE_SIZE,
    RANGE_ENCODER_STORAGE_BYTES,
};
use vstd::arithmetic::div_mod::*;
use vstd::arithmetic::mul::*;
use vstd::arithmetic::power2::*;
use vstd::bits::*;
use vstd::prelude::*;

verus! {

/// Bytes of precision that an encoder may grow by.
pub const MAX_ENCODER_STEPS: usize = 0x0800_0000;

/// The interval `low..low + rng` of the numbers below `2^(31 + 8n)`.
pub struct EncState {
    pub low: int,
    pub rng: int,
    pub n: nat,
}

/// Number of whole bits written so far.
pub open spec fn enc_tell(s: EncState) -> int {
    33 + 8 * s.n - bit_length(s.rng as nat)
}

pub open spec fn enc_start() -> EncState {
    EncState { low: 0, rng: 0x8000_0000, n: 0 }
}

/// As many bytes more of precision as bring the interval above the minimum.
pub open spec fn enc_scaled(s: EncState) -> EncState
    decreases 0x8000_0001 - s.rng,
{
    if s.rng <= 0 || s.rng > MIN_RANGE_SIZE {
        s
    } else {
        enc_scaled(EncState { low: s.low * 256, rng: s.rng * 256, n: s.n + 1 })
    }
}

/// The lower part of the interval, without the top `to` units of `scale`.
pub open spec fn enc_lower(s: EncState, scale: int, to: int) -> EncState {
    enc_scaled(EncState { low: s.low, rng: s.rng - scale * to, n: s.n })
}

/// The part of the interval from `from` down to `to` units of `scale` below
/// its upper end.
pub open spec fn enc_upper(s: EncState, scale: int, from: int, to: int) -> EncState {
    enc_scaled(
        EncState { low: s.low + s.rng - scale * from, rng: scale * (from - to), n: s.n },
    )
}

/// Symbol `k` of an inverse cumulative table of `2^ftb` counts.
pub open spec fn enc_icdf_next(s: EncState, icdf: Seq<int>, ftb: nat, k: int) -> EncState {
    let scale = s.rng / pow2(ftb) as int;
    if k > 0 {
        enc_upper(s, scale, icdf[k - 1], icdf[k])
    } else {
        enc_lower(s, scale, icdf[k])
    }
}

/// The shares `low..high` of `total`.
pub open spec fn enc_shares_next(s: EncState, low: int, high: int, total: int) -> EncState {
    let scale = s.rng / total;
    if low > 0 {
        enc_upper(s, scale, total - low, total - high)
    } else {
        enc_lower(s, scale, total - high)
    }
}

/// Symbol `k` of a context.
pub open spec fn enc_context_next(s: EncState, total: int, dist: Seq<u16>, k: int) -> EncState {
    let low = if k > 0 {
        dist[k - 1] as int
    } else {
        0
    };
    enc_shares_next(s, low, dist[k] as int, total)
}

/// A bit that has probability `2^-logp` of being one.
pub open spec fn enc_logp_next(s: EncState, logp: nat, bit: bool) -> EncState {
    let scale = s.rng / pow2(logp) as int;
    if bit {
        enc_upper(s, scale, 1, 0)
    } else {
        enc_lower(s, scale, 1)
    }
}

/// `value` written into the top `nbits` of the interval's numbers.
pub open spec fn enc_patched(s: EncState, value: int, nbits: nat) -> EncState {
    EncState { low: s.low + value * pow2((31 + 8 * s.n - nbits) as nat) as int, ..s }
}

/// The smallest multiple of `unit` that is not below `v`.
pub open spec fn round_up(v: int, unit: int) -> int {
    ((v + unit - 1) / unit) * unit
}

/// How many leading bits, behind the first `n` bytes, settle the interval:
/// whatever bits follow them.
pub open spec fn enc_final_bits(s: EncState) -> nat {
    let bits = (32 - bit_length(s.rng as nat)) as nat;
    let unit = pow2((31 - bits) as nat) as int;
    if round_up(s.low, unit) + unit - 1 < s.low + s.rng {
        bits
    } else {
        bits + 1
    }
}

/// The number of the interval that the stream writes.
pub open spec fn enc_final_value(s: EncState) -> int {
    round_up(s.low, pow2((31 - enc_final_bits(s)) as nat) as int)
}

/// Bytes behind the first `n`.
pub open spec fn enc_tail_bytes(s: EncState) -> nat {
    ((enc_final_bits(s) + 7) / 8) as nat
}

/// The number written by bytes, most significant byte first.
pub open spec fn bytes_value(s: Seq<u8>) -> int
    decreases s.len(),
{
    if s.len() == 0 {
        0
    } else {
        bytes_value(s.drop_last()) * 256 + s.last()
    }
}

/// The last `len` base-256 digits of `v`.
pub open spec fn value_bytes(v: int, len: nat) -> Seq<u8>
    decreases len,
{
    if len == 0 {
        seq![]
    } else {
        value_bytes(v / 256, (len - 1) as nat).push((v % 256) as u8)
    }
}

/// The stream that ends in the interval.
pub open spec fn enc_stream(s: EncState) -> Seq<u8> {
    value_bytes(
        enc_final_value(s) * pow2(8 * enc_tail_bytes(s)) as int / 0x8000_0000,
        s.n + enc_tail_bytes(s),
    )
}

/// At most the first `cap` bytes.
pub open spec fn first_bytes(s: Seq<u8>, cap: nat) -> Seq<u8> {
    if s.len() <= cap {
        s
    } else {
        s.take(cap as int)
    }
}

// ---------------------------------------------------------------------
// Lemmas on byte strings
// ---------------------------------------------------------------------

pub open spec fn same_bytes(b: u8, count: nat) -> Seq<u8> {
    Seq::new(count, |i: int| b)
}

pub proof fn lemma_bytes_value_push(s: Seq<u8>, b: u8)
    ensures
        bytes_value(s.push(b)) == bytes_value(s) * 256 + b,
{
    assert(s.push(b).drop_last() =~= s);
}

pub proof fn lemma_bytes_value_bound(s: Seq<u8>)
    ensures
        0 <= bytes_value(s) < pow2(8 * s.len()),
    decreases s.len(),
{
    lemma2_to64();
    if s.len() > 0 {
        lemma_bytes_value_bound(s.drop_last());
        lemma_pow2_adds(8 * (s.len() - 1) as nat, 8);
    }
}

pub proof fn lemma_value_bytes_inverse(s: Seq<u8>)
    ensures
        value_bytes(bytes_value(s), s.len()) =~= s,
    decreases s.len(),
{
    if s.len() > 0 {
        let v = bytes_value(s);
        lemma_value_bytes_inverse(s.drop_last());
        lemma_fundamental_div_mod_converse(v, 256, bytes_value(s.drop_last()), s.last() as int);
        assert(s =~= s.drop_last().push(s.last()));
    }
}

pub proof fn lemma_value_bytes_value(v: int, len: nat)
    requires
        0 <= v < pow2(8 * len),
    ensures
        bytes_value(value_bytes(v, len)) == v,
        value_bytes(v, len).len() == len,
    decreases len,
{
    lemma2_to64();
    if len > 0 {
        lemma_pow2_adds((8 * (len - 1)) as nat, 8);
        lemma_value_bytes_value(v / 256, (len - 1) as nat);
        lemma_bytes_value_push(value_bytes(v / 256, (len - 1) as nat), (v % 256) as u8);
    }
}

/// A carry turns `b ff..ff` into `b+1 00..00`.
proof fn lemma_carry(head: Seq<u8>, b: u8, count: nat)
    requires
        b < 255,
    ensures
        bytes_value(head.push((b + 1) as u8) + same_bytes(0, count)) == bytes_value(
            head.push(b) + same_bytes(0xff, count),
        ) + 1,
    decreases count,
{
    let x = head.push((b + 1) as u8) + same_bytes(0, count);
    let y = head.push(b) + same_bytes(0xff, count);
    if count == 0 {
        assert(x =~= head.push((b + 1) as u8));
        assert(y =~= head.push(b));
        lemma_bytes_value_push(head, b);
        lemma_bytes_value_push(head, (b + 1) as u8);
    } else {
        lemma_carry(head, b, (count - 1) as nat);
        let c1 = (count - 1) as nat;
        assert(x =~= (head.push((b + 1) as u8) + same_bytes(0, c1)).push(0));
        assert(y =~= (head.push(b) + same_bytes(0xff, c1)).push(0xff));
        lemma_bytes_value_push(head.push((b + 1) as u8) + same_bytes(0, c1), 0);
        lemma_bytes_value_push(head.push(b) + same_bytes(0xff, c1), 0xff);
    }
}

/// The first byte's part of the number.
proof fn lemma_first_byte(s: Seq<u8>, t: Seq<u8>)
    requires
        s.len() > 0,
        t.len() == s.len(),
        forall|i: int| 1 <= i < s.len() ==> s[i] == t[i],
    ensures
        bytes_value(t) - bytes_value(s) == (t[0] - s[0]) * pow2((8 * (s.len() - 1)) as nat),
        bytes_value(s) >= s[0] * pow2((8 * (s.len() - 1)) as nat),
    decreases s.len(),
{
    lemma2_to64();
    reveal_with_fuel(bytes_value, 2);
    if s.len() == 1 {
        assert(s.drop_last() =~= seq![]);
        assert(t.drop_last() =~= seq![]);
        lemma_mul_basics(t[0] - s[0]);
        lemma_mul_basics(s[0] as int);
        assert(8 * (s.len() - 1) == 0);
    } else {
        lemma_first_byte(s.drop_last(), t.drop_last());
        let p = pow2((8 * (s.len() - 2)) as nat) as int;
        lemma_pow2_adds((8 * (s.len() - 2)) as nat, 8);
        assert(pow2((8 * (s.len() - 1)) as nat) == p * 256);
        assert(s.drop_last()[0] == s[0] && t.drop_last()[0] == t[0]);
        assert((t[0] - s[0]) * p * 256 == (t[0] - s[0]) * (p * 256)) by (nonlinear_arith);
        assert(s[0] * p * 256 == s[0] * (p * 256)) by (nonlinear_arith);
    }
}

/// A byte followed by `0xff` bytes.
proof fn lemma_byte_then_full(b: u8, count: nat)
    ensures
        bytes_value(seq![b] + same_bytes(0xff, count)) == (b + 1) * pow2(8 * count) - 1,
    decreases count,
{
    lemma2_to64();
    reveal_with_fuel(bytes_value, 2);
    let y = seq![b] + same_bytes(0xff, count);
    if count == 0 {
        assert(y =~= seq![b]);
        lemma_mul_basics(b + 1);
        assert(8 * count == 0);
        assert(seq![b].drop_last() =~= seq![]);
    } else {
        lemma_byte_then_full(b, (count - 1) as nat);
        assert(y =~= (seq![b] + same_bytes(0xff, (count - 1) as nat)).push(0xff));
        lemma_bytes_value_push(seq![b] + same_bytes(0xff, (count - 1) as nat), 0xff);
        lemma_pow2_adds((8 * (count - 1)) as nat, 8);
        let p = pow2((8 * (count - 1)) as nat) as int;
        assert(pow2(8 * count) == p * 256);
        assert((b + 1) * p * 256 == (b + 1) * (p * 256)) by (nonlinear_arith);
    }
}

proof fn lemma_all_full(count: nat)
    ensures
        bytes_value(same_bytes(0xff, count)) == pow2(8 * count) - 1,
{
    lemma2_to64();
    if count > 0 {
        lemma_byte_then_full(0xff, (count - 1) as nat);
        lemma_pow2_adds((8 * (count - 1)) as nat, 8);
        assert(same_bytes(0xff, count) =~= seq![0xffu8] + same_bytes(0xff, (count - 1) as nat));
    } else {
        assert(same_bytes(0xff, count) =~= seq![]);
    }
}

/// Scaling an interval keeps it scaled, and takes at most three bytes.
pub proof fn lemma_enc_scaled(s: EncState)
    requires
        0 < s.rng <= 0x8000_0000,
    ensures
        MIN_RANGE_SIZE < enc_scaled(s).rng <= 0x8000_0000,
        enc_scaled(s).n >= s.n,
        enc_scaled(s).n <= s.n + 3,
{
    reveal_with_fuel(enc_scaled, 5);
}

// ---------------------------------------------------------------------
// Encoder
// ---------------------------------------------------------------------

/// Writes symbols into a byte stream.
#[derive(Debug)]
pub struct RangeEncoder {
    buf: Vec<u8>,
    storage: usize,
    /// The byte held back, or -1 before the first.
    rem: i32,
    /// Number of `0xff` bytes held back behind it.
    ext: usize,
    val: u32,
    rng: u32,
}

impl View for RangeEncoder {
    type V = EncState;

    closed spec fn view(&self) -> EncState {
        EncState {
            low: bytes_value(self.digits()) * 0x8000_0000 + self.val,
            rng: self.rng as int,
            n: self.digits().len(),
        }
    }
}

impl RangeEncoder {
    /// The bytes determined so far, but for a carry.
    closed spec fn digits(&self) -> Seq<u8> {
        if self.rem >= 0 {
            self.buf@.push(self.rem as u8) + same_bytes(0xff, self.ext as nat)
        } else {
            same_bytes(0xff, self.ext as nat)
        }
    }

    closed spec fn carry_wf(&self) -> bool {
        &&& -1 <= self.rem <= 255
        &&& self.rem < 0 ==> self.buf@.len() == 0
        &&& self.digits().len() <= MAX_ENCODER_STEPS + 8
    }

    /// No carry can enter a byte that cannot take one.
    closed spec fn interval_wf(&self) -> bool {
        &&& self.carry_wf()
        &&& 0 < self.rng <= 0x8000_0000
        &&& self.val + self.rng < 0x1_0000_0000
        &&& (self.rem < 0 || self.rem == 255) ==> self.val + self.rng <= 0x8000_0000
    }

    /// The encoder can take a symbol.
    pub closed spec fn wf(&self) -> bool {
        &&& self.interval_wf()
        &&& self.rng > MIN_RANGE_SIZE
        &&& self.digits().len() <= MAX_ENCODER_STEPS
    }

    /// There is room for `k` symbols more.
    pub open spec fn room(&self, k: int) -> bool {
        self@.n + 3 * k <= MAX_ENCODER_STEPS
    }

    /// How many bytes `finish` may return.
    pub closed spec fn capacity(&self) -> nat {
        self.storage as nat
    }

    /// An encoder of the largest packet payload.
    pub fn new() -> (r: RangeEncoder)
        ensures
            r.wf(),
            r@ == enc_start(),
            r.capacity() == RANGE_ENCODER_STORAGE_BYTES,
    {
        RangeEncoder::with_capacity(RANGE_ENCODER_STORAGE_BYTES)
    }

    /// An encoder that returns at most `capacity` bytes.
    pub fn with_capacity(capacity: usize) -> (r: RangeEncoder)
        ensures
            r.wf(),
            r@ == enc_start(),
            r.capacity() == capacity,
    {
        let r: RangeEncoder = RangeEncoder {
            buf: Vec::new(),
            storage: capacity,
            rem: -1,
            ext: 0,
            val: 0,
            rng: 0x8000_0000,
        };
        assert(r.digits() =~= seq![]);
        r
    }

    fn push_same(&mut self, b: u8)
        ensures
            final(self).buf@ == old(self).buf@ + same_bytes(b, old(self).ext as nat),
            final(self).ext == 0,
            final(self).rem == old(self).rem,
            final(self).val == old(self).val,
            final(self).rng == old(self).rng,
            final(self).storage == old(self).storage,
    {
        let count: usize = self.ext;
        assert(self.buf@ + same_bytes(b, 0) =~= self.buf@);
        while self.ext > 0
            invariant
                count == old(self).ext,
                self.ext <= count,
                self.buf@ == old(self).buf@ + same_bytes(b, (count - self.ext) as nat),
                self.rem == old(self).rem,
                self.val == old(self).val,
                self.rng == old(self).rng,
                self.storage == old(self).storage,
            decreases self.ext,
        {
            self.buf.push(b);
            self.ext = self.ext - 1;
            assert(self.buf@ =~= old(self).buf@ + same_bytes(b, (count - self.ext) as nat));
        }
    }

    /// Takes one more byte, `c % 256`, with a carry of `c / 256` into the
    /// bytes before it.
    fn carry_out(&mut self, c: u32)
        requires
            old(self).carry_wf(),
            old(self).digits().len() < MAX_ENCODER_STEPS + 8,
            c <= 511,
            old(self).rem < 0 || old(self).rem == 255 ==> c <= 255,
        ensures
            final(self).carry_wf(),
            bytes_value(final(self).digits()) == bytes_value(old(self).digits()) * 256 + c,
            final(self).digits().len() == old(self).digits().len() + 1,
            final(self).val == old(self).val,
            final(self).rng == old(self).rng,
            final(self).storage == old(self).storage,
            c != 255 ==> final(self).rem == c % 256,
            c == 255 ==> final(self).rem == old(self).rem,
    {
        let ghost d = self.digits();
        let ghost head = self.buf@;
        let ghost count = self.ext as nat;
        if c != 255 {
            let carry: u32 = c / 256;
            if self.rem >= 0 {
                self.buf.push((self.rem as u32 + carry) as u8);
            }
            let sym: u8 = if carry == 0 {
                0xff
            } else {
                0
            };
            self.push_same(sym);
            proof {
                if carry == 0 {
                    assert(self.buf@ =~= d);
                } else {
                    lemma_carry(head, self.rem as u8, count);
                }
                assert(bytes_value(self.buf@) == bytes_value(d) + carry);
            }
            self.rem = (c % 256) as i32;
            proof {
                assert(self.digits() =~= self.buf@.push((c % 256) as u8));
                lemma_bytes_value_push(self.buf@, (c % 256) as u8);
            }
        } else {
            self.ext = self.ext + 1;
            proof {
                assert(self.digits() =~= d.push(0xff));
                lemma_bytes_value_push(d, 0xff);
            }
        }
    }

    fn normalize(&mut self)
        requires
            old(self).interval_wf(),
            old(self).digits().len() + 3 <= MAX_ENCODER_STEPS,
        ensures
            final(self).wf(),
            final(self)@ == enc_scaled(old(self)@),
            final(self).storage == old(self).storage,
    {
        proof {
            lemma_enc_scaled(self@);
        }
        while self.rng <= MIN_RANGE_SIZE
            invariant
                self.interval_wf(),
                enc_scaled(self@) == enc_scaled(old(self)@),
                enc_scaled(self@).n <= old(self)@.n + 3,
                old(self)@.n + 3 <= MAX_ENCODER_STEPS,
                self.storage == old(self).storage,
            decreases 0x8000_0001 - self.rng,
        {
            let ghost before = self@;
            let ghost d = self.digits();
            proof {
                lemma_enc_scaled(EncState { low: before.low * 256, rng: before.rng * 256, n: before.n + 1 });
            }
            let c: u32 = self.val / 0x80_0000;
            let rest: u32 = self.val % 0x80_0000;
            self.carry_out(c);
            self.val = rest * 256;
            self.rng = self.rng * 256;
            proof {
                assert(self@ == (EncState { low: before.low * 256, rng: before.rng * 256, n: before.n + 1 }));
            }
        }
    }

    fn narrow(&mut self, skip: u32, rng: u32)
        requires
            old(self).wf(),
            old(self).room(1),
            rng > 0,
            skip + rng <= old(self)@.rng,
        ensures
            final(self).wf(),
            final(self)@ == enc_scaled(
                EncState { low: old(self)@.low + skip, rng: rng as int, n: old(self)@.n },
            ),
            final(self)@.n <= old(self)@.n + 3,
            final(self).capacity() == old(self).capacity(),
    {
        let ghost before = self@;
        self.val = self.val + skip;
        self.rng = rng;
        proof {
            assert(self.digits() =~= old(self).digits());
            lemma_enc_scaled(self@);
        }
        self.normalize();
    }

    /// Number of whole bits written so far.
    pub fn tell(&self) -> (r: i32)
        requires
            self.wf(),
        ensures
            r == enc_tell(self@),
            0 < r <= 0x4000_0021,
    {
        let mut steps: usize = self.buf.len() + self.ext;
        if self.rem >= 0 {
            steps = steps + 1;
        }
        let used: u32 = ilog(self.rng);
        proof {
            lemma_bit_length_bound(self.rng as nat);
            lemma2_to64();
            if bit_length(self.rng as nat) > 32 {
                lemma_pow2_strictly_increases(32, bit_length(self.rng as nat));
            }
        }
        33 + 8 * (steps as i32) - used as i32
    }

    /// The size of the current interval.
    pub fn range_final(&self) -> (r: u32)
        ensures
            r == self@.rng,
    {
        self.rng
    }

    /// Encodes the shares `low..high` of `2^bits`.
    pub fn encode_bin(&mut self, low: u32, high: u32, bits: u32)
        requires
            old(self).wf(),
            old(self).room(1),
            bits <= 16,
            low < high <= pow2(bits as nat),
        ensures
            final(self).wf(),
            final(self)@ == enc_shares_next(
                old(self)@,
                low as int,
                high as int,
                pow2(bits as nat) as int,
            ),
            final(self)@.n <= old(self)@.n + 3,
            final(self).capacity() == old(self).capacity(),
    {
        proof {
            lemma2_to64();
            lemma_pow2_pos(bits as nat);
            if bits < 16 {
                lemma_pow2_strictly_increases(bits as nat, 16);
            }
            lemma_u32_shl_is_mul(1, bits);
        }
        self.encode(low, high, 1u32 << bits);
    }

    /// Encodes the shares `low..high` of `total`.
    pub fn encode(&mut self, low: u32, high: u32, total: u32)
        requires
            old(self).wf(),
            old(self).room(1),
            low < high <= total <= 0x1_0000,
        ensures
            final(self).wf(),
            final(self)@ == enc_shares_next(old(self)@, low as int, high as int, total as int),
            final(self)@.n <= old(self)@.n + 3,
            final(self).capacity() == old(self).capacity(),
    {
        let scale: u32 = self.rng / total;
        proof {
            lemma_div_non_zero(self.rng as int, total as int);
            lemma_shares(self.rng as int, total as int, low as int, high as int);
        }
        let above: u32 = scale * (total - high);
        if low > 0 {
            let from: u32 = scale * (total - low);
            self.narrow(self.rng - from, scale * (high - low));
        } else {
            self.narrow(0, self.rng - above);
        }
    }

    /// Encodes symbol `symbol` of a context.
    pub fn encode_symbol_with_icdf(&mut self, symbol: usize, icdf_ctx: ICDFContext)
        requires
            old(self).wf(),
            old(self).room(1),
            context_ok(icdf_ctx.total as int, icdf_ctx.dist_table@),
            symbol < icdf_ctx.dist_table@.len(),
            symbol > 0 ==> icdf_ctx.dist_table@[symbol - 1] < icdf_ctx.dist_table@[symbol as int],
            icdf_ctx.dist_table@[symbol as int] > 0,
        ensures
            final(self).wf(),
            final(self)@ == enc_context_next(
                old(self)@,
                icdf_ctx.total as int,
                icdf_ctx.dist_table@,
                symbol as int,
            ),
            final(self)@.n <= old(self)@.n + 3,
            final(self).capacity() == old(self).capacity(),
    {
        let high: u32 = icdf_ctx.dist_table[symbol] as u32;
        let low: u32 = if symbol > 0 {
            icdf_ctx.dist_table[symbol - 1] as u32
        } else {
            0
        };
        self.encode(low, high, icdf_ctx.total);
    }

    /// Encodes symbol `symbol` of a 16-bit inverse cumulative table.
    pub fn encode_icdf16(&mut self, symbol: usize, icdf: &[u16], ftb: u32)
        requires
            old(self).wf(),
            old(self).room(1),
            icdf_ok(ints_of_u16(icdf@), ftb as nat),
            symbol < icdf@.len(),
            symbol > 0 ==> icdf@[symbol - 1] > icdf@[symbol as int],
            symbol == 0 ==> icdf@[0] < pow2(ftb as nat),
        ensures
            final(self).wf(),
            final(self)@ == enc_icdf_next(
                old(self)@,
                ints_of_u16(icdf@),
                ftb as nat,
                symbol as int,
            ),
            final(self)@.n <= old(self)@.n + 3,
            final(self).capacity() == old(self).capacity(),
    {
        proof {
            assert(ints_of_u16(icdf@)[symbol as int] == icdf@[symbol as int]);
            assert(symbol > 0 ==> ints_of_u16(icdf@)[symbol - 1] == icdf@[symbol - 1]);
        }
        if symbol > 0 {
            self.encode_inverse(icdf[symbol - 1] as u32, icdf[symbol] as u32, ftb, true);
        } else {
            self.encode_inverse(0, icdf[0] as u32, ftb, false);
        }
    }

    /// Encodes symbol `symbol` of an 8-bit inverse cumulative table.
    pub fn encode_icdf(&mut self, symbol: usize, icdf: &[u8], ftb: u32)
        requires
            old(self).wf(),
            old(self).room(1),
            icdf_ok(ints_of_u8(icdf@), ftb as nat),
            symbol < icdf@.len(),
            symbol > 0 ==> icdf@[symbol - 1] > icdf@[symbol as int],
            symbol == 0 ==> icdf@[0] < pow2(ftb as nat),
        ensures
            final(self).wf(),
            final(self)@ == enc_icdf_next(
                old(self)@,
                ints_of_u8(icdf@),
                ftb as nat,
                symbol as int,
            ),
            final(self)@.n <= old(self)@.n + 3,
            final(self).capacity() == old(self).capacity(),
    {
        proof {
            assert(ints_of_u8(icdf@)[symbol as int] == icdf@[symbol as int]);
            assert(symbol > 0 ==> ints_of_u8(icdf@)[symbol - 1] == icdf@[symbol - 1]);
        }
        if symbol > 0 {
            self.encode_inverse(icdf[symbol - 1] as u32, icdf[symbol] as u32, ftb, true);
        } else {
            self.encode_inverse(0, icdf[0] as u32, ftb, false);
        }
    }

    /// Encodes a bit that has probability `2^-logp` of being one.
    pub fn encode_bit_logp(&mut self, value: bool, logp: u32)
        requires
            old(self).wf(),
            old(self).room(1),
            1 <= logp <= 16,
        ensures
            final(self).wf(),
            final(self)@ == enc_logp_next(old(self)@, logp as nat, value),
            final(self)@.n <= old(self)@.n + 3,
            final(self).capacity() == old(self).capacity(),
    {
        proof {
            lemma2_to64();
            if logp > 1 {
                lemma_pow2_strictly_increases(1, logp as nat);
            }
        }
        if value {
            self.encode_inverse(1, 0, logp, true);
        } else {
            self.encode_inverse(0, 1, logp, false);
        }
    }

    /// Narrows to the part between `from` and `to` of `2^ftb` counts below the
    /// upper end, or to all but the top `to` counts.
    fn encode_inverse(&mut self, from: u32, to: u32, ftb: u32, bounded: bool)
        requires
            old(self).wf(),
            old(self).room(1),
            ftb <= 16,
            bounded ==> to < from <= pow2(ftb as nat),
            !bounded ==> to < pow2(ftb as nat),
        ensures
            final(self).wf(),
            bounded ==> final(self)@ == enc_upper(
                old(self)@,
                old(self)@.rng / pow2(ftb as nat) as int,
                from as int,
                to as int,
            ),
            !bounded ==> final(self)@ == enc_lower(
                old(self)@,
                old(self)@.rng / pow2(ftb as nat) as int,
                to as int,
            ),
            final(self)@.n <= old(self)@.n + 3,
            final(self).capacity() == old(self).capacity(),
    {
        let ghost p = pow2(ftb as nat) as int;
        proof {
            lemma2_to64();
            lemma_pow2_pos(ftb as nat);
            if ftb < 16 {
                lemma_pow2_strictly_increases(ftb as nat, 16);
            }
            lemma_u32_shr_is_div(self.rng, ftb);
            lemma_div_non_zero(self.rng as int, p);
            if bounded {
                lemma_shares(self.rng as int, p, p - from, p - to);
            } else {
                lemma_shares(self.rng as int, p, 0, p - to);
            }
        }
        let scale: u32 = self.rng >> ftb;
        if bounded {
            let skip: u32 = self.rng - scale * from;
            self.narrow(skip, scale * (from - to));
        } else {
            let rest: u32 = self.rng - scale * to;
            self.narrow(0, rest);
        }
    }

    /// Writes `value` into the first `nbits` bits of the stream, which the
    /// symbols coded so far have left zero and out of reach of a carry.
    pub fn patch_initial_bits(&mut self, value: u32, nbits: u32)
        requires
            old(self).wf(),
            nbits <= 8,
            value < pow2(nbits as nat),
            old(self)@.low + old(self)@.rng <= pow2((31 + 8 * old(self)@.n - nbits) as nat),
        ensures
            final(self).wf(),
            final(self)@ == enc_patched(old(self)@, value as int, nbits as nat),
            final(self).capacity() == old(self).capacity(),
    {
        let ghost d = self.digits();
        let ghost n = d.len();
        let ghost shift_n = (8 - nbits) as nat;
        proof {
            lemma2_to64();
            lemma_pow2_pos(nbits as nat);
            lemma_bytes_value_bound(d);
            lemma_pow2_adds(nbits as nat, shift_n);
        }
        if nbits == 0 {
            assert(value == 0);
            assert(0 * pow2((31 + 8 * old(self)@.n) as nat) == 0);
            return;
        }
        let shift: u32 = 8 - nbits;
        proof {
            lemma_u32_shl_is_mul(1, shift);
            lemma_pow2_pos(shift_n);
            if shift_n < 8 {
                lemma_pow2_strictly_increases(shift_n, 8);
            }
        }
        let keep: u32 = 1u32 << shift;
        proof {
            assert(value * keep <= (pow2(nbits as nat) - 1) * keep) by (nonlinear_arith)
                requires
                    value < pow2(nbits as nat),
                    keep >= 0,
            ;
            assert((pow2(nbits as nat) - 1) * keep == pow2(nbits as nat) * keep - keep)
                by (nonlinear_arith);
        }
        let top: u32 = value * keep;
        let ghost p = if n > 0 { pow2((8 * (n - 1)) as nat) as int } else { 0 };
        proof {
            if n > 0 {
                lemma_pow2_adds((8 * (n - 1)) as nat, shift_n);
                lemma_pow2_adds((8 * (n - 1) + shift_n) as nat, 31);
                assert((31 + 8 * n - nbits) as nat == (8 * (n - 1) + shift_n + 31) as nat);
                let slot = pow2((8 * (n - 1) + shift_n) as nat) as int;
                let b = bytes_value(d);
                assert(b < slot) by (nonlinear_arith)
                    requires
                        b * 0x8000_0000 + self.val + self.rng <= slot * 0x8000_0000,
                        self.rng > 0,
                        self.val >= 0,
                ;
                lemma_first_byte(d, d);
                assert(d[0] < keep) by (nonlinear_arith)
                    requires
                        d[0] * p < p * keep,
                        p >= 0,
                ;
                lemma_small_mod(d[0] as nat, keep as nat);
                assert(top * p * 0x8000_0000 == value * ((p * keep) * 0x8000_0000)) by (nonlinear_arith)
                    requires
                        top == value * keep,
                ;
            }
        }
        if self.buf.len() > 0 {
            let b: u8 = self.buf[0];
            assert(d[0] == b);
            self.buf.set(0, (b as u32 % keep + top) as u8);
            proof {
                assert(self.digits() =~= d.update(0, (b + top) as u8));
                lemma_first_byte(d, self.digits());
            }
        } else if self.rem >= 0 {
            assert(d[0] == self.rem as u8);
            let rem: u32 = self.rem as u32;
            self.rem = (rem % keep + top) as i32;
            proof {
                assert(self.digits() =~= d.update(0, (rem + top) as u8));
                lemma_first_byte(d, self.digits());
                if self.rem == 255 {
                    let ext = self.ext as nat;
                    assert(d =~= seq![rem as u8] + same_bytes(0xff, ext));
                    lemma_byte_then_full(rem as u8, ext);
                    assert(rem == keep - 1);
                    assert(bytes_value(d) == keep * p - 1);
                    assert(keep * p == p * keep) by (nonlinear_arith);
                }
            }
        } else {
            proof {
                assert(d =~= same_bytes(0xff, self.ext as nat));
                if n > 0 {
                    lemma_all_full(n);
                    lemma_pow2_strictly_increases((8 * (n - 1) + shift_n) as nat, (8 * n) as nat);
                    assert(false);
                }
                lemma_pow2_adds(shift_n, 23);
                lemma_pow2_adds(nbits as nat, (23 + shift_n) as nat);
                assert(keep * 0x80_0000 == pow2((31 - nbits) as nat));
                let unit = (keep * 0x80_0000) as int;
                assert(value * unit + unit <= pow2(nbits as nat) * unit) by (nonlinear_arith)
                    requires
                        value < pow2(nbits as nat),
                        unit >= 0,
                ;
                assert(top * 0x80_0000 == value * unit) by (nonlinear_arith)
                    requires
                        top == value * keep,
                        unit == keep * 0x80_0000,
                ;
                lemma_small_mod(self.val as nat, unit as nat);
            }
            self.val = self.val % (keep * 0x80_0000) + top * 0x80_0000;
            assert(self.digits() =~= d);
        }
        proof {
            if n > 0 {
                assert(self@.low == old(self)@.low + top * p * 0x8000_0000);
            }
        }
    }

    /// Settles the interval and returns the stream.
    pub fn finish(self) -> (r: Vec<u8>)
        requires
            self.wf(),
        ensures
            r@ == first_bytes(enc_stream(self@), self.capacity()),
    {
        let mut enc: RangeEncoder = self;
        let ghost s = enc@;
        let ghost d = enc.digits();
        let used: u32 = ilog(enc.rng);
        proof {
            lemma_bytes_value_bound(d);
            lemma_final_bits(s);
            lemma2_to64();
        }
        let mut bits: u32 = 32 - used;
        proof {
            lemma_u64_shl_is_mul(1, (31 - bits) as u64);
            lemma_round_up_parts(bytes_value(d), enc.val as int, bits as nat);
        }
        let mut unit: u64 = 1u64 << (31 - bits) as u64;
        let val: u64 = enc.val as u64;
        let mut end: u64 = (val + unit - 1) / unit * unit;
        if end + unit - 1 >= val + enc.rng as u64 {
            bits = bits + 1;
            unit = unit / 2;
            proof {
                lemma_pow2_unfold((32 - bits) as nat);
                lemma_round_up_parts(bytes_value(d), enc.val as int, bits as nat);
            }
            end = (val + unit - 1) / unit * unit;
        }
        assert(bits == enc_final_bits(s));
        assert(end + bytes_value(d) * 0x8000_0000 == enc_final_value(s));
        let ghost e = enc_final_value(s);
        proof {
            lemma_final_value_inside(s);
            lemma_final_multiple(s);
        }
        let ghost j = enc_tail_bytes(s);
        proof {
            lemma_settled_tail(end as int, bits as nat);
        }
        if bits > 0 {
            enc.carry_out((end / 0x80_0000) as u32);
            end = (end % 0x80_0000) * 256;
            if bits > 8 {
                enc.carry_out((end / 0x80_0000) as u32);
                end = (end % 0x80_0000) * 256;
            }
        }
        proof {
            assert(end == 0);
            assert(j <= 2);
            assert(pow2(8 * j) == if j == 0 { 1int } else if j == 1 { 256 } else { 0x1_0000 });
            let grown = pow2(8 * j) as int;
            assert(bytes_value(enc.digits()) * 0x8000_0000 == e * grown) by {
                if j == 0 {
                    assert(e * grown == e) by (nonlinear_arith)
                        requires
                            grown == 1,
                    ;
                } else if j == 1 {
                    assert(e * grown == e * 256) by (nonlinear_arith)
                        requires
                            grown == 256,
                    ;
                } else {
                    assert(e * grown == e * 0x1_0000) by (nonlinear_arith)
                        requires
                            grown == 0x1_0000,
                    ;
                }
            }
            lemma_div_by_multiple(bytes_value(enc.digits()), 0x8000_0000);
        }
        let ghost full = enc.digits();
        if enc.rem >= 0 {
            let rem: u8 = enc.rem as u8;
            enc.buf.push(rem);
        }
        enc.push_same(0xff);
        proof {
            assert(enc.buf@ =~= full);
            lemma_value_bytes_inverse(full);
        }
        let cap: usize = enc.storage;
        let mut out: Vec<u8> = enc.buf;
        if out.len() > cap {
            out.truncate(cap);
            assert(out@ =~= full.take(cap as int));
        }
        out
    }
}

impl Default for RangeEncoder {
    fn default() -> (r: RangeEncoder)
        ensures
            r.wf(),
            r@ == enc_start(),
            r.capacity() == RANGE_ENCODER_STORAGE_BYTES,
    {
        RangeEncoder::new()
    }
}

impl Clone for RangeEncoder {
    fn clone(&self) -> (r: RangeEncoder)
        ensures
            r@ == self@,
            r.capacity() == self.capacity(),
            self.wf() ==> r.wf(),
    {
        let mut buf: Vec<u8> = Vec::new();
        for i in 0..self.buf.len()
            invariant
                buf@ == self.buf@.take(i as int),
        {
            buf.push(self.buf[i]);
            assert(buf@ =~= self.buf@.take(i + 1));
        }
        assert(buf@ =~= self.buf@);
        let r: RangeEncoder = RangeEncoder {
            buf,
            storage: self.storage,
            rem: self.rem,
            ext: self.ext,
            val: self.val,
            rng: self.rng,
        };
        assert(r.digits() =~= self.digits());
        r
    }
}

/// `scale` units of each share fit the interval.
proof fn lemma_shares(rng: int, total: int, low: int, high: int)
    requires
        0 < rng,
        0 < total <= rng,
        0 <= low < high <= total,
    ensures
        0 < rng / total,
        0 <= (rng / total) * (total - high) < rng,
        0 <= (rng / total) * (total - low) <= rng,
        0 < (rng / total) * (high - low) <= rng,
        (rng / total) * (total - low) == (rng / total) * (total - high) + (rng / total) * (high - low),
{
    let r = rng / total;
    lemma_div_non_zero(rng, total);
    lemma_fundamental_div_mod(rng, total);
    lemma_mod_bound(rng, total);
    assert(r * (total - low) == r * (total - high) + r * (high - low)) by (nonlinear_arith);
    assert(0 <= r * (total - high) < r * total) by (nonlinear_arith)
        requires
            r > 0,
            0 <= total - high < total,
    ;
    assert(0 <= r * (total - low) <= r * total) by (nonlinear_arith)
        requires
            r > 0,
            0 <= total - low <= total,
    ;
    assert(0 < r * (high - low) <= r * total) by (nonlinear_arith)
        requires
            r > 0,
            0 < high - low <= total,
    ;
    assert(total * r == r * total) by (nonlinear_arith);
}

/// The number of settling bits is small.
pub proof fn lemma_final_bits(s: EncState)
    requires
        MIN_RANGE_SIZE < s.rng <= 0x8000_0000,
    ensures
        24 <= bit_length(s.rng as nat) <= 32,
        enc_final_bits(s) <= 9,
        pow2((bit_length(s.rng as nat) - 1) as nat) <= s.rng,
{
    let b = bit_length(s.rng as nat);
    lemma_bit_length_bound(s.rng as nat);
    lemma2_to64();
    if b < 24 {
        if b < 23 {
            lemma_pow2_strictly_increases(b, 23);
        }
        assert(false);
    }
    if b > 32 {
        lemma_pow2_strictly_increases(31, (b - 1) as nat);
        assert(s.rng >= pow2((b - 1) as nat));
        assert(false);
    }
}

/// Rounding up leaves whole multiples of `2^31` alone.
proof fn lemma_round_up_parts(d: int, v: int, bits: nat)
    requires
        bits <= 31,
        v >= 0,
        d >= 0,
    ensures
        ({
            let unit = pow2((31 - bits) as nat) as int;
            &&& 0 < unit <= 0x8000_0000
            &&& round_up(d * 0x8000_0000 + v, unit) == d * 0x8000_0000 + round_up(v, unit)
            &&& v <= round_up(v, unit) < v + unit
            &&& round_up(v, unit) % unit == 0
        }),
{
    let unit = pow2((31 - bits) as nat) as int;
    let m = pow2(bits) as int;
    lemma2_to64();
    lemma_pow2_adds((31 - bits) as nat, bits);
    lemma_pow2_pos((31 - bits) as nat);
    lemma_pow2_pos(bits);
    if bits > 0 {
        lemma_pow2_strictly_increases((31 - bits) as nat, 31);
    }
    let q = (v + unit - 1) / unit;
    lemma_fundamental_div_mod(v + unit - 1, unit);
    lemma_mod_bound(v + unit - 1, unit);
    assert(q * unit == unit * q) by (nonlinear_arith);
    assert(d * 0x8000_0000 + v + unit - 1 == (d * m + q) * unit + (v + unit - 1) % unit)
        by (nonlinear_arith)
        requires
            unit * m == 0x8000_0000,
            v + unit - 1 == unit * q + (v + unit - 1) % unit,
    ;
    lemma_fundamental_div_mod_converse(
        d * 0x8000_0000 + v + unit - 1,
        unit,
        d * m + q,
        (v + unit - 1) % unit,
    );
    assert((d * m + q) * unit == d * 0x8000_0000 + q * unit) by (nonlinear_arith)
        requires
            unit * m == 0x8000_0000,
    ;
    lemma_mod_multiples_basic(q, unit);
}

/// The settled number, and every number that shares its settled bits, lies in
/// the interval.
pub proof fn lemma_final_value_inside(s: EncState)
    requires
        MIN_RANGE_SIZE < s.rng <= 0x8000_0000,
        s.low >= 0,
    ensures
        s.low <= enc_final_value(s),
        enc_final_value(s) + pow2((31 - enc_final_bits(s)) as nat) - 1 < s.low + s.rng,
{
    lemma_final_bits(s);
    let bits = (32 - bit_length(s.rng as nat)) as nat;
    lemma_round_up_parts(0, s.low, bits);
    lemma_round_up_parts(0, s.low, bits + 1);
    lemma_pow2_unfold((31 - bits) as nat);
}

/// What is left of the settled number once its bytes are taken.
proof fn lemma_settled_tail(end: int, bits: nat)
    requires
        bits <= 9,
        end >= 0,
        end % (pow2((31 - bits) as nat) as int) == 0,
    ensures
        bits == 0 ==> end % 0x8000_0000 == 0,
        1 <= bits <= 8 ==> end % 0x80_0000 == 0,
        bits == 9 ==> ((end % 0x80_0000) * 256) % 0x80_0000 == 0,
{
    let unit = pow2((31 - bits) as nat) as int;
    lemma2_to64();
    lemma_pow2_pos((31 - bits) as nat);
    lemma_fundamental_div_mod(end, unit);
    if bits == 9 {
        assert(unit == 0x40_0000);
        let q = end / unit;
        let odd = q % 2;
        let half = q / 2;
        assert(end == half * 0x80_0000 + odd * 0x40_0000) by (nonlinear_arith)
            requires
                end == unit * q,
                unit == 0x40_0000,
                q == 2 * half + odd,
        ;
        lemma_fundamental_div_mod_converse(end, 0x80_0000, half, odd * 0x40_0000);
        assert(end % 0x80_0000 == 0 || end % 0x80_0000 == 0x40_0000);
    } else if bits >= 1 {
        let m = pow2((8 - bits) as nat) as int;
        lemma_pow2_adds(23, (8 - bits) as nat);
        let q = end / unit;
        assert(end == (m * q) * 0x80_0000) by (nonlinear_arith)
            requires
                end == unit * q,
                unit == 0x80_0000 * m,
        ;
        lemma_mod_multiples_basic(m * q, 0x80_0000);
    }
}

/// The settled number is a multiple of its unit.
pub proof fn lemma_final_multiple(s: EncState)
    requires
        MIN_RANGE_SIZE < s.rng <= 0x8000_0000,
        s.low >= 0,
    ensures
        enc_final_value(s) % (pow2((31 - enc_final_bits(s)) as nat) as int) == 0,
{
    lemma_final_bits(s);
    lemma_round_up_parts(0, s.low, enc_final_bits(s));
}

} // verus!

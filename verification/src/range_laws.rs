//! What reading gives back of what was written with the range coder.

use crate::fixed::{bit_length, lemma_wrap32_add, lemma_wrap32_range, wrap32};
use crate::range::{
    bit_at, bits_end, bits_value, dec_context_next, dec_context_symbol, dec_icdf_next,
    dec_icdf_symbol, dec_inside, dec_logp_bit, dec_logp_next, dec_normalized, dec_scale_up,
    dec_share, dec_start, dec_tell, first_above, icdf_first, icdf_ok, lemma_bits_value_bound, DecState, MIN_RANGE_SIZE,
};
use crate::icdf::context_ok;
use crate::range_encoder::{
    bytes_value, enc_context_next, enc_final_bits, enc_final_value, enc_icdf_next, enc_logp_next,
    enc_patched, enc_scaled, enc_start, enc_stream, enc_tail_bytes, lemma_final_bits,
    lemma_final_multiple, lemma_final_value_inside, lemma_value_bytes_value, EncState,
};
use vstd::arithmetic::div_mod::*;
use vstd::arithmetic::mul::*;
use vstd::arithmetic::power2::*;
use vstd::prelude::*;

verus! {

/// A symbol together with the model that it is coded with.
pub enum CodedItem {
    Icdf { table: Seq<int>, ftb: nat, symbol: int },
    Context { total: int, dist: Seq<u16>, symbol: int },
    Bit { logp: nat, bit: bool },
}

/// The model gives the symbol a share of the interval.
pub open spec fn item_ok(item: CodedItem) -> bool {
    match item {
        CodedItem::Icdf { table, ftb, symbol } => {
            &&& icdf_ok(table, ftb)
            &&& 0 <= symbol < table.len()
            &&& if symbol == 0 {
                table[0] < pow2(ftb)
            } else {
                table[symbol] < table[symbol - 1]
            }
            &&& forall|i: int, j: int| 0 <= i <= j < symbol ==> table[i] >= table[j]
        },
        CodedItem::Context { total, dist, symbol } => {
            &&& context_ok(total, dist)
            &&& 0 <= symbol < dist.len()
            &&& dist[symbol] > 0
            &&& symbol > 0 ==> dist[symbol - 1] < dist[symbol]
            &&& forall|i: int, j: int| 0 <= i <= j < symbol ==> dist[i] <= dist[j]
        },
        CodedItem::Bit { logp, bit } => 1 <= logp <= 16,
    }
}

/// The symbol of an item.
pub open spec fn item_symbol(item: CodedItem) -> int {
    match item {
        CodedItem::Icdf { table, ftb, symbol } => symbol,
        CodedItem::Context { total, dist, symbol } => symbol,
        CodedItem::Bit { logp, bit } => if bit {
            1
        } else {
            0
        },
    }
}

pub open spec fn enc_item(s: EncState, item: CodedItem) -> EncState {
    match item {
        CodedItem::Icdf { table, ftb, symbol } => enc_icdf_next(s, table, ftb, symbol),
        CodedItem::Context { total, dist, symbol } => enc_context_next(s, total, dist, symbol),
        CodedItem::Bit { logp, bit } => enc_logp_next(s, logp, bit),
    }
}

pub open spec fn dec_item_symbol(d: DecState, item: CodedItem) -> int {
    match item {
        CodedItem::Icdf { table, ftb, symbol } => dec_icdf_symbol(d, table, ftb),
        CodedItem::Context { total, dist, symbol } => dec_context_symbol(d, total, dist),
        CodedItem::Bit { logp, bit } => dec_logp_bit(d, logp),
    }
}

pub open spec fn dec_item_next(d: DecState, item: CodedItem) -> DecState {
    match item {
        CodedItem::Icdf { table, ftb, symbol } => dec_icdf_next(d, table, ftb),
        CodedItem::Context { total, dist, symbol } => dec_context_next(d, total, dist),
        CodedItem::Bit { logp, bit } => dec_logp_next(d, logp),
    }
}

/// The encoder once all items are coded.
pub open spec fn enc_items(items: Seq<CodedItem>) -> EncState
    decreases items.len(),
{
    if items.len() == 0 {
        enc_start()
    } else {
        enc_item(enc_items(items.drop_last()), items.last())
    }
}

/// The decoder of `buf` once the first `k` symbols are read with the models of
/// the items.
pub open spec fn dec_items(buf: Seq<u8>, items: Seq<CodedItem>, k: nat) -> DecState
    decreases k,
{
    if k == 0 {
        dec_start(buf)
    } else {
        dec_item_next(dec_items(buf, items, (k - 1) as nat), items[k - 1])
    }
}

pub open spec fn items_ok(items: Seq<CodedItem>) -> bool {
    forall|i: int| 0 <= i < items.len() ==> item_ok(#[trigger] items[i])
}

/// The first `31 + 8n` bits of a stream.
pub open spec fn code_of(buf: Seq<u8>, n: nat) -> int {
    bits_value(buf, 0, 31 + 8 * n)
}

/// The stream starts with a number of the interval.
pub open spec fn covers(s: EncState, buf: Seq<u8>) -> bool {
    s.low <= code_of(buf, s.n) < s.low + s.rng
}

/// The decoder stands where the encoder stood.
pub open spec fn in_step(s: EncState, d: DecState) -> bool {
    &&& covers(s, d.buf)
    &&& d.rng == s.rng
    &&& d.dif == s.low + s.rng - 1 - code_of(d.buf, s.n)
    &&& d.pos == bits_end(d.buf, 0, 31 + 8 * s.n)
    &&& d.total == wrap32((33 + 8 * s.n) as int)
}

/// The interval is one of numbers below `2^(31 + 8n)`.
pub open spec fn enc_fits(s: EncState) -> bool {
    &&& 0 <= s.low
    &&& s.low + s.rng <= pow2(31 + 8 * s.n)
    &&& 0 < s.rng <= 0x8000_0000
}

// ---------------------------------------------------------------------
// Bits
// ---------------------------------------------------------------------

proof fn lemma_bits_value_split(buf: Seq<u8>, pos: int, a: nat, b: nat)
    ensures
        bits_value(buf, pos, a + b) == bits_value(buf, pos, a) * pow2(b) + bits_value(buf, pos + a, b),
    decreases b,
{
    lemma2_to64();
    if b == 0 {
        lemma_mul_basics(bits_value(buf, pos, a));
    } else {
        lemma_bits_value_split(buf, pos, a, (b - 1) as nat);
        lemma_pow2_unfold(b);
        let x = bits_value(buf, pos, a);
        let p = pow2((b - 1) as nat) as int;
        assert(2 * (x * p) == x * (2 * p)) by (nonlinear_arith);
    }
}

proof fn lemma_bits_past_end(buf: Seq<u8>, pos: int, n: nat)
    requires
        pos >= 8 * buf.len(),
    ensures
        bits_value(buf, pos, n) == 0,
    decreases n,
{
    if n > 0 {
        lemma_bits_past_end(buf, pos, (n - 1) as nat);
    }
}

proof fn lemma_bits_from_end_position(buf: Seq<u8>, t: nat, n: nat)
    ensures
        bits_value(buf, bits_end(buf, 0, t), n) == bits_value(buf, t as int, n),
        bits_end(buf, bits_end(buf, 0, t), n) == bits_end(buf, 0, t + n),
{
    let p = bits_end(buf, 0, t);
    if p != t {
        lemma_bits_past_end(buf, p, n);
        lemma_bits_past_end(buf, t as int, n);
    }
}

proof fn lemma_bits_in_byte(buf: Seq<u8>, m: nat, i: nat)
    requires
        m < buf.len(),
        i <= 8,
    ensures
        bits_value(buf, 8 * m as int, i) == buf[m as int] as int / pow2((8 - i) as nat) as int,
    decreases i,
{
    lemma2_to64();
    let b = buf[m as int] as int;
    lemma_basic_div(b, 256);
    if i > 0 {
        lemma_bits_in_byte(buf, m, (i - 1) as nat);
        let p = pow2((8 - i) as nat) as int;
        lemma_pow2_pos((8 - i) as nat);
        lemma_pow2_unfold((9 - i) as nat);
        let pos = 8 * m + i - 1;
        assert(pos / 8 == m && pos % 8 == i - 1);
        crate::fixed::lemma_div_twice(b, p, 2);
        assert((8 - (i - 1)) as nat == (9 - i) as nat);
        assert(7 - pos % 8 == 8 - i);
        assert(bits_value(buf, 8 * m as int, (i - 1) as nat) == (b / p) / 2);
        assert(bit_at(buf, pos) == (b / p) % 2);
    }
}

proof fn lemma_bits_are_bytes(buf: Seq<u8>, m: nat)
    requires
        m <= buf.len(),
    ensures
        bits_value(buf, 0, 8 * m) == bytes_value(buf.take(m as int)),
    decreases m,
{
    lemma2_to64();
    if m > 0 {
        lemma_bits_are_bytes(buf, (m - 1) as nat);
        lemma_bits_value_split(buf, 0, (8 * (m - 1)) as nat, 8);
        lemma_bits_in_byte(buf, (m - 1) as nat, 8);
        assert(buf.take(m as int).drop_last() =~= buf.take(m - 1));
        assert((8 * (m - 1)) as nat + 8 == 8 * m);
        assert(buf.take(m as int).last() == buf[m - 1]);
        lemma_div_basics(buf[m - 1] as int);
    }
}

proof fn lemma_code_next(buf: Seq<u8>, n: nat)
    ensures
        code_of(buf, n + 1) == code_of(buf, n) * 256 + bits_value(buf, (31 + 8 * n) as int, 8),
        0 <= bits_value(buf, (31 + 8 * n) as int, 8) < 256,
{
    lemma2_to64();
    lemma_bits_value_split(buf, 0, 31 + 8 * n, 8);
    lemma_bits_value_bound(buf, (31 + 8 * n) as int, 8);
    assert(31 + 8 * n + 8 == 31 + 8 * (n + 1));
}

// ---------------------------------------------------------------------
// Scaling
// ---------------------------------------------------------------------

pub open spec fn scaled_once(s: EncState) -> EncState {
    EncState { low: s.low * 256, rng: s.rng * 256, n: s.n + 1 }
}

/// A stream starts in the scaled interval if and only if it starts in the
/// interval.
proof fn lemma_covers_scaled(s: EncState, buf: Seq<u8>)
    ensures
        covers(enc_scaled(s), buf) <==> covers(s, buf),
    decreases 0x8000_0001 - s.rng,
{
    if 0 < s.rng <= MIN_RANGE_SIZE {
        lemma_covers_scaled(scaled_once(s), buf);
        lemma_code_next(buf, s.n);
    }
}

proof fn lemma_in_step_scaled(s: EncState, d: DecState)
    requires
        in_step(s, d),
        0 < s.rng <= 0x8000_0000,
    ensures
        in_step(enc_scaled(s), dec_normalized(d)),
    decreases 0x8000_0001 - s.rng,
{
    if s.rng <= MIN_RANGE_SIZE {
        lemma_code_next(d.buf, s.n);
        lemma_bits_from_end_position(d.buf, 31 + 8 * s.n, 8);
        let next = d.dif * 256 + 255 - bits_value(d.buf, d.pos, 8);
        lemma_small_mod(next as nat, 0x8000_0000);
        assert(31 + 8 * s.n + 8 == 31 + 8 * (s.n + 1));
        reveal(wrap32);
        lemma_in_step_scaled(scaled_once(s), dec_scale_up(d));
    }
}

proof fn lemma_fits_scaled(s: EncState)
    requires
        enc_fits(s),
    ensures
        enc_fits(enc_scaled(s)),
        enc_scaled(s).rng > MIN_RANGE_SIZE,
    decreases 0x8000_0001 - s.rng,
{
    if s.rng <= MIN_RANGE_SIZE {
        lemma2_to64();
        lemma_pow2_adds(31 + 8 * s.n, 8);
        lemma_fits_scaled(scaled_once(s));
    }
}

// ---------------------------------------------------------------------
// One symbol
// ---------------------------------------------------------------------

/// The interval of an item before it is scaled: its lower end, relative to
/// that of the interval it lies in, and its size.
pub open spec fn item_part(rng: int, item: CodedItem) -> (int, int) {
    match item {
        CodedItem::Icdf { table, ftb, symbol } => {
            let scale = rng / pow2(ftb) as int;
            if symbol > 0 {
                (rng - scale * table[symbol - 1], scale * (table[symbol - 1] - table[symbol]))
            } else {
                (0, rng - scale * table[symbol])
            }
        },
        CodedItem::Context { total, dist, symbol } => {
            let scale = rng / total;
            let low = if symbol > 0 {
                dist[symbol - 1] as int
            } else {
                0
            };
            if low > 0 {
                (rng - scale * (total - low), scale * ((total - low) - (total - dist[symbol])))
            } else {
                (0, rng - scale * (total - dist[symbol]))
            }
        },
        CodedItem::Bit { logp, bit } => {
            let scale = rng / pow2(logp) as int;
            if bit {
                (rng - scale * 1, scale * (1 - 0))
            } else {
                (0, rng - scale * 1)
            }
        },
    }
}

proof fn lemma_enc_item_is_part(s: EncState, item: CodedItem)
    ensures
        enc_item(s, item) == enc_scaled(
            EncState {
                low: s.low + item_part(s.rng, item).0,
                rng: item_part(s.rng, item).1,
                n: s.n,
            },
        ),
{
}

/// A share of `counts` out of `2^e`, or of any total up to the interval size.
proof fn lemma_scaled_shares(rng: int, total: int, a: int, b: int)
    requires
        0 < total <= rng,
        0 <= b < a <= total,
    ensures
        rng / total > 0,
        0 <= (rng / total) * b,
        (rng / total) * b < (rng / total) * a <= rng,
        (rng / total) * (a - b) == (rng / total) * a - (rng / total) * b,
{
    let r = rng / total;
    lemma_div_non_zero(rng, total);
    lemma_fundamental_div_mod(rng, total);
    lemma_mod_bound(rng, total);
    assert(r * (a - b) == r * a - r * b) by (nonlinear_arith);
    assert(0 <= r * b < r * a <= total * r) by (nonlinear_arith)
        requires
            r > 0,
            0 <= b < a <= total,
    ;
}

proof fn lemma_item_part_inside(rng: int, item: CodedItem)
    requires
        item_ok(item),
        MIN_RANGE_SIZE < rng <= 0x8000_0000,
    ensures
        0 <= item_part(rng, item).0,
        0 < item_part(rng, item).1,
        item_part(rng, item).0 + item_part(rng, item).1 <= rng,
{
    lemma2_to64();
    match item {
        CodedItem::Icdf { table, ftb, symbol } => {
            lemma_small_pow2(ftb);
            if symbol > 0 {
                lemma_scaled_shares(rng, pow2(ftb) as int, table[symbol - 1], table[symbol]);
            } else {
                lemma_scaled_shares(rng, pow2(ftb) as int, pow2(ftb) as int, table[symbol]);
            }
        },
        CodedItem::Context { total, dist, symbol } => {
            let low = if symbol > 0 {
                dist[symbol - 1] as int
            } else {
                0
            };
            lemma_scaled_shares(rng, total, total - low, total - dist[symbol]);
        },
        CodedItem::Bit { logp, bit } => {
            lemma_small_pow2(logp);
            lemma_pow2_unfold(logp);
            lemma_pow2_pos((logp - 1) as nat);
            lemma_scaled_shares(rng, pow2(logp) as int, 1, 0);
            lemma_scaled_shares(rng, pow2(logp) as int, pow2(logp) as int, 1);
        },
    }
}

proof fn lemma_small_pow2(e: nat)
    requires
        e <= 16,
    ensures
        1 <= pow2(e) <= 0x1_0000,
{
    lemma2_to64();
    lemma_pow2_pos(e);
    if e < 16 {
        lemma_pow2_strictly_increases(e, 16);
    }
}

pub proof fn lemma_fits_item(s: EncState, item: CodedItem)
    requires
        item_ok(item),
        enc_fits(s),
        s.rng > MIN_RANGE_SIZE,
    ensures
        enc_fits(enc_item(s, item)),
        enc_item(s, item).rng > MIN_RANGE_SIZE,
{
    lemma_item_part_inside(s.rng, item);
    lemma_enc_item_is_part(s, item);
    lemma_fits_scaled(
        EncState { low: s.low + item_part(s.rng, item).0, rng: item_part(s.rng, item).1, n: s.n },
    );
}

/// A stream that starts in an item's interval starts in the one before it.
pub proof fn lemma_covers_before(s: EncState, item: CodedItem, buf: Seq<u8>)
    requires
        item_ok(item),
        MIN_RANGE_SIZE < s.rng <= 0x8000_0000,
        covers(enc_item(s, item), buf),
    ensures
        covers(s, buf),
{
    let part = EncState {
        low: s.low + item_part(s.rng, item).0,
        rng: item_part(s.rng, item).1,
        n: s.n,
    };
    lemma_item_part_inside(s.rng, item);
    lemma_enc_item_is_part(s, item);
    lemma_covers_scaled(part, buf);
}

proof fn lemma_icdf_first_is(dif: int, scale: int, icdf: Seq<int>, from: int, k: int)
    requires
        0 <= from <= k < icdf.len(),
        dif >= scale * icdf[k],
        forall|i: int| from <= i < k ==> dif < scale * #[trigger] icdf[i],
    ensures
        icdf_first(dif, scale, icdf, from) == k,
    decreases k - from,
{
    if from < k {
        lemma_icdf_first_is(dif, scale, icdf, from + 1, k);
    }
}

proof fn lemma_first_above_is(dist: Seq<u16>, count: int, from: int, k: int)
    requires
        0 <= from <= k < dist.len(),
        dist[k] > count,
        forall|i: int| from <= i < k ==> #[trigger] dist[i] <= count,
    ensures
        first_above(dist, count, from) == k,
    decreases k - from,
{
    if from < k {
        lemma_first_above_is(dist, count, from + 1, k);
    }
}

/// A decoder in step with the encoder reads the item that was written, and is
/// in step afterwards.
pub proof fn lemma_item_round_trip(s: EncState, d: DecState, item: CodedItem)
    requires
        item_ok(item),
        MIN_RANGE_SIZE < s.rng <= 0x8000_0000,
        in_step(s, d),
        covers(enc_item(s, item), d.buf),
    ensures
        dec_item_symbol(d, item) == item_symbol(item),
        in_step(enc_item(s, item), dec_item_next(d, item)),
{
    let part = EncState {
        low: s.low + item_part(s.rng, item).0,
        rng: item_part(s.rng, item).1,
        n: s.n,
    };
    lemma_item_part_inside(s.rng, item);
    lemma_enc_item_is_part(s, item);
    lemma_covers_scaled(part, d.buf);
    let below = part.low + part.rng - 1 - code_of(d.buf, s.n);
    let inner = DecState { rng: part.rng, dif: below, ..d };
    lemma_in_step_scaled(part, inner);
    match item {
        CodedItem::Icdf { table, ftb, symbol } => {
            lemma_small_pow2(ftb);
            let scale = s.rng / pow2(ftb) as int;
            lemma_div_non_zero(s.rng, pow2(ftb) as int);
            if symbol > 0 {
                lemma_scaled_shares(s.rng, pow2(ftb) as int, table[symbol - 1], table[symbol]);
                assert forall|i: int| 0 <= i < symbol implies d.dif < scale * #[trigger] table[i] by {
                    assert(table[i] >= table[symbol - 1]);
                    assert(scale * table[i] >= scale * table[symbol - 1]) by (nonlinear_arith)
                        requires
                            scale > 0,
                            table[i] >= table[symbol - 1],
                    ;
                }
            }
            lemma_icdf_first_is(d.dif, scale, table, 0, symbol);
            assert(dec_item_next(d, item) == dec_normalized(inner));
        },
        CodedItem::Context { total, dist, symbol } => {
            let scale = s.rng / total;
            lemma_div_non_zero(s.rng, total);
            let low = if symbol > 0 {
                dist[symbol - 1] as int
            } else {
                0
            };
            let high = dist[symbol] as int;
            lemma_scaled_shares(s.rng, total, total - low, total - high);
            let q = d.dif / scale;
            lemma_fundamental_div_mod(d.dif, scale);
            lemma_mod_bound(d.dif, scale);
            assert(q >= total - high) by (nonlinear_arith)
                requires
                    d.dif >= scale * (total - high),
                    d.dif == scale * q + d.dif % scale,
                    d.dif % scale < scale,
                    scale > 0,
            ;
            if low > 0 {
                assert(q < total - low) by (nonlinear_arith)
                    requires
                        d.dif < scale * (total - low),
                        d.dif == scale * q + d.dif % scale,
                        d.dif % scale >= 0,
                        scale > 0,
                ;
            }
            let share = dec_share(d, total);
            assert(low <= share < high);
            assert forall|i: int| 0 <= i < symbol implies #[trigger] dist[i] <= share by {
                assert(dist[i] <= dist[symbol - 1]);
            }
            lemma_first_above_is(dist, share, 0, symbol);
            assert(dec_item_next(d, item) == dec_normalized(inner));
        },
        CodedItem::Bit { logp, bit } => {
            lemma_small_pow2(logp);
            lemma_mul_basics(s.rng / pow2(logp) as int);
            assert(dec_item_next(d, item) == dec_normalized(inner));
        },
    }
}

// ---------------------------------------------------------------------
// Whole streams
// ---------------------------------------------------------------------

/// The interval of any items is scaled up and below the precision's end.
pub proof fn lemma_items_fit(items: Seq<CodedItem>)
    requires
        items_ok(items),
    ensures
        enc_fits(enc_items(items)),
        enc_items(items).rng > MIN_RANGE_SIZE,
    decreases items.len(),
{
    lemma2_to64();
    if items.len() > 0 {
        assert(items_ok(items.drop_last())) by {
            assert forall|i: int| 0 <= i < items.drop_last().len() implies item_ok(
                #[trigger] items.drop_last()[i],
            ) by {
                assert(item_ok(items[i]));
            }
        }
        lemma_items_fit(items.drop_last());
        assert(item_ok(items[items.len() - 1]));
        lemma_fits_item(enc_items(items.drop_last()), items.last());
    }
}

/// The finished stream starts in the encoder's interval.
pub proof fn lemma_stream_covered(s: EncState)
    requires
        enc_fits(s),
        s.rng > MIN_RANGE_SIZE,
    ensures
        covers(s, enc_stream(s)),
{
    lemma2_to64();
    let e = enc_final_value(s);
    let bits = enc_final_bits(s);
    let j = enc_tail_bytes(s);
    let len = s.n + j;
    let buf = enc_stream(s);
    let unit = pow2((31 - bits) as nat) as int;
    let grown = pow2(8 * j) as int;
    lemma_final_bits(s);
    lemma_final_value_inside(s);
    lemma_final_multiple(s);
    lemma_pow2_pos((31 - bits) as nat);
    lemma_pow2_pos(8 * j);
    // e * grown is a multiple of 2^31
    lemma_fundamental_div_mod(e, unit);
    let q = e / unit;
    let more = pow2((8 * j - bits) as nat) as int;
    lemma_pow2_adds(bits, (8 * j - bits) as nat);
    lemma_pow2_adds((31 - bits) as nat, bits);
    let v = q * more;
    assert(e * grown == v * 0x8000_0000) by (nonlinear_arith)
        requires
            e == unit * q,
            grown == pow2(bits) * more,
            unit * pow2(bits) == 0x8000_0000,
            v == q * more,
    ;
    lemma_div_by_multiple(v, 0x8000_0000);
    assert(e * grown / 0x8000_0000 == v);
    // v has len bytes
    lemma_pow2_adds(31 + 8 * s.n, 8 * j);
    lemma_pow2_adds(8 * len, 31);
    assert(31 + 8 * s.n + 8 * j == 8 * len + 31);
    let top = pow2(31 + 8 * s.n) as int;
    assert(e * grown < top * grown) by (nonlinear_arith)
        requires
            e < top,
            grown > 0,
    ;
    assert(0 <= e * grown) by (nonlinear_arith)
        requires
            e >= 0,
            grown > 0,
    ;
    assert(0 <= v < pow2(8 * len));
    lemma_value_bytes_value(v, len);
    assert(buf.take(len as int) =~= buf);
    lemma_bits_are_bytes(buf, len);
    // zero bits follow
    lemma_bits_value_split(buf, 0, 8 * len, 31);
    lemma_bits_past_end(buf, (8 * len) as int, 31);
    assert(bits_value(buf, 0, 31 + 8 * s.n + 8 * j) == e * grown);
    lemma_bits_value_split(buf, 0, 31 + 8 * s.n, 8 * j);
    lemma_bits_value_bound(buf, (31 + 8 * s.n) as int, 8 * j);
    let c = code_of(buf, s.n);
    let x = bits_value(buf, (31 + 8 * s.n) as int, 8 * j);
    assert(c == e) by (nonlinear_arith)
        requires
            e * grown == c * grown + x,
            0 <= x < grown,
    ;
}

proof fn lemma_all_covered(items: Seq<CodedItem>, k: nat, buf: Seq<u8>)
    requires
        items_ok(items),
        k <= items.len(),
        covers(enc_items(items), buf),
    ensures
        covers(enc_items(items.take(k as int)), buf),
    decreases items.len() - k,
{
    if k == items.len() {
        assert(items.take(k as int) =~= items);
    } else {
        lemma_all_covered(items, k + 1, buf);
        let head = items.take(k as int);
        assert(items.take((k + 1) as int).drop_last() =~= head);
        assert(items_ok(head)) by {
            assert forall|i: int| 0 <= i < head.len() implies item_ok(#[trigger] head[i]) by {
                assert(item_ok(items[i]));
            }
        }
        lemma_items_fit(head);
        assert(item_ok(items[k as int]));
        lemma_covers_before(enc_items(head), items[k as int], buf);
    }
}

proof fn lemma_start_in_step(buf: Seq<u8>)
    requires
        covers(enc_start(), buf),
    ensures
        in_step(enc_start(), dec_start(buf)),
{
    lemma2_to64();
    reveal(wrap32);
    reveal_with_fuel(dec_normalized, 4);
    lemma_bits_value_bound(buf, 0, 7);
    lemma_bits_value_split(buf, 0, 7, 8);
    lemma_bits_value_split(buf, 0, 15, 8);
    lemma_bits_value_split(buf, 0, 23, 8);
    lemma_bits_value_bound(buf, 7, 8);
    lemma_bits_value_bound(buf, 15, 8);
    lemma_bits_value_bound(buf, 23, 8);
    lemma_bits_from_end_position(buf, 7, 8);
    lemma_bits_from_end_position(buf, 15, 8);
    lemma_bits_from_end_position(buf, 23, 8);
    let d0 = DecState {
        buf,
        pos: bits_end(buf, 0, 7),
        total: 9,
        rng: 128,
        dif: 127 - bits_value(buf, 0, 7),
    };
    let d1 = dec_scale_up(d0);
    assert(d1.dif == 0x8000 - 1 - bits_value(buf, 0, 15));
    let d2 = dec_scale_up(d1);
    lemma_bits_value_bound(buf, 0, 15);
    assert(d2.dif == 0x80_0000 - 1 - bits_value(buf, 0, 23));
    let d3 = dec_scale_up(d2);
    lemma_bits_value_bound(buf, 0, 23);
    lemma_bits_value_bound(buf, 0, 31);
    assert(d3.dif == 0x8000_0000 - 1 - bits_value(buf, 0, 31));
    assert(dec_start(buf) == d3);
}

proof fn lemma_in_step_after(items: Seq<CodedItem>, k: nat, buf: Seq<u8>)
    requires
        items_ok(items),
        k <= items.len(),
        covers(enc_items(items), buf),
    ensures
        in_step(enc_items(items.take(k as int)), dec_items(buf, items, k)),
        dec_items(buf, items, k).buf == buf,
    decreases k,
{
    lemma_all_covered(items, k, buf);
    if k == 0 {
        lemma_all_covered(items, 0, buf);
        assert(items.take(0) =~= seq![]);
        lemma_start_in_step(buf);
        reveal_with_fuel(dec_normalized, 4);
    } else {
        lemma_in_step_after(items, (k - 1) as nat, buf);
        let head = items.take(k - 1);
        assert(items.take(k as int).drop_last() =~= head);
        assert(items_ok(head)) by {
            assert forall|i: int| 0 <= i < head.len() implies item_ok(#[trigger] head[i]) by {
                assert(item_ok(items[i]));
            }
        }
        lemma_items_fit(head);
        assert(item_ok(items[k - 1]));
        let d = dec_items(buf, items, (k - 1) as nat);
        lemma_item_round_trip(enc_items(head), d, items[k - 1]);
        lemma_dec_item_buf(d, items[k - 1]);
    }
}

proof fn lemma_normalized_buf(d: DecState)
    ensures
        dec_normalized(d).buf == d.buf,
    decreases 0x8000_0001 - d.rng,
{
    if 0 < d.rng <= MIN_RANGE_SIZE {
        lemma_normalized_buf(dec_scale_up(d));
    }
}

pub proof fn lemma_dec_item_buf(d: DecState, item: CodedItem)
    ensures
        dec_item_next(d, item).buf == d.buf,
{
    assert forall|r: int, f: int| (#[trigger] dec_normalized(DecState { rng: r, dif: f, ..d })).buf
        == d.buf by {
        lemma_normalized_buf(DecState { rng: r, dif: f, ..d });
    }
}

/// Reading a finished stream with the models it was written with gives back
/// every symbol in order, and leaves the decoder with the encoder's interval
/// size and count of bits.
pub proof fn law_stream_round_trip(items: Seq<CodedItem>)
    requires
        items_ok(items),
    ensures
        forall|k: nat|
            k < items.len() ==> dec_item_symbol(
                #[trigger] dec_items(enc_stream(enc_items(items)), items, k),
                items[k as int],
            ) == item_symbol(items[k as int]),
        dec_items(enc_stream(enc_items(items)), items, items.len()).rng == enc_items(items).rng,
        dec_items(enc_stream(enc_items(items)), items, items.len()).total == wrap32(
            (33 + 8 * enc_items(items).n) as int,
        ),
{
    let buf = enc_stream(enc_items(items));
    lemma_items_fit(items);
    lemma_stream_covered(enc_items(items));
    assert forall|k: nat| k < items.len() implies dec_item_symbol(
        #[trigger] dec_items(buf, items, k),
        items[k as int],
    ) == item_symbol(items[k as int]) by {
        lemma_in_step_after(items, k, buf);
        lemma_all_covered(items, k + 1, buf);
        let head = items.take(k as int);
        assert(items.take((k + 1) as int).drop_last() =~= head);
        assert(items_ok(head)) by {
            assert forall|i: int| 0 <= i < head.len() implies item_ok(#[trigger] head[i]) by {
                assert(item_ok(items[i]));
            }
        }
        lemma_items_fit(head);
        assert(item_ok(items[k as int]));
        lemma_item_round_trip(enc_items(head), dec_items(buf, items, k), items[k as int]);
    }
    lemma_in_step_after(items, items.len(), buf);
    assert(items.take(items.len() as int) =~= items);
}

// ---------------------------------------------------------------------
// Header bits filled in later
// ---------------------------------------------------------------------

/// A symbol that leaves the first `nbits` bits of the stream zero.
pub open spec fn reservation(nbits: nat) -> CodedItem {
    CodedItem::Icdf {
        table: seq![256 - pow2((8 - nbits) as nat) as int, 0],
        ftb: 8,
        symbol: 0,
    }
}

/// The `nbits` bits of `value`, most significant first, each as likely to be
/// zero as one.
pub open spec fn header_bits(value: int, nbits: nat) -> Seq<CodedItem>
    decreases nbits,
{
    if nbits == 0 {
        seq![]
    } else {
        header_bits(value / 2, (nbits - 1) as nat).push(
            CodedItem::Bit { logp: 1, bit: value % 2 == 1 },
        )
    }
}

proof fn lemma_header_bits_ok(value: int, nbits: nat)
    ensures
        items_ok(header_bits(value, nbits)),
        header_bits(value, nbits).len() == nbits,
    decreases nbits,
{
    if nbits > 0 {
        lemma_header_bits_ok(value / 2, (nbits - 1) as nat);
        let head = header_bits(value / 2, (nbits - 1) as nat);
        let all = header_bits(value, nbits);
        assert forall|i: int| 0 <= i < all.len() implies item_ok(#[trigger] all[i]) by {
            if i < head.len() {
                assert(item_ok(head[i]));
            }
        }
    }
}

/// The interval of header bits before scaling.
proof fn lemma_header_interval(value: int, nbits: nat)
    requires
        nbits <= 8,
        0 <= value < pow2(nbits),
    ensures
        enc_items(header_bits(value, nbits)) == enc_scaled(
            EncState {
                low: value * pow2((31 - nbits) as nat) as int,
                rng: pow2((31 - nbits) as nat) as int,
                n: 0,
            },
        ),
    decreases nbits,
{
    lemma2_to64();
    if nbits == 0 {
        assert(value == 0);
    } else {
        lemma_pow2_unfold(nbits);
        let head = header_bits(value / 2, (nbits - 1) as nat);
        lemma_header_interval(value / 2, (nbits - 1) as nat);
        let p = pow2((31 - nbits) as nat) as int;
        lemma_pow2_unfold((32 - nbits) as nat);
        assert(p >= 0x80_0000) by {
            if nbits < 8 {
                lemma_pow2_strictly_increases(23, (31 - nbits) as nat);
            }
        }
        assert(header_bits(value, nbits).drop_last() =~= head);
        let s = enc_items(head);
        assert(s == EncState { low: (value / 2) * (2 * p), rng: 2 * p, n: 0 });
        assert((2 * p) / 2 == p);
        lemma_mul_basics(p);
        if value % 2 == 1 {
            assert((value / 2) * (2 * p) + p == value * p) by (nonlinear_arith)
                requires
                    value == 2 * (value / 2) + 1,
            ;
        } else {
            assert((value / 2) * (2 * p) == value * p) by (nonlinear_arith)
                requires
                    value == 2 * (value / 2),
            ;
        }
    }
}

/// Scaling commutes with filling in the header.
proof fn lemma_patch_scaled(s: EncState, value: int, nbits: nat)
    requires
        nbits <= 8,
    ensures
        enc_scaled(enc_patched(s, value, nbits)) == enc_patched(enc_scaled(s), value, nbits),
    decreases 0x8000_0001 - s.rng,
{
    if 0 < s.rng <= MIN_RANGE_SIZE {
        lemma_patch_scaled(scaled_once(s), value, nbits);
        lemma2_to64();
        let p = pow2((31 + 8 * s.n - nbits) as nat) as int;
        lemma_pow2_adds((31 + 8 * s.n - nbits) as nat, 8);
        assert((31 + 8 * s.n - nbits + 8) as nat == (31 + 8 * (s.n + 1) - nbits) as nat);
        assert((s.low + value * p) * 256 == s.low * 256 + value * (p * 256)) by (nonlinear_arith);
        assert(scaled_once(enc_patched(s, value, nbits)) == enc_patched(scaled_once(s), value, nbits));
    }
}

proof fn lemma_patch_item(s: EncState, item: CodedItem, value: int, nbits: nat)
    requires
        nbits <= 8,
    ensures
        enc_item(enc_patched(s, value, nbits), item) == enc_patched(
            enc_item(s, item),
            value,
            nbits,
        ),
{
    let part = EncState {
        low: s.low + item_part(s.rng, item).0,
        rng: item_part(s.rng, item).1,
        n: s.n,
    };
    lemma_enc_item_is_part(s, item);
    lemma_enc_item_is_part(enc_patched(s, value, nbits), item);
    lemma_patch_scaled(part, value, nbits);
    assert(enc_patched(part, value, nbits) == (EncState {
        low: enc_patched(s, value, nbits).low + item_part(s.rng, item).0,
        rng: item_part(s.rng, item).1,
        n: s.n,
    }));
}

/// Filling in a reserved header gives the encoder that coded the header's bits
/// in the first place.
proof fn lemma_patch_is_header(value: int, nbits: nat, rest: Seq<CodedItem>)
    requires
        1 <= nbits <= 8,
        0 <= value < pow2(nbits),
    ensures
        enc_patched(enc_items(seq![reservation(nbits)] + rest), value, nbits) == enc_items(
            header_bits(value, nbits) + rest,
        ),
    decreases rest.len(),
{
    lemma2_to64();
    let coded = seq![reservation(nbits)] + rest;
    let plain = header_bits(value, nbits) + rest;
    if rest.len() == 0 {
        assert(coded =~= seq![reservation(nbits)]);
        assert(plain =~= header_bits(value, nbits));
        assert(coded.drop_last() =~= seq![]);
        lemma_header_interval(value, nbits);
        let t = seq![256 - pow2((8 - nbits) as nat) as int, 0];
        lemma_pow2_adds((8 - nbits) as nat, 23);
        let r = pow2((31 - nbits) as nat) as int;
        let k = pow2((8 - nbits) as nat) as int;
        assert(enc_start().rng / pow2(8) as int == 0x80_0000);
        assert(0x8000_0000 - 0x80_0000 * (256 - k) == r);
        let part = EncState { low: 0, rng: r, n: 0 };
        assert(coded.last() == reservation(nbits));
        assert(t[0] == 256 - k);
        assert(enc_item(enc_start(), reservation(nbits)) == enc_scaled(part));
        assert(enc_items(coded) == enc_scaled(part)) by {
            assert(enc_items(coded.drop_last()) == enc_start());
        }
        lemma_patch_scaled(part, value, nbits);
        assert((31 + 8 * 0 - nbits) as nat == (31 - nbits) as nat);
    } else {
        let head = rest.drop_last();
        lemma_patch_is_header(value, nbits, head);
        assert(coded.drop_last() =~= seq![reservation(nbits)] + head);
        assert(plain.drop_last() =~= header_bits(value, nbits) + head);
        assert(coded.last() == rest.last());
        assert(plain.last() == rest.last());
        lemma_patch_item(
            enc_items(seq![reservation(nbits)] + head),
            rest.last(),
            value,
            nbits,
        );
    }
}

/// Header bits that are reserved by the first symbol and filled in at the end
/// are read back as that many equally likely bits, and the symbols behind the
/// header as they were written.
pub proof fn law_patched_header_round_trip(value: int, nbits: nat, rest: Seq<CodedItem>)
    requires
        1 <= nbits <= 8,
        0 <= value < pow2(nbits),
        items_ok(rest),
    ensures
        ({
            let written = enc_patched(
                enc_items(seq![reservation(nbits)] + rest),
                value,
                nbits,
            );
            let read = header_bits(value, nbits) + rest;
            forall|k: nat|
                k < read.len() ==> dec_item_symbol(
                    #[trigger] dec_items(enc_stream(written), read, k),
                    read[k as int],
                ) == item_symbol(read[k as int])
        }),
{
    lemma_patch_is_header(value, nbits, rest);
    lemma_header_bits_ok(value, nbits);
    let read = header_bits(value, nbits) + rest;
    assert(items_ok(read)) by {
        assert forall|i: int| 0 <= i < read.len() implies item_ok(#[trigger] read[i]) by {
            if i < nbits {
                assert(item_ok(header_bits(value, nbits)[i]));
            } else {
                assert(item_ok(rest[i - nbits]));
            }
        }
    }
    law_stream_round_trip(read);
}

/// A reserved header may be filled in: no number of the interval reaches it.
pub proof fn law_reservation_holds(nbits: nat, rest: Seq<CodedItem>)
    requires
        1 <= nbits <= 8,
        items_ok(rest),
    ensures
        ({
            let s = enc_items(seq![reservation(nbits)] + rest);
            s.low + s.rng <= pow2((31 + 8 * s.n - nbits) as nat)
        }),
{
    lemma2_to64();
    lemma_pow2_pos(nbits);
    lemma_header_bits_ok(pow2(nbits) - 1, nbits);
    lemma_patch_is_header(pow2(nbits) - 1, nbits, rest);
    let read = header_bits(pow2(nbits) - 1, nbits) + rest;
    assert(items_ok(read)) by {
        assert forall|i: int| 0 <= i < read.len() implies item_ok(#[trigger] read[i]) by {
            if i < nbits {
                assert(item_ok(header_bits(pow2(nbits) - 1, nbits)[i]));
            } else {
                assert(item_ok(rest[i - nbits]));
            }
        }
    }
    lemma_items_fit(read);
    let s = enc_items(seq![reservation(nbits)] + rest);
    let slot = pow2((31 + 8 * s.n - nbits) as nat) as int;
    lemma_pow2_adds((31 + 8 * s.n - nbits) as nat, nbits);
    assert((pow2(nbits) - 1) * slot == slot * pow2(nbits) - slot) by (nonlinear_arith);
}

// ---------------------------------------------------------------------
// Bits consumed
// ---------------------------------------------------------------------

proof fn lemma_bit_length_grows(a: nat, b: nat)
    requires
        a <= b,
    ensures
        bit_length(a) <= bit_length(b),
    decreases b,
{
    if a > 0 {
        lemma_bit_length_grows(a / 2, b / 2);
    }
}

proof fn lemma_bit_length_of_scaled(v: nat)
    requires
        v > 0,
    ensures
        bit_length(256 * v) == bit_length(v) + 8,
{
    reveal_with_fuel(bit_length, 9);
    assert((256 * v) / 2 == 128 * v);
    assert((128 * v) / 2 == 64 * v);
    assert((64 * v) / 2 == 32 * v);
    assert((32 * v) / 2 == 16 * v);
    assert((16 * v) / 2 == 8 * v);
    assert((8 * v) / 2 == 4 * v);
    assert((4 * v) / 2 == 2 * v);
    assert((2 * v) / 2 == v);
}

/// Scaling an interval up consumes no whole bit.
proof fn lemma_normalizing_keeps_tell(s: DecState)
    requires
        0 < s.rng,
    ensures
        dec_tell(dec_normalized(s)) == dec_tell(s),
    decreases 0x8000_0001 - s.rng,
{
    if s.rng <= MIN_RANGE_SIZE {
        let up = dec_scale_up(s);
        let bits = bit_length(s.rng as nat) as int;
        lemma_bit_length_of_scaled(s.rng as nat);
        assert(up.rng as nat == 256 * (s.rng as nat));
        lemma_wrap32_add(s.total + 8, bits + 8);
        lemma_normalizing_keeps_tell(up);
    }
}

/// The bits consumed never get fewer while symbols are decoded, as long as their
/// count fits a machine word.
pub proof fn law_tell_never_falls(s: DecState, icdf: Seq<int>, ftb: nat)
    requires
        dec_inside(s),
        s.rng > MIN_RANGE_SIZE,
        s.rng <= u32::MAX,
        icdf_ok(icdf, ftb),
        i32::MIN + 32 <= s.total <= i32::MAX,
    ensures
        dec_tell(dec_icdf_next(s, icdf, ftb)) >= dec_tell(s),
{
    let scale = s.rng / pow2(ftb) as int;
    let k = icdf_first(s.dif, scale, icdf, 0);
    lemma_pow2_pos(ftb);
    lemma_div_pos_is_pos(s.rng, pow2(ftb) as int);
    lemma_first_symbol(s.dif, scale, icdf, 0);
    let upper = if k == 0 {
        s.rng
    } else {
        scale * icdf[k - 1]
    };
    if k > 0 {
        lemma_fundamental_div_mod(s.rng, pow2(ftb) as int);
        lemma_mod_bound(s.rng, pow2(ftb) as int);
        let p = pow2(ftb) as int;
        assert(scale * icdf[k - 1] <= s.rng) by (nonlinear_arith)
            requires
                0 <= icdf[k - 1] <= p,
                scale >= 0,
                s.rng == p * scale + s.rng % p,
                s.rng % p >= 0,
        ;
    }
    assert(0 <= scale * icdf[k]) by (nonlinear_arith)
        requires
            scale >= 0,
            icdf[k] >= 0,
    ;
    let rng = upper - scale * icdf[k];
    let narrow = DecState { rng, dif: s.dif - scale * icdf[k], ..s };
    lemma_normalizing_keeps_tell(narrow);
    lemma_bit_length_grows(rng as nat, s.rng as nat);
    lemma_bit_length_grows(s.rng as nat, u32::MAX as nat);
    assert(bit_length(u32::MAX as nat) <= 32) by {
        crate::range::lemma_bit_length_bound(u32::MAX as nat);
        lemma2_to64();
        if bit_length(u32::MAX as nat) > 32 {
            lemma_pow2_strictly_increases(31, (bit_length(u32::MAX as nat) - 1) as nat);
            if bit_length(u32::MAX as nat) > 33 {
                lemma_pow2_strictly_increases(32, (bit_length(u32::MAX as nat) - 1) as nat);
            }
        }
    }
    lemma_wrap32_range(s.total - bit_length(s.rng as nat));
    lemma_wrap32_range(s.total - bit_length(rng as nat));
}

/// The symbol that is found is the first whose share the coded number reaches.
proof fn lemma_first_symbol(dif: int, scale: int, icdf: Seq<int>, from: int)
    requires
        0 <= from < icdf.len(),
        icdf.last() == 0,
        dif >= 0,
    ensures
        from <= icdf_first(dif, scale, icdf, from) < icdf.len(),
        dif >= scale * icdf[icdf_first(dif, scale, icdf, from)],
        icdf_first(dif, scale, icdf, from) > from ==> dif < scale * icdf[icdf_first(
            dif,
            scale,
            icdf,
            from,
        ) - 1],
    decreases icdf.len() - from,
{
    if dif < scale * icdf[from] {
        if from == icdf.len() - 1 {
            assert(scale * 0 == 0);
        } else {
            lemma_first_symbol(dif, scale, icdf, from + 1);
        }
    }
}

} // verus!

//! Where two parts of the library compute the same thing, they agree.

use crate::fixed::{lemma_wrap16_range, lemma_wrap32_range, wrap32};
use crate::packet::Bandwidth;
use crate::silk::cng::rand_next;
use crate::silk::decode_core::{excitation, pulse_level, pulse_seed, quant_offset};
use crate::silk::decode_indices::SideInfoIndices;
use crate::silk::decode_parameters::interpolated as spectrum_between;
use crate::silk::decoder::{coefficient, interpolated, khz_of, log_gain_at, Decoder};
use crate::silk::decoder_excitation::{
    blocks_of, excitation_q23, ltp_scale, next_seed, offset_q23, seed_at, sign_of,
};
use crate::silk::gain_quant::level_at;
use crate::silk::nlsf_cb::SilkNlsfCb;
use crate::silk::nlsf_decode::{nlsf_residual, nlsf_value};
use crate::silk::tables_other::{SILK_LTPSCALES_TABLE_Q14, SILK_QUANTIZATION_OFFSETS_Q10};
use vstd::arithmetic::div_mod::*;
use vstd::prelude::*;

verus! {

/// Two numbers with the same low 32 bits.
spec fn same_bits(a: int, b: int) -> bool {
    (a - b) % 0x1_0000_0000 == 0
}

proof fn lemma_wrap_has_the_bits(v: int)
    ensures
        same_bits(wrap32(v), v),
        same_bits(v % 0x1_0000_0000, v),
        same_bits(v, wrap32(v)),
{
    reveal(wrap32);
}

proof fn lemma_same_bits_step(a: int, b: int)
    requires
        same_bits(a, b),
    ensures
        same_bits(rand_next(a), next_seed(b)),
{
    reveal(wrap32);
    let q = (a - b) / 0x1_0000_0000;
    assert(a == b + 0x1_0000_0000 * q);
    let p = a * 196314165;
    let r = b * 196314165;
    assert(p == r + 0x1_0000_0000 * (q * 196314165)) by (nonlinear_arith)
        requires
            a == b + 0x1_0000_0000 * q,
            p == a * 196314165,
            r == b * 196314165,
    ;
    let t = q * 196314165;
    assert((p + 0x8000_0000) % 0x1_0000_0000 == (r + 0x8000_0000) % 0x1_0000_0000) by {
        lemma_mod_multiples_vanish(t, r + 0x8000_0000, 0x1_0000_0000);
    }
}

/// A random number is negative where its top bit is set.
proof fn lemma_sign_bit(a: int, b: int)
    requires
        same_bits(a, b),
        -0x8000_0000 <= a <= 0x7fff_ffff,
        0 <= b < 0x1_0000_0000,
    ensures
        a < 0 <==> b >= 0x8000_0000,
{
}

proof fn lemma_seeds_agree(seed: int, pulses: Seq<i16>, raw: Seq<int>, i: nat)
    requires
        0 <= seed < 0x8000_0000,
        i <= pulses.len(),
        raw.len() == pulses.len(),
        forall|j: int| 0 <= j < pulses.len() ==> #[trigger] raw[j] == pulses[j],
    ensures
        same_bits(pulse_seed(seed, pulses, i), seed_at(seed, raw, i)),
    decreases i,
{
    if i > 0 {
        let t = (i - 1) as nat;
        lemma_seeds_agree(seed, pulses, raw, t);
        let a = pulse_seed(seed, pulses, t);
        let b = seed_at(seed, raw, t);
        lemma_same_bits_step(a, b);
        assert(raw[i - 1] == pulses[i - 1]);
        lemma_wrap_has_the_bits(rand_next(a) + pulses[i - 1]);
        lemma_wrap_has_the_bits(next_seed(b) + raw[i - 1]);
    }
}

/// The excitation of a frame is the same in both forms that it is decoded to, but for
/// their scale.
pub proof fn law_excitations_agree(
    ind: SideInfoIndices,
    seed: int,
    pulses: Seq<i16>,
    raw: Seq<int>,
    i: int,
)
    requires
        0 <= seed < 0x8000_0000,
        0 <= i < pulses.len(),
        raw.len() == pulses.len(),
        forall|j: int| 0 <= j < pulses.len() ==> #[trigger] raw[j] == pulses[j],
    ensures
        excitation(seed, quant_offset(ind), pulses, i) == 64 * excitation_q23(
            raw,
            offset_q23(ind.signal_type, ind.quant_offset_type),
            seed,
            i,
        ),
{
    lemma_seeds_agree(seed, pulses, raw, i as nat);
    let a = pulse_seed(seed, pulses, i as nat);
    let b = seed_at(seed, raw, i as nat);
    lemma_same_bits_step(a, b);
    let p = rand_next(a);
    lemma_wrap32_range(196314165 * a);
    lemma_wrap32_range(907633515 + wrap32(a * 196314165));
    lemma_sign_bit(p, next_seed(b));
    assert(SILK_QUANTIZATION_OFFSETS_Q10[0][0] == 100);
    assert(SILK_QUANTIZATION_OFFSETS_Q10[0][1] == 240);
    assert(SILK_QUANTIZATION_OFFSETS_Q10[1][0] == 32);
    assert(SILK_QUANTIZATION_OFFSETS_Q10[1][1] == 100);
    let offset = offset_q23(ind.signal_type, ind.quant_offset_type);
    assert(quant_offset(ind) == 4 * offset);
    assert(raw[i] == pulses[i]);
    assert(pulse_level(pulses[i] as int, quant_offset(ind)) == 64 * (256 * raw[i] - 20 * sign_of(
        raw[i],
    ) + offset));
}

/// The gains of a frame have the same levels, whichever way they are decoded.
pub proof fn law_gain_levels_agree(d: Decoder, indices: Seq<int>, k: int)
    requires
        d.wf(),
        d.have_decoded,
        0 <= k < 4,
        0 <= indices[0] <= 63,
    ensures
        log_gain_at(d, indices, k) == level_at(
            d.previous_log_gain as int,
            indices,
            false,
            k,
        ),
    decreases k,
{
    if k > 0 {
        law_gain_levels_agree(d, indices, k - 1);
    } else {
        assert(level_at(d.previous_log_gain as int, indices, false, -1) == d.previous_log_gain);
    }
}

/// So do its frequencies, also between two frames.
pub proof fn law_frequencies_agree(
    cb: SilkNlsfCb,
    idx: Seq<int>,
    prev: Seq<i16>,
    cur: Seq<i16>,
    w: int,
    k: int,
)
    requires
        0 <= k < cur.len(),
        cur.len() <= prev.len(),
        0 <= prev[k],
        0 <= cur[k],
        0 <= w <= 3,
    ensures
        coefficient(cb, idx[0], nlsf_residual(cb, idx, k), k) == nlsf_value(cb, idx, k),
        spectrum_between(prev, cur, w)[k] == interpolated(prev[k] as int, cur[k] as int, w),
{
    let d = cur[k] - prev[k];
    assert(w * d == if w == 0 {
        0
    } else if w == 1 {
        d
    } else if w == 2 {
        2 * d
    } else {
        3 * d
    }) by (nonlinear_arith)
        requires
            0 <= w <= 3,
    ;
    lemma_wrap16_range(prev[k] + (w * d) / 4);
}

/// The blocks of 16 pulses of a frame are as many as its samples need, and no more.
pub proof fn law_blocks_cover_the_frame(b: Bandwidth)
    requires
        b == Bandwidth::Narrow || b == Bandwidth::Medium || b == Bandwidth::Wide,
    ensures
        16 * blocks_of(b, 20_000_000) == 20 * khz_of(b),
        10 * khz_of(b) <= 16 * blocks_of(b, 10_000_000) < 10 * khz_of(b) + 16,
{
}

/// The scales of the long-term history are those of the table.
pub proof fn law_scales_agree(index: int)
    requires
        0 <= index <= 2,
    ensures
        ltp_scale(index) == SILK_LTPSCALES_TABLE_Q14[index],
{
    assert(SILK_LTPSCALES_TABLE_Q14[0] == 15565);
    assert(SILK_LTPSCALES_TABLE_Q14[1] == 12288);
    assert(SILK_LTPSCALES_TABLE_Q14[2] == 8192);
}

} // verus!

//! Signs of excitation pulses.

use crate::range::{
    dec_icdf_next, dec_icdf_symbol, dec_inside, icdf_ok, ints_of_u8, DecState, RangeDecoder,
    MIN_RANGE_SIZE,
};
use crate::range_encoder::{enc_icdf_next, EncState, RangeEncoder};
use crate::range_laws::{
    covers, enc_fits, in_step, item_ok, lemma_covers_before, lemma_fits_item, lemma_item_round_trip,
    CodedItem,
};
use crate::silk::tables_pulses_per_block::SILK_SIGN_ICDF;
use vstd::arithmetic::power2::*;
use vstd::prelude::*;

verus! {

/// Samples of a block.
pub const SHELL_CODEC_FRAME_LENGTH: usize = 16;

/// Blocks whose signs are coded.
pub open spec fn sign_blocks(frame_length: int) -> int {
    (frame_length + 8) / 16
}

/// What the signs of a frame depend on.
pub struct SignModel {
    pub signal_type: int,
    pub offset_type: int,
    pub sums: Seq<i32>,
    pub blocks: int,
}

impl SignModel {
    pub open spec fn ok(self) -> bool {
        &&& 0 <= self.signal_type <= 2
        &&& 0 <= self.offset_type <= 1
        &&& 0 <= self.blocks <= self.sums.len()
    }

    /// Sample `i` has a coded sign if it is not zero.
    pub open spec fn coded(self, i: int) -> bool {
        i / 16 < self.blocks && self.sums[i / 16] > 0
    }

    /// The model of the sign of sample `i`: negative is symbol 0.
    pub open spec fn table(self, i: int) -> Seq<int> {
        let pulses = self.sums[i / 16] % 32;
        let column = if pulses < 6 {
            pulses as int
        } else {
            6
        };
        seq![SILK_SIGN_ICDF[7 * (self.offset_type + 2 * self.signal_type) + column] as int, 0]
    }
}

/// The encoder once the signs of the first `i` samples are written.
pub open spec fn signs_written(s: EncState, m: SignModel, pulses: Seq<i8>, i: nat) -> EncState
    decreases i,
{
    if i == 0 {
        s
    } else {
        let before = signs_written(s, m, pulses, (i - 1) as nat);
        if m.coded(i - 1) && pulses[i - 1] != 0 {
            enc_icdf_next(
                before,
                m.table(i - 1),
                8,
                if pulses[i - 1] < 0 {
                    0
                } else {
                    1
                },
            )
        } else {
            before
        }
    }
}

/// The decoder once the signs of the first `i` samples are read.
pub open spec fn signs_read(s: DecState, m: SignModel, pulses: Seq<i16>, i: nat) -> DecState
    decreases i,
{
    if i == 0 {
        s
    } else {
        let before = signs_read(s, m, pulses, (i - 1) as nat);
        if m.coded(i - 1) && pulses[i - 1] > 0 {
            dec_icdf_next(before, m.table(i - 1), 8)
        } else {
            before
        }
    }
}

/// Sample `i` with its sign.
pub open spec fn signed_pulse(s: DecState, m: SignModel, pulses: Seq<i16>, i: int) -> int {
    if m.coded(i) && pulses[i] > 0 && dec_icdf_symbol(
        signs_read(s, m, pulses, i as nat),
        m.table(i),
        8,
    ) == 0 {
        -(pulses[i] as int)
    } else {
        pulses[i] as int
    }
}

/// The two-symbol table for a number of pulses.
fn sign_table(signal_type: i32, quant_offset_type: i32, total: i32) -> (icdf: [u8; 2])
    requires
        0 <= signal_type <= 2,
        0 <= quant_offset_type <= 1,
        total > 0,
    ensures
        ({
            let pulses = total % 32;
            let column = if pulses < 6 {
                pulses as int
            } else {
                6
            };
            ints_of_u8(icdf@) == seq![
                SILK_SIGN_ICDF[7 * (quant_offset_type + 2 * signal_type) + column] as int,
                0,
            ]
        }),
        icdf@.len() == 2,
        icdf@[1] == 0,
        icdf@[0] > 0,
{
    let pulses: usize = (total % 32) as usize;
    let column: usize = if pulses < 6 {
        pulses
    } else {
        6
    };
    let base: usize = (7 * (quant_offset_type + 2 * signal_type)) as usize;
    let icdf: [u8; 2] = [SILK_SIGN_ICDF[base + column], 0];
    proof {
        lemma_sign_entries(base + column);
        assert(ints_of_u8(icdf@) =~= seq![SILK_SIGN_ICDF[base + column] as int, 0]);
    }
    icdf
}

/// Both signs are possible.
proof fn lemma_sign_entries(i: int)
    requires
        0 <= i < 42,
    ensures
        0 < SILK_SIGN_ICDF[i] < 256,
{
}

pub proof fn lemma_two_symbols(a: u8)
    requires
        a > 0,
    ensures
        icdf_ok(seq![a as int, 0], 8),
        item_ok(CodedItem::Icdf { table: seq![a as int, 0], ftb: 8, symbol: 0 }),
        item_ok(CodedItem::Icdf { table: seq![a as int, 0], ftb: 8, symbol: 1 }),
{
    lemma2_to64();
}

/// Writes the signs of the pulses that are not zero.
pub fn silk_encode_signs(
    encoder: &mut RangeEncoder,
    pulses: &[i8],
    frame_length: usize,
    signal_type: i32,
    quant_offset_type: i32,
    sum_pulses: &[i32],
)
    requires
        old(encoder).wf(),
        old(encoder).room(frame_length as int),
        frame_length <= pulses@.len(),
        frame_length <= 0x1000_0000,
        sign_blocks(frame_length as int) <= sum_pulses@.len(),
        0 <= signal_type <= 2,
        0 <= quant_offset_type <= 1,
    ensures
        final(encoder).wf(),
        final(encoder)@ == signs_written(
            old(encoder)@,
            SignModel {
                signal_type: signal_type as int,
                offset_type: quant_offset_type as int,
                sums: sum_pulses@,
                blocks: sign_blocks(frame_length as int),
            },
            pulses@,
            frame_length as nat,
        ),
        final(encoder)@.n <= old(encoder)@.n + 3 * frame_length,
        final(encoder).capacity() == old(encoder).capacity(),
{
    let blocks: usize = (frame_length + 8) / 16;
    let ghost m = SignModel {
        signal_type: signal_type as int,
        offset_type: quant_offset_type as int,
        sums: sum_pulses@,
        blocks: sign_blocks(frame_length as int),
    };
    for i in 0..frame_length
        invariant
            encoder.wf(),
            old(encoder).room(frame_length as int),
            encoder@.n <= old(encoder)@.n + 3 * i,
            encoder.capacity() == old(encoder).capacity(),
            frame_length <= pulses@.len(),
            blocks == m.blocks <= sum_pulses@.len(),
            0 <= signal_type <= 2,
            0 <= quant_offset_type <= 1,
            m.signal_type == signal_type,
            m.offset_type == quant_offset_type,
            m.sums == sum_pulses@,
            encoder@ == signs_written(old(encoder)@, m, pulses@, i as nat),
    {
        let block: usize = i / 16;
        if block < blocks && sum_pulses[block] > 0 && pulses[i] != 0 {
            let icdf: [u8; 2] = sign_table(signal_type, quant_offset_type, sum_pulses[block]);
            let symbol: usize = if pulses[i] < 0 {
                0
            } else {
                1
            };
            proof {
                lemma_two_symbols(icdf@[0]);
                lemma2_to64();
            }
            encoder.encode_icdf(symbol, &icdf, 8);
        }
    }
}

/// Reads the signs of the pulses that are not zero and applies them.
pub fn silk_decode_signs(
    decoder: &mut RangeDecoder,
    pulses: &mut [i16],
    frame_length: usize,
    signal_type: i32,
    quant_offset_type: i32,
    sum_pulses: &[i32],
)
    requires
        old(decoder).wf(),
        dec_inside(old(decoder)@),
        frame_length <= old(pulses)@.len(),
        frame_length <= 0x1000_0000,
        sign_blocks(frame_length as int) <= sum_pulses@.len(),
        0 <= signal_type <= 2,
        0 <= quant_offset_type <= 1,
    ensures
        ({
            let m = SignModel {
                signal_type: signal_type as int,
                offset_type: quant_offset_type as int,
                sums: sum_pulses@,
                blocks: sign_blocks(frame_length as int),
            };
            &&& final(decoder).wf()
            &&& dec_inside(final(decoder)@)
            &&& final(decoder)@ == signs_read(
                old(decoder)@,
                m,
                old(pulses)@,
                frame_length as nat,
            )
            &&& final(pulses)@.len() == old(pulses)@.len()
            &&& forall|i: int|
                0 <= i < old(pulses)@.len() ==> #[trigger] final(pulses)@[i] == if i
                    < frame_length {
                    signed_pulse(old(decoder)@, m, old(pulses)@, i)
                } else {
                    old(pulses)@[i] as int
                }
        }),
{
    let blocks: usize = (frame_length + 8) / 16;
    let ghost m = SignModel {
        signal_type: signal_type as int,
        offset_type: quant_offset_type as int,
        sums: sum_pulses@,
        blocks: sign_blocks(frame_length as int),
    };
    let ghost p = pulses@;
    for i in 0..frame_length
        invariant
            decoder.wf(),
            dec_inside(decoder@),
            p == old(pulses)@,
            pulses@.len() == p.len(),
            frame_length <= p.len(),
            blocks == m.blocks <= sum_pulses@.len(),
            0 <= signal_type <= 2,
            0 <= quant_offset_type <= 1,
            m.signal_type == signal_type,
            m.offset_type == quant_offset_type,
            m.sums == sum_pulses@,
            decoder@ == signs_read(old(decoder)@, m, p, i as nat),
            forall|j: int|
                0 <= j < i ==> #[trigger] pulses@[j] == signed_pulse(old(decoder)@, m, p, j),
            forall|j: int| i <= j < p.len() ==> #[trigger] pulses@[j] == p[j],
    {
        let block: usize = i / 16;
        if block < blocks && sum_pulses[block] > 0 && pulses[i] > 0 {
            let icdf: [u8; 2] = sign_table(signal_type, quant_offset_type, sum_pulses[block]);
            proof {
                lemma_two_symbols(icdf@[0]);
            }
            let symbol: usize = decoder.decode_icdf(&icdf, 8);
            if symbol == 0 {
                pulses[i] = -pulses[i];
            }
        }
    }
}

/// Magnitudes of pulses.
pub open spec fn magnitudes(pulses: Seq<i8>) -> Seq<i16> {
    Seq::new(
        pulses.len(),
        |i: int|
            if pulses[i] < 0 {
                (-(pulses[i] as int)) as i16
            } else {
                pulses[i] as i16
            },
    )
}

/// The item by which the sign of a pulse is coded.
pub open spec fn sign_item(m: SignModel, pulses: Seq<i8>, i: int) -> CodedItem {
    CodedItem::Icdf {
        table: m.table(i),
        ftb: 8,
        symbol: if pulses[i] < 0 {
            0
        } else {
            1
        },
    }
}

pub proof fn lemma_sign_item(m: SignModel, pulses: Seq<i8>, i: int)
    requires
        m.ok(),
        i >= 0,
        m.coded(i),
    ensures
        item_ok(sign_item(m, pulses, i)),
{
    let n = m.sums[i / 16] % 32;
    let column = if n < 6 {
        n as int
    } else {
        6
    };
    lemma_sign_entries(7 * (m.offset_type + 2 * m.signal_type) + column);
    lemma_two_symbols(SILK_SIGN_ICDF[7 * (m.offset_type + 2 * m.signal_type) + column]);
}

proof fn lemma_signs_fit(s: EncState, m: SignModel, pulses: Seq<i8>, i: nat)
    requires
        m.ok(),
        enc_fits(s),
        s.rng > MIN_RANGE_SIZE,
    ensures
        enc_fits(signs_written(s, m, pulses, i)),
        signs_written(s, m, pulses, i).rng > MIN_RANGE_SIZE,
    decreases i,
{
    if i > 0 {
        lemma_signs_fit(s, m, pulses, (i - 1) as nat);
        if m.coded(i - 1) && pulses[i - 1] != 0 {
            lemma_sign_item(m, pulses, i - 1);
            lemma_fits_item(
                signs_written(s, m, pulses, (i - 1) as nat),
                sign_item(m, pulses, i - 1),
            );
        }
    }
}

proof fn lemma_signs_covered(
    s: EncState,
    m: SignModel,
    pulses: Seq<i8>,
    buf: Seq<u8>,
    i: nat,
    n: nat,
)
    requires
        m.ok(),
        enc_fits(s),
        s.rng > MIN_RANGE_SIZE,
        i <= n,
        covers(signs_written(s, m, pulses, n), buf),
    ensures
        covers(signs_written(s, m, pulses, i), buf),
    decreases n,
{
    if i < n {
        lemma_signs_fit(s, m, pulses, (n - 1) as nat);
        if m.coded(n - 1) && pulses[n - 1] != 0 {
            lemma_sign_item(m, pulses, n - 1);
            lemma_covers_before(
                signs_written(s, m, pulses, (n - 1) as nat),
                sign_item(m, pulses, n - 1),
                buf,
            );
        }
        lemma_signs_covered(s, m, pulses, buf, i, (n - 1) as nat);
    }
}

/// Signs read with the models they were written with turn the magnitudes of
/// the pulses back into the pulses, wherever the block of a pulse announces
/// pulses.
pub proof fn law_signs_round_trip(
    s: EncState,
    d: DecState,
    m: SignModel,
    pulses: Seq<i8>,
    i: nat,
    n: nat,
)
    requires
        m.ok(),
        enc_fits(s),
        s.rng > MIN_RANGE_SIZE,
        in_step(s, d),
        i <= n <= pulses.len(),
        covers(signs_written(s, m, pulses, n), d.buf),
    ensures
        in_step(
            signs_written(s, m, pulses, i),
            signs_read(d, m, magnitudes(pulses), i),
        ),
        i < n && (m.coded(i as int) || pulses[i as int] >= 0) ==> signed_pulse(
            d,
            m,
            magnitudes(pulses),
            i as int,
        ) == pulses[i as int],
    decreases i,
{
    let mags = magnitudes(pulses);
    if i > 0 {
        law_signs_round_trip(s, d, m, pulses, (i - 1) as nat, n);
        lemma_signs_fit(s, m, pulses, (i - 1) as nat);
        if m.coded(i - 1) && pulses[i - 1] != 0 {
            lemma_sign_item(m, pulses, i - 1);
            lemma_signs_covered(s, m, pulses, d.buf, i, n);
            lemma_signs_buf(d, m, mags, (i - 1) as nat);
            lemma_item_round_trip(
                signs_written(s, m, pulses, (i - 1) as nat),
                signs_read(d, m, mags, (i - 1) as nat),
                sign_item(m, pulses, i - 1),
            );
        }
    }
    if i < n && m.coded(i as int) && pulses[i as int] != 0 {
        lemma_signs_fit(s, m, pulses, i);
        lemma_sign_item(m, pulses, i as int);
        lemma_signs_covered(s, m, pulses, d.buf, i + 1, n);
        lemma_signs_buf(d, m, mags, i);
        lemma_item_round_trip(
            signs_written(s, m, pulses, i),
            signs_read(d, m, mags, i),
            sign_item(m, pulses, i as int),
        );
    }
}

proof fn lemma_signs_buf(d: DecState, m: SignModel, pulses: Seq<i16>, i: nat)
    ensures
        signs_read(d, m, pulses, i).buf == d.buf,
    decreases i,
{
    if i > 0 {
        lemma_signs_buf(d, m, pulses, (i - 1) as nat);
        let before = signs_read(d, m, pulses, (i - 1) as nat);
        crate::range_laws::lemma_dec_item_buf(
            before,
            CodedItem::Icdf { table: m.table(i - 1), ftb: 8, symbol: 0 },
        );
    }
}

} // verus!

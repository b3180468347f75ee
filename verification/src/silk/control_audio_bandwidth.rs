//! The internal sample rate of an encoder channel.
//!
//! A change of bandwidth is hidden by a low-pass filter whose cutoff moves over
//! many frames: down before the rate falls, up after it has risen. The caller
//! grants the change when the encoder says that it is ready.
use crate::fixed::{div_trunc, quotient, wmul, wrap32, wsub};
use crate::silk::check_control_input::{api_rate_ok, internal_rate_ok, EncControl};
use crate::silk::encoder_state::{
    khz_or_none, EncoderChannelState, EncoderStateCommon, LpState, TRANSITION_FRAMES,
};
use vstd::prelude::*;

verus! {

/// The internal rate, the filter and the control after a decision.
pub struct BandwidthStep {
    pub fs_khz: int,
    /// Whether the filter's memory is cleared.
    pub clear: bool,
    pub transition_frame_no: int,
    pub mode: int,
    pub switch_ready: bool,
    pub max_bits: int,
}

pub open spec fn lesser(a: int, b: int) -> int {
    if a < b {
        a
    } else {
        b
    }
}

pub open spec fn greater(a: int, b: int) -> int {
    if a > b {
        a
    } else {
        b
    }
}

/// The bits that are left when the share of 5 ms is kept for a redundant frame.
pub open spec fn bits_without_reserve(max_bits: int, payload_size_ms: int) -> int {
    wrap32(max_bits - div_trunc(wrap32(max_bits * 5), payload_size_ms + 5))
}

/// The rate before a decision in kHz: the current one, or the one that was
/// kept over a reset.
pub open spec fn rate_before(c: EncoderStateCommon, lp: LpState) -> int {
    if c.fs_khz == 0 {
        lp.saved_fs_khz as int
    } else {
        c.fs_khz as int
    }
}

/// The rate lies inside what is allowed.
pub open spec fn rate_allowed(c: EncoderStateCommon, hz: int) -> bool {
    hz <= c.api_sample_rate_hz && hz <= c.max_internal_sample_rate_hz && hz
        >= c.min_internal_sample_rate_hz
}

/// The decision on the internal rate.
pub open spec fn bandwidth_step(
    c: EncoderStateCommon,
    lp: LpState,
    ctl: EncControl,
) -> BandwidthStep {
    let khz = rate_before(c, lp);
    let still = BandwidthStep {
        fs_khz: khz,
        clear: false,
        transition_frame_no: lp.transition_frame_no as int,
        mode: lp.mode as int,
        switch_ready: ctl.switch_ready,
        max_bits: ctl.max_bits as int,
    };
    let desired = c.desired_internal_sample_rate_hz as int;
    if khz == 0 {
        BandwidthStep { fs_khz: lesser(desired, c.api_sample_rate_hz as int) / 1000, ..still }
    } else if !rate_allowed(c, khz * 1000) {
        BandwidthStep {
            fs_khz: greater(
                lesser(c.api_sample_rate_hz as int, c.max_internal_sample_rate_hz as int),
                c.min_internal_sample_rate_hz as int,
            ) / 1000,
            ..still
        }
    } else {
        // a transition that has come to its end is over
        let mode = if lp.transition_frame_no >= TRANSITION_FRAMES {
            0int
        } else {
            lp.mode as int
        };
        let rested = BandwidthStep { mode, ..still };
        let ready = BandwidthStep {
            switch_ready: true,
            max_bits: bits_without_reserve(ctl.max_bits as int, ctl.payload_size_ms as int),
            ..rested
        };
        if !c.allow_bandwidth_switch && !ctl.opus_can_switch {
            rested
        } else if khz * 1000 > desired {
            if ctl.opus_can_switch {
                BandwidthStep {
                    fs_khz: if khz == 16 {
                        12
                    } else {
                        8
                    },
                    clear: mode == 0,
                    transition_frame_no: if mode == 0 {
                        TRANSITION_FRAMES as int
                    } else {
                        lp.transition_frame_no as int
                    },
                    mode: 0,
                    ..rested
                }
            } else if lp.transition_frame_no <= 0 {
                ready
            } else {
                BandwidthStep {
                    clear: mode == 0,
                    transition_frame_no: if mode == 0 {
                        TRANSITION_FRAMES as int
                    } else {
                        lp.transition_frame_no as int
                    },
                    mode: -2,
                    ..rested
                }
            }
        } else if khz * 1000 < desired {
            if ctl.opus_can_switch {
                BandwidthStep {
                    fs_khz: if khz == 8 {
                        12
                    } else {
                        16
                    },
                    clear: true,
                    transition_frame_no: 0,
                    mode: 1,
                    ..rested
                }
            } else if mode == 0 {
                ready
            } else {
                BandwidthStep { mode: 1, ..rested }
            }
        } else if mode < 0 {
            BandwidthStep { mode: 1, ..rested }
        } else {
            rested
        }
    }
}

/// The filter after a decision.
pub open spec fn lp_after(before: LpState, s: BandwidthStep, after: LpState) -> bool {
    &&& after.transition_frame_no == s.transition_frame_no
    &&& after.mode == s.mode
    &&& after.saved_fs_khz == before.saved_fs_khz
    &&& after.in_lp_state@ == if s.clear {
        seq![0i32, 0i32]
    } else {
        before.in_lp_state@
    }
}

fn reserve_frame_bits(enc_control: &mut EncControl)
    requires
        -5 < old(enc_control).payload_size_ms <= 0x7fff_fffa,
    ensures
        *final(enc_control) == (EncControl {
            switch_ready: true,
            max_bits: bits_without_reserve(
                old(enc_control).max_bits as int,
                old(enc_control).payload_size_ms as int,
            ) as i32,
            ..*old(enc_control)
        }),
        final(enc_control).max_bits == bits_without_reserve(
            old(enc_control).max_bits as int,
            old(enc_control).payload_size_ms as int,
        ),
{
    let share: i32 = quotient(wmul(enc_control.max_bits, 5), enc_control.payload_size_ms + 5);
    enc_control.max_bits = wsub(enc_control.max_bits, share);
    enc_control.switch_ready = true;
}

fn clear_filter(lp_state: &mut LpState)
    ensures
        final(lp_state).in_lp_state@ == seq![0i32, 0i32],
        final(lp_state).transition_frame_no == old(lp_state).transition_frame_no,
        final(lp_state).mode == old(lp_state).mode,
        final(lp_state).saved_fs_khz == old(lp_state).saved_fs_khz,
{
    lp_state.in_lp_state = [0;2];
    assert(lp_state.in_lp_state@ =~= seq![0i32, 0i32]);
}

/// Decides on the internal rate of a channel with the settings `common`, and
/// returns it in kHz.
pub fn decide_bandwidth(
    common: &EncoderStateCommon,
    lp_state: &mut LpState,
    enc_control: &mut EncControl,
) -> (r: i32)
    requires
        khz_or_none(common.fs_khz as int),
        khz_or_none(old(lp_state).saved_fs_khz as int),
        common.api_sample_rate_hz >= 0,
        common.desired_internal_sample_rate_hz >= 0,
        common.max_internal_sample_rate_hz >= 0,
        -5 < old(enc_control).payload_size_ms <= 0x7fff_fffa,
    ensures
        ({
            let s = bandwidth_step(*common, *old(lp_state), *old(enc_control));
            &&& r == s.fs_khz
            &&& lp_after(*old(lp_state), s, *final(lp_state))
            &&& *final(enc_control) == (EncControl {
                switch_ready: s.switch_ready,
                max_bits: s.max_bits as i32,
                ..*old(enc_control)
            })
            &&& final(enc_control).max_bits == s.max_bits
        }),
{
    let orig_khz: i32 = if common.fs_khz == 0 {
        lp_state.saved_fs_khz
    } else {
        common.fs_khz
    };
    let orig_hz: i32 = orig_khz * 1000;
    let api: i32 = common.api_sample_rate_hz;
    let desired: i32 = common.desired_internal_sample_rate_hz;
    if orig_hz == 0 {
        let hz: i32 = if desired < api {
            desired
        } else {
            api
        };
        return hz / 1000;
    }
    if orig_hz > api || orig_hz > common.max_internal_sample_rate_hz || orig_hz
        < common.min_internal_sample_rate_hz {
        let mut hz: i32 = if api < common.max_internal_sample_rate_hz {
            api
        } else {
            common.max_internal_sample_rate_hz
        };
        if common.min_internal_sample_rate_hz > hz {
            hz = common.min_internal_sample_rate_hz;
        }
        return hz / 1000;
    }
    if lp_state.transition_frame_no >= TRANSITION_FRAMES {
        lp_state.mode = 0;
    }
    if !common.allow_bandwidth_switch && !enc_control.opus_can_switch {
        return orig_khz;
    }
    if orig_hz > desired {
        if enc_control.opus_can_switch {
            if lp_state.mode == 0 {
                lp_state.transition_frame_no = TRANSITION_FRAMES;
                clear_filter(lp_state);
            }
            lp_state.mode = 0;
            return if orig_khz == 16 {
                12
            } else {
                8
            };
        }
        if lp_state.transition_frame_no <= 0 {
            reserve_frame_bits(enc_control);
        } else {
            if lp_state.mode == 0 {
                lp_state.transition_frame_no = TRANSITION_FRAMES;
                clear_filter(lp_state);
            }
            lp_state.mode = -2;
        }
    } else if orig_hz < desired {
        if enc_control.opus_can_switch {
            lp_state.transition_frame_no = 0;
            clear_filter(lp_state);
            lp_state.mode = 1;
            return if orig_khz == 8 {
                12
            } else {
                16
            };
        }
        if lp_state.mode == 0 {
            reserve_frame_bits(enc_control);
        } else {
            lp_state.mode = 1;
        }
    } else if lp_state.mode < 0 {
        lp_state.mode = 1;
    }
    orig_khz
}

/// Decides on the internal rate of a channel, and returns it in kHz.
pub fn control_audio_bandwidth(
    encoder: &mut EncoderChannelState,
    enc_control: &mut EncControl,
) -> (r: i32)
    requires
        khz_or_none(old(encoder).common.fs_khz as int),
        khz_or_none(old(encoder).lp_state.saved_fs_khz as int),
        old(encoder).common.api_sample_rate_hz >= 0,
        old(encoder).common.desired_internal_sample_rate_hz >= 0,
        old(encoder).common.max_internal_sample_rate_hz >= 0,
        -5 < old(enc_control).payload_size_ms <= 0x7fff_fffa,
    ensures
        ({
            let s = bandwidth_step(old(encoder).common, old(encoder).lp_state, *old(enc_control));
            &&& r == s.fs_khz
            &&& *final(encoder) == (EncoderChannelState {
                lp_state: final(encoder).lp_state,
                ..*old(encoder)
            })
            &&& lp_after(old(encoder).lp_state, s, final(encoder).lp_state)
            &&& *final(enc_control) == (EncControl {
                switch_ready: s.switch_ready,
                max_bits: s.max_bits as i32,
                ..*old(enc_control)
            })
            &&& final(enc_control).max_bits == s.max_bits
        }),
{
    let common: EncoderStateCommon = encoder.common;
    decide_bandwidth(&common, &mut encoder.lp_state, enc_control)
}

/// The allowed rates of a channel are consistent.
pub open spec fn limits_ok(c: EncoderStateCommon) -> bool {
    &&& api_rate_ok(c.api_sample_rate_hz as int)
    &&& internal_rate_ok(c.desired_internal_sample_rate_hz as int)
    &&& internal_rate_ok(c.max_internal_sample_rate_hz as int)
    &&& internal_rate_ok(c.min_internal_sample_rate_hz as int)
    &&& c.min_internal_sample_rate_hz <= c.desired_internal_sample_rate_hz
        <= c.max_internal_sample_rate_hz
}

/// The rate is always one of 8, 12 and 16 kHz. Once it is inside the limits, it
/// changes only when the caller grants it, by one step, towards the desired
/// rate.
pub proof fn law_bandwidth_moves_by_steps(c: EncoderStateCommon, lp: LpState, ctl: EncControl)
    requires
        limits_ok(c),
        khz_or_none(c.fs_khz as int),
        khz_or_none(lp.saved_fs_khz as int),
    ensures
        ({
            let s = bandwidth_step(c, lp, ctl);
            let before = rate_before(c, lp);
            let desired = c.desired_internal_sample_rate_hz as int;
            &&& s.fs_khz == 8 || s.fs_khz == 12 || s.fs_khz == 16
            &&& before != 0 && rate_allowed(c, before * 1000) && s.fs_khz != before ==> {
                &&& ctl.opus_can_switch
                &&& s.fs_khz - before == 4 || s.fs_khz - before == -4
                &&& before * 1000 < desired ==> before < s.fs_khz && s.fs_khz * 1000 <= desired
                &&& before * 1000 > desired ==> s.fs_khz < before && s.fs_khz * 1000 >= desired
                &&& before * 1000 != desired
            }
        }),
{
}

/// While the caller has not granted a change that is wanted, the encoder keeps
/// its rate; when it says that it is ready, it keeps bits for a redundant
/// frame.
pub proof fn law_ready_keeps_rate(c: EncoderStateCommon, lp: LpState, ctl: EncControl)
    requires
        !ctl.opus_can_switch,
        !ctl.switch_ready,
        bandwidth_step(c, lp, ctl).switch_ready,
    ensures
        bandwidth_step(c, lp, ctl).fs_khz == rate_before(c, lp),
        bandwidth_step(c, lp, ctl).max_bits == bits_without_reserve(
            ctl.max_bits as int,
            ctl.payload_size_ms as int,
        ),
{
}

} // verus!

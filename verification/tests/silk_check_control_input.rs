//! Control of the encoder.

use opus_codec::silk::check_control_input::EncControl;
use opus_codec::silk::types::SilkError;

#[test]
fn accepts_valid_configuration() {
    let control = EncControl::default();
    assert_eq!(control.check_control_input(), Ok(()));
}

#[test]
fn rejects_invalid_sample_rates() {
    let mut control = EncControl::default();
    control.api_sample_rate = 11_000;
    assert_eq!(
        control.check_control_input(),
        Err(SilkError::EncFsNotSupported)
    );

    control.api_sample_rate = 16_000;
    control.desired_internal_sample_rate = 20_000;
    assert_eq!(
        control.check_control_input(),
        Err(SilkError::EncFsNotSupported)
    );

    control.desired_internal_sample_rate = 12_000;
    control.max_internal_sample_rate = 8_000;
    assert_eq!(
        control.check_control_input(),
        Err(SilkError::EncFsNotSupported)
    );
}

#[test]
fn validates_payload_size() {
    let mut control = EncControl::default();
    control.payload_size_ms = 15;
    assert_eq!(
        control.check_control_input(),
        Err(SilkError::EncPacketSizeNotSupported)
    );
}

#[test]
fn validates_bit_rate_bounds() {
    let mut control = EncControl::default();
    control.bit_rate = 4_000;
    assert_eq!(
        control.check_control_input(),
        Err(SilkError::EncInvalidBitrate)
    );

    control.bit_rate = 90_000;
    assert_eq!(
        control.check_control_input(),
        Err(SilkError::EncInvalidBitrate)
    );
}

#[test]
fn checks_boolean_flags() {
    let mut control = EncControl::default();
    control.use_dtx = 2;
    assert_eq!(
        control.check_control_input(),
        Err(SilkError::EncInvalidDtxSetting)
    );

    control.use_dtx = 0;
    control.use_cbr = -1;
    assert_eq!(
        control.check_control_input(),
        Err(SilkError::EncInvalidCbrSetting)
    );

    control.use_cbr = 0;
    control.use_in_band_fec = 5;
    assert_eq!(
        control.check_control_input(),
        Err(SilkError::EncInvalidInbandFecSetting)
    );
}

#[test]
fn validates_channel_configuration() {
    let mut control = EncControl::default();
    control.n_channels_api = 0;
    assert_eq!(
        control.check_control_input(),
        Err(SilkError::EncInvalidNumberOfChannelsError)
    );

    control.n_channels_api = 2;
    control.n_channels_internal = 3;
    assert_eq!(
        control.check_control_input(),
        Err(SilkError::EncInvalidNumberOfChannelsError)
    );

    control.n_channels_internal = 2;
    control.n_channels_api = 1;
    assert_eq!(
        control.check_control_input(),
        Err(SilkError::EncInvalidNumberOfChannelsError)
    );
}

#[test]
fn enforces_complexity_bounds() {
    let mut control = EncControl::default();
    control.complexity = 11;
    assert_eq!(
        control.check_control_input(),
        Err(SilkError::EncInvalidComplexitySetting)
    );
}

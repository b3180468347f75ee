# opus_codec

Verified building blocks of the Opus audio codec, in Verus.

- `src/` is the library. Each function states what it computes, and Verus proves
  it.
  - `range`, `range_encoder`, `range_laws`: the range coder; what is written can
    be read back.
  - `packet`: packet headers and frames.
  - `channel_layout`, `rate_allocation`, `opus_decoder`, `opus_encoder`,
    `multistream_*`, `projection`, `projection_decode`: packets of many streams.
  - `silk`: the speech layer: tables, filters, predictors, decoding of frames,
    and the control of the encoder. `decode_run`, `encode_run` and
    `encode_trials` hold the order of steps of a call; `pulse_laws` says that
    pulses are read back as they were written.
  - `weights`, `network_plan`: shapes of network layers.
  - `fixed`: fixed-point arithmetic that wraps or saturates.
- `tests/` runs the library on given values.
- `app/` is what stands around it: floating-point signal processing, and the
  loops that run stream codecs, loss concealment, sample-rate conversion and
  signal analysis where a step of the library asks for it.

Where arithmetic may leave the range of a machine word, it wraps, and the
contracts say so by `wrap32`. A function that other signal processing comes
before takes its result as an argument.

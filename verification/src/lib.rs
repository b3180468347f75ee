//! Verified building blocks of the Opus audio codec.

pub mod channel_layout;
pub mod fixed;
pub mod icdf;
pub mod multistream_decode;
pub mod multistream_decoder;
pub mod multistream_encode;
pub mod multistream_encoder;
pub mod network_plan;
pub mod opus_decoder;
pub mod opus_encoder;
pub mod packet;
pub mod projection;
pub mod projection_decode;
pub mod range;
pub mod range_encoder;
pub mod range_laws;
pub mod rate_allocation;
pub mod routing_laws;
pub mod silk;
pub mod stream_laws;
pub mod upsample;
pub mod weights;

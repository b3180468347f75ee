//! Packet headers: the table-of-contents byte and the division of a packet
//! into frames.

use vstd::prelude::*;

verus! {

/// How a packet tells the number of its frames.
#[derive(Debug, Clone, Copy, PartialEq)]
pub enum FrameCountCode {
    /// One frame.
    Single,
    /// Two frames of the same size.
    DoubleEqual,
    /// Two frames of different sizes.
    DoubleDifferent,
    /// A signalled number of frames, at most 48.
    Arbitrary,
}

/// The layers that code a frame.
#[derive(Debug, PartialEq, Eq, Clone, Copy, Structural)]
pub enum Mode {
    SILK,
    CELT,
    HYBRID,
}

/// Audio bandwidth.
#[derive(Debug, PartialEq, Eq, Clone, Copy, Structural)]
pub enum Bandwidth {
    Narrow,
    Medium,
    Wide,
    SuperWide,
    Full,
}

impl Bandwidth {
    /// The number that stands for the bandwidth in control requests.
    pub open spec fn opus_int(self) -> int {
        match self {
            Bandwidth::Narrow => 1101,
            Bandwidth::Medium => 1102,
            Bandwidth::Wide => 1103,
            Bandwidth::SuperWide => 1104,
            Bandwidth::Full => 1105,
        }
    }

    /// The bandwidth that a number stands for.
    pub fn from_opus_int(value: i32) -> (r: Option<Bandwidth>)
        ensures
            match r {
                Some(b) => b.opus_int() == value,
                None => value < 1101 || value > 1105,
            },
    {
        match value {
            1101 => Some(Bandwidth::Narrow),
            1102 => Some(Bandwidth::Medium),
            1103 => Some(Bandwidth::Wide),
            1104 => Some(Bandwidth::SuperWide),
            1105 => Some(Bandwidth::Full),
            _ => None,
        }
    }

    /// The number that stands for the bandwidth.
    pub fn to_opus_int(&self) -> (r: i32)
        ensures
            r == self.opus_int(),
    {
        match self {
            Bandwidth::Narrow => 1101,
            Bandwidth::Medium => 1102,
            Bandwidth::Wide => 1103,
            Bandwidth::SuperWide => 1104,
            Bandwidth::Full => 1105,
        }
    }

    /// Highest coded frequency in Hz.
    pub fn audio_band_width(&self) -> (r: u16)
        ensures
            r == match *self {
                Bandwidth::Narrow => 4000int,
                Bandwidth::Medium => 6000,
                Bandwidth::Wide => 8000,
                Bandwidth::SuperWide => 12000,
                Bandwidth::Full => 20000,
            },
    {
        match self {
            Bandwidth::Narrow => 4000,
            Bandwidth::Medium => 6000,
            Bandwidth::Wide => 8000,
            Bandwidth::SuperWide => 12000,
            Bandwidth::Full => 20000,
        }
    }

    /// Effective sample rate in Hz.
    pub fn sample_rate(&self) -> (r: u16)
        ensures
            r == match *self {
                Bandwidth::Narrow => 8000int,
                Bandwidth::Medium => 12000,
                Bandwidth::Wide => 16000,
                Bandwidth::SuperWide => 24000,
                Bandwidth::Full => 48000,
            },
    {
        match self {
            Bandwidth::Narrow => 8000,
            Bandwidth::Medium => 12000,
            Bandwidth::Wide => 16000,
            Bandwidth::SuperWide => 24000,
            Bandwidth::Full => 48000,
        }
    }

    /// Samples of a 5 ms subframe, or 0 where the speech layer has no such
    /// bandwidth.
    pub open spec fn subframe_samples(self) -> int {
        match self {
            Bandwidth::Narrow => 40,
            Bandwidth::Medium => 60,
            Bandwidth::Wide => 80,
            _ => 0,
        }
    }

    /// Samples of a 5 ms subframe of the speech layer.
    pub fn samples_in_subframe(&self) -> (r: u8)
        ensures
            r == self.subframe_samples(),
    {
        match self {
            Bandwidth::Narrow => 40,
            Bandwidth::Medium => 60,
            Bandwidth::Wide => 80,
            _ => 0,
        }
    }
}

/// Every bandwidth has a number of its own, from which it is found again.
pub proof fn law_bandwidth_numbers(a: Bandwidth, b: Bandwidth)
    ensures
        a.opus_int() == b.opus_int() ==> a == b,
        1101 <= a.opus_int() <= 1105,
{
}

/// Frame duration.
#[derive(Debug, Clone, Copy, PartialEq)]
pub enum FrameDuration {
    /// 2.5 ms
    Ms2_5,
    /// 5 ms
    Ms5,
    /// 10 ms
    Ms10,
    /// 20 ms
    Ms20,
    /// 40 ms
    Ms40,
    /// 60 ms
    Ms60,
}

impl FrameDuration {
    /// The duration in words.
    pub open spec fn words(self) -> Seq<char> {
        match self {
            FrameDuration::Ms2_5 => "2.5 ms"@,
            FrameDuration::Ms5 => "5 ms"@,
            FrameDuration::Ms10 => "10 ms"@,
            FrameDuration::Ms20 => "20 ms"@,
            FrameDuration::Ms40 => "40 ms"@,
            FrameDuration::Ms60 => "60 ms"@,
        }
    }

    /// The duration as it is shown.
    pub fn text(&self) -> (r: &'static str)
        ensures
            r@ == self.words(),
    {
        match self {
            FrameDuration::Ms2_5 => "2.5 ms",
            FrameDuration::Ms5 => "5 ms",
            FrameDuration::Ms10 => "10 ms",
            FrameDuration::Ms20 => "20 ms",
            FrameDuration::Ms40 => "40 ms",
            FrameDuration::Ms60 => "60 ms",
        }
    }
}

/// A packet and what its first byte says.
#[derive(Debug, Clone, PartialEq)]
pub struct Packet<'a> {
    pub frame_count_code: FrameCountCode,
    pub variable_bitrate: bool,
    pub stereo: bool,
    pub opus_padding: u16,
    pub mode: Mode,
    pub bandwidth: Bandwidth,
    pub frame_duration: FrameDuration,
    pub raw_data: &'a [u8],
}

/// Why a packet is refused.
#[derive(Debug, Clone, Copy, PartialEq, Eq, Structural)]
pub enum PacketError {
    BadArgument,
    InvalidPacket,
}

impl PacketError {
    /// The error's number.
    pub fn code(self) -> (r: i32)
        ensures
            r == match self {
                PacketError::BadArgument => -1int,
                PacketError::InvalidPacket => -4,
            },
    {
        match self {
            PacketError::BadArgument => -1,
            PacketError::InvalidPacket => -4,
        }
    }
}

// ---------------------------------------------------------------------
// The first byte
// ---------------------------------------------------------------------

/// The first byte selects the music layer alone.
pub open spec fn toc_is_celt(toc: u8) -> bool {
    toc >= 128
}

/// The first byte selects both layers.
pub open spec fn toc_is_hybrid(toc: u8) -> bool {
    toc / 32 == 3
}

pub open spec fn toc_mode(toc: u8) -> Mode {
    if toc_is_celt(toc) {
        Mode::CELT
    } else if toc_is_hybrid(toc) {
        Mode::HYBRID
    } else {
        Mode::SILK
    }
}

pub open spec fn toc_bandwidth(toc: u8) -> Bandwidth {
    let field = (toc / 32) % 4;
    match toc_mode(toc) {
        Mode::CELT => if field == 0 {
            Bandwidth::Narrow
        } else if field == 1 {
            Bandwidth::Wide
        } else if field == 2 {
            Bandwidth::SuperWide
        } else {
            Bandwidth::Full
        },
        Mode::HYBRID => if (toc / 16) % 2 == 1 {
            Bandwidth::Full
        } else {
            Bandwidth::SuperWide
        },
        Mode::SILK => if field == 0 {
            Bandwidth::Narrow
        } else if field == 1 {
            Bandwidth::Medium
        } else {
            Bandwidth::Wide
        },
    }
}

pub open spec fn toc_channels(toc: u8) -> int {
    if (toc / 4) % 2 == 1 {
        2
    } else {
        1
    }
}

/// `2^field` for a two-bit field.
pub open spec fn two_to(field: int) -> int {
    if field == 0 {
        1
    } else if field == 1 {
        2
    } else if field == 2 {
        4
    } else {
        8
    }
}

/// Samples of a frame at `fs` Hz, or nothing where they do not fit.
pub open spec fn toc_frame_samples(toc: u8, fs: int) -> Option<int> {
    let field = ((toc / 8) % 4) as int;
    match toc_mode(toc) {
        Mode::CELT => Some((fs * two_to(field)) % 0x1_0000_0000 / 400),
        Mode::HYBRID => Some(
            if (toc / 8) % 2 == 1 {
                fs / 50
            } else {
                fs / 100
            },
        ),
        Mode::SILK => if field == 3 {
            if fs * 60 <= u32::MAX {
                Some(fs * 60 / 1000)
            } else {
                None
            }
        } else {
            Some((fs * two_to(field)) % 0x1_0000_0000 / 100)
        },
    }
}

/// The layers that code the packet's frames.
pub fn opus_packet_get_mode(data: &[u8]) -> (r: Result<Mode, PacketError>)
    ensures
        r == if data@.len() == 0 {
            Err::<Mode, PacketError>(PacketError::BadArgument)
        } else {
            Ok(toc_mode(data@[0]))
        },
{
    if data.len() == 0 {
        return Err(PacketError::BadArgument);
    }
    let toc: u8 = data[0];
    if toc >= 128 {
        Ok(Mode::CELT)
    } else if toc / 32 == 3 {
        Ok(Mode::HYBRID)
    } else {
        Ok(Mode::SILK)
    }
}

/// The bandwidth of the packet's frames.
pub fn opus_packet_get_bandwidth(data: &[u8]) -> (r: Result<Bandwidth, PacketError>)
    ensures
        r == if data@.len() == 0 {
            Err::<Bandwidth, PacketError>(PacketError::BadArgument)
        } else {
            Ok(toc_bandwidth(data@[0]))
        },
{
    if data.len() == 0 {
        return Err(PacketError::BadArgument);
    }
    let toc: u8 = data[0];
    let field: u8 = (toc / 32) % 4;
    if toc >= 128 {
        match field {
            0 => Ok(Bandwidth::Narrow),
            1 => Ok(Bandwidth::Wide),
            2 => Ok(Bandwidth::SuperWide),
            _ => Ok(Bandwidth::Full),
        }
    } else if toc / 32 == 3 {
        if (toc / 16) % 2 == 1 {
            Ok(Bandwidth::Full)
        } else {
            Ok(Bandwidth::SuperWide)
        }
    } else {
        match field {
            0 => Ok(Bandwidth::Narrow),
            1 => Ok(Bandwidth::Medium),
            _ => Ok(Bandwidth::Wide),
        }
    }
}

/// The number of coded channels.
pub fn opus_packet_get_nb_channels(data: &[u8]) -> (r: Result<usize, PacketError>)
    ensures
        match r {
            Ok(n) => data@.len() > 0 && n == toc_channels(data@[0]),
            Err(e) => data@.len() == 0 && e == PacketError::BadArgument,
        },
{
    if data.len() == 0 {
        return Err(PacketError::BadArgument);
    }
    if (data[0] / 4) % 2 == 1 {
        Ok(2)
    } else {
        Ok(1)
    }
}

/// Samples of one frame at `fs_hz`.
pub fn opus_packet_get_samples_per_frame(data: &[u8], fs_hz: u32) -> (r: Result<
    usize,
    PacketError,
>)
    ensures
        match r {
            Ok(n) => data@.len() > 0 && toc_frame_samples(data@[0], fs_hz as int) == Some(
                n as int,
            ),
            Err(e) => (data@.len() == 0 || toc_frame_samples(data@[0], fs_hz as int) is None) && e
                == PacketError::BadArgument,
        },
{
    if data.len() == 0 {
        return Err(PacketError::BadArgument);
    }
    let toc: u8 = data[0];
    let field: u8 = (toc / 8) % 4;
    let step: u64 = match field {
        0 => 1,
        1 => 2,
        2 => 4,
        _ => 8,
    };
    let grown: u32 = ((fs_hz as u64 * step) % 0x1_0000_0000) as u32;
    if toc >= 128 {
        Ok((grown / 400) as usize)
    } else if toc / 32 == 3 {
        if (toc / 8) % 2 == 1 {
            Ok((fs_hz / 50) as usize)
        } else {
            Ok((fs_hz / 100) as usize)
        }
    } else if field == 3 {
        match fs_hz.checked_mul(60) {
            Some(value) => Ok((value / 1000) as usize),
            None => Err(PacketError::BadArgument),
        }
    } else {
        Ok((grown / 100) as usize)
    }
}

/// The number of frames that the first bytes announce.
pub open spec fn announced_frames(p: Seq<u8>) -> int {
    if p[0] % 4 == 0 {
        1
    } else if p[0] % 4 != 3 {
        2
    } else {
        (p[1] % 64) as int
    }
}

/// The number of frames of the packet `packet[..len]`.
pub fn opus_packet_get_nb_frames(packet: &[u8], len: usize) -> (r: Result<usize, PacketError>)
    ensures
        match r {
            Ok(n) => 0 < len <= packet@.len() && (packet@[0] % 4 == 3 ==> len >= 2) && n
                == announced_frames(packet@),
            Err(e) => if len == 0 || len > packet@.len() {
                e == PacketError::BadArgument
            } else {
                e == PacketError::InvalidPacket && packet@[0] % 4 == 3 && len < 2
            },
        },
{
    if len == 0 || len > packet.len() {
        return Err(PacketError::BadArgument);
    }
    let count: u8 = packet[0] % 4;
    if count == 0 {
        return Ok(1);
    }
    if count != 3 {
        return Ok(2);
    }
    if len < 2 {
        return Err(PacketError::InvalidPacket);
    }
    Ok((packet[1] % 64) as usize)
}

/// The packet's samples at `fs`, where its first bytes give them.
pub open spec fn announced_samples(p: Seq<u8>, fs: int) -> int {
    announced_frames(p) * toc_frame_samples(p[0], fs)->0
}

/// The samples of the packet `packet[..len]` at `fs_hz`, which last at most
/// 120 ms.
pub fn opus_packet_get_nb_samples(packet: &[u8], len: usize, fs_hz: u32) -> (r: Result<
    usize,
    PacketError,
>)
    ensures
        ({
            let named = 0 < len <= packet@.len() && (packet@[0] % 4 == 3 ==> len >= 2);
            let timed = named && toc_frame_samples(packet@[0], fs_hz as int) is Some;
            match r {
                Ok(n) => timed && n == announced_samples(packet@, fs_hz as int) && n * 25 <= fs_hz
                    * 3,
                Err(PacketError::BadArgument) => len == 0 || len > packet@.len() || (named
                    && !timed),
                Err(PacketError::InvalidPacket) => 0 < len <= packet@.len() && (!named || (timed
                    && (announced_samples(packet@, fs_hz as int) * 25 > fs_hz * 3))),
            }
        }),
{
    let count: usize = match opus_packet_get_nb_frames(packet, len) {
        Ok(n) => n,
        Err(e) => return Err(e),
    };
    let samples_per_frame: usize = match opus_packet_get_samples_per_frame(packet, fs_hz) {
        Ok(n) => n,
        Err(e) => return Err(e),
    };
    proof {
        assert(announced_frames(packet@) <= 63);
        assert(samples_per_frame <= u32::MAX);
        assert(count * samples_per_frame <= 63 * u32::MAX) by (nonlinear_arith)
            requires
                0 <= count <= 63,
                0 <= samples_per_frame <= u32::MAX,
        ;
    }
    let samples: u64 = count as u64 * samples_per_frame as u64;
    if samples * 25 > fs_hz as u64 * 3 {
        Err(PacketError::InvalidPacket)
    } else {
        Ok(samples as usize)
    }
}

// ---------------------------------------------------------------------
// Division into frames
// ---------------------------------------------------------------------

/// Most frames of a packet.
pub const MAX_FRAMES_PER_PACKET: usize = 48;

/// Most bytes of a frame.
pub const MAX_FRAME_BYTES: usize = 1275;

/// Samples of 120 ms at 48 kHz.
pub const MAX_PACKET_SAMPLES: usize = 5760;

/// The size written at `i`: the bytes that it takes, and its value.
pub open spec fn size_at(p: Seq<u8>, len: int, i: int) -> Option<(int, int)> {
    if i >= len {
        None
    } else if p[i] < 252 {
        Some((1, p[i] as int))
    } else if i + 1 >= len {
        None
    } else {
        Some((2, 4 * p[i + 1] + p[i]))
    }
}

/// The padding announced from `i` on, with `left` bytes still unclaimed: where
/// the announcement ends, what is left and how much padding there is. A byte
/// of 255 stands for 254 bytes and an announcement that goes on.
pub open spec fn padding_at(p: Seq<u8>, i: int, left: int) -> Option<(int, int, int)>
    decreases left,
{
    if left <= 0 {
        None
    } else {
        let claim = if p[i] == 255 {
            254int
        } else {
            p[i] as int
        };
        if left - 1 < claim {
            None
        } else if p[i] == 255 {
            match padding_at(p, i + 1, left - 1 - claim) {
                Some((next, rest, pad)) => Some((next, rest, pad + claim)),
                None => None,
            }
        } else {
            Some((i + 1, left - 1 - claim, claim))
        }
    }
}

/// What a packet says before it gives sizes.
pub struct PacketHead {
    pub count: int,
    /// All frames have the same size.
    pub equal: bool,
    /// Where the sizes start.
    pub start: int,
    /// Bytes for sizes and frames.
    pub left: int,
    pub pad: int,
}

pub open spec fn packet_head(p: Seq<u8>, len: int) -> Option<PacketHead> {
    let code = p[0] % 4;
    if code == 0 {
        Some(PacketHead { count: 1, equal: false, start: 1, left: len - 1, pad: 0 })
    } else if code == 1 {
        Some(PacketHead { count: 2, equal: true, start: 1, left: len - 1, pad: 0 })
    } else if code == 2 {
        Some(PacketHead { count: 2, equal: false, start: 1, left: len - 1, pad: 0 })
    } else if len < 2 {
        None
    } else {
        let count = (p[1] % 64) as int;
        let equal = p[1] < 128;
        if count == 0 || count > MAX_FRAMES_PER_PACKET || count * toc_frame_samples(p[0], 48000)->0
            > MAX_PACKET_SAMPLES {
            None
        } else if (p[1] / 64) % 2 == 0 {
            Some(PacketHead { count, equal, start: 2, left: len - 2, pad: 0 })
        } else {
            match padding_at(p, 2, len - 2) {
                Some((start, left, pad)) => Some(PacketHead { count, equal, start, left, pad }),
                None => None,
            }
        }
    }
}

/// `k` sizes written from `i` on, each followed at the end by that many bytes
/// of the `left`: the sizes, where they end, and what is left.
pub open spec fn sizes_at(p: Seq<u8>, len: int, i: int, left: int, k: nat) -> Option<
    (Seq<int>, int, int),
>
    decreases k,
{
    if k == 0 {
        Some((seq![], i, left))
    } else {
        match size_at(p, len, i) {
            Some((taken, size)) => if taken + size > left {
                None
            } else {
                match sizes_at(p, len, i + taken, left - taken - size, (k - 1) as nat) {
                    Some((rest, end, last)) => Some((seq![size] + rest, end, last)),
                    None => None,
                }
            },
            None => None,
        }
    }
}

/// Where the frames start, their sizes, and the padding behind them.
pub struct PacketLayout {
    pub start: int,
    pub sizes: Seq<int>,
    pub pad: int,
}

/// How `p[..len]` divides into frames. A self-delimited packet also writes the
/// size of its last frame.
pub open spec fn packet_layout(p: Seq<u8>, len: int, self_delimited: bool) -> Option<
    PacketLayout,
> {
    match packet_head(p, len) {
        None => None,
        Some(h) => if h.equal {
            if self_delimited {
                match size_at(p, len, h.start) {
                    Some((taken, size)) => if taken > h.left || size * h.count > h.left - taken {
                        None
                    } else {
                        Some(
                            PacketLayout {
                                start: h.start + taken,
                                sizes: Seq::new(h.count as nat, |i: int| size),
                                pad: h.pad,
                            },
                        )
                    },
                    None => None,
                }
            } else if h.left % h.count != 0 || h.left / h.count > MAX_FRAME_BYTES {
                None
            } else {
                Some(
                    PacketLayout {
                        start: h.start,
                        sizes: Seq::new(h.count as nat, |i: int| h.left / h.count),
                        pad: h.pad,
                    },
                )
            }
        } else {
            match sizes_at(p, len, h.start, h.left, (h.count - 1) as nat) {
                None => None,
                Some((sizes, start, last)) => if self_delimited {
                    match size_at(p, len, start) {
                        Some((taken, size)) => if taken + size > last {
                            None
                        } else {
                            Some(
                                PacketLayout {
                                    start: start + taken,
                                    sizes: sizes.push(size),
                                    pad: h.pad,
                                },
                            )
                        },
                        None => None,
                    }
                } else if last > MAX_FRAME_BYTES {
                    None
                } else {
                    Some(PacketLayout { start, sizes: sizes.push(last), pad: h.pad })
                },
            }
        },
    }
}

/// Sum of the first `k` sizes.
pub open spec fn sum_to(sizes: Seq<int>, k: int) -> int
    decreases k,
{
    if k <= 0 {
        0
    } else {
        sum_to(sizes, k - 1) + sizes[k - 1]
    }
}

/// Where frame `k` starts; where the padding starts for the frame count.
pub open spec fn frame_start(l: PacketLayout, k: int) -> int {
    l.start + sum_to(l.sizes, k)
}

/// A packet divided into its frames.
#[derive(Debug, Clone, PartialEq)]
pub struct ParsedPacket<'a> {
    pub toc: u8,
    pub frame_count: usize,
    pub frames: [&'a [u8]; 48],
    pub frame_sizes: [u16; 48],
    pub payload_offset: usize,
    pub packet_offset: usize,
    pub padding: &'a [u8],
}

impl<'a> ParsedPacket<'a> {
    /// The parts of `p` that a layout names, and nothing behind them.
    pub open spec fn holds(&self, p: Seq<u8>, l: PacketLayout) -> bool {
        let n = l.sizes.len() as int;
        &&& self.toc == p[0]
        &&& self.frame_count == n
        &&& self.payload_offset == l.start
        &&& self.packet_offset == frame_start(l, n) + l.pad
        &&& self.padding@ == p.subrange(frame_start(l, n), frame_start(l, n) + l.pad)
        &&& forall|i: int|
            0 <= i < n ==> {
                &&& #[trigger] self.frame_sizes[i] == l.sizes[i]
                &&& self.frames[i]@ == p.subrange(frame_start(l, i), frame_start(l, i + 1))
            }
        &&& forall|i: int|
            n <= i < 48 ==> {
                &&& #[trigger] self.frame_sizes[i] == 0
                &&& self.frames[i]@.len() == 0
            }
    }
}

proof fn lemma_padding_bounds(p: Seq<u8>, i: int, left: int)
    requires
        left >= 0,
    ensures
        match padding_at(p, i, left) {
            Some((next, rest, pad)) => 0 <= rest && 0 <= pad && next > i && next + rest + pad == i
                + left,
            None => true,
        },
    decreases left,
{
    if left > 0 {
        let claim = if p[i] == 255 {
            254int
        } else {
            p[i] as int
        };
        if left - 1 >= claim && p[i] == 255 {
            lemma_padding_bounds(p, i + 1, left - 1 - claim);
        }
    }
}

proof fn lemma_head_bounds(p: Seq<u8>, len: int)
    requires
        1 <= len,
    ensures
        match packet_head(p, len) {
            Some(h) => 1 <= h.count <= 48 && 0 <= h.left && 0 <= h.pad && 1 <= h.start && h.start
                + h.left + h.pad == len,
            None => true,
        },
{
    if len >= 2 {
        lemma_padding_bounds(p, 2, len - 2);
    }
}

proof fn lemma_size_bounds(p: Seq<u8>, len: int, i: int)
    ensures
        match size_at(p, len, i) {
            Some((taken, size)) => 1 <= taken <= 2 && 0 <= size <= 1275 && i + taken <= len,
            None => true,
        },
{
}

proof fn lemma_sizes_bounds(p: Seq<u8>, len: int, i: int, left: int, k: nat)
    requires
        left >= 0,
    ensures
        match sizes_at(p, len, i, left, k) {
            Some((sizes, end, last)) => {
                &&& sizes.len() == k
                &&& last >= 0
                &&& end >= i
                &&& end + sum_to(sizes, k as int) + last == i + left
                &&& forall|j: int| 0 <= j < k ==> 0 <= #[trigger] sizes[j] <= 1275
            },
            None => true,
        },
    decreases k,
{
    if k > 0 {
        match size_at(p, len, i) {
            Some((taken, size)) => {
                if taken + size <= left {
                    lemma_sizes_bounds(p, len, i + taken, left - taken - size, (k - 1) as nat);
                    match sizes_at(p, len, i + taken, left - taken - size, (k - 1) as nat) {
                        Some((rest, end, last)) => {
                            lemma_sum_cons(size, rest, (k - 1) as int);
                        },
                        None => {},
                    }
                }
            },
            None => {},
        }
    }
}

proof fn lemma_sum_cons(first: int, rest: Seq<int>, k: int)
    requires
        0 <= k <= rest.len(),
    ensures
        sum_to(seq![first] + rest, k + 1) == first + sum_to(rest, k),
    decreases k,
{
    reveal_with_fuel(sum_to, 2);
    if k > 0 {
        lemma_sum_cons(first, rest, k - 1);
    }
}

proof fn lemma_sum_same(a: Seq<int>, b: Seq<int>, k: int)
    requires
        0 <= k <= a.len(),
        k <= b.len(),
        forall|i: int| 0 <= i < k ==> a[i] == b[i],
    ensures
        sum_to(a, k) == sum_to(b, k),
    decreases k,
{
    if k > 0 {
        lemma_sum_same(a, b, k - 1);
    }
}

proof fn lemma_sum_const(sizes: Seq<int>, v: int, k: int)
    requires
        0 <= k <= sizes.len(),
        forall|i: int| 0 <= i < sizes.len() ==> sizes[i] == v,
    ensures
        sum_to(sizes, k) == v * k,
    decreases k,
{
    if k > 0 {
        lemma_sum_const(sizes, v, k - 1);
        assert(v * (k - 1) + v == v * k) by (nonlinear_arith);
    } else {
        assert(v * 0 == 0);
    }
}

proof fn lemma_sum_grows(sizes: Seq<int>, a: int, b: int)
    requires
        0 <= a <= b <= sizes.len(),
        forall|i: int| 0 <= i < sizes.len() ==> 0 <= #[trigger] sizes[i],
    ensures
        0 <= sum_to(sizes, a) <= sum_to(sizes, b),
    decreases b,
{
    if b > a {
        lemma_sum_grows(sizes, a, b - 1);
    } else if a > 0 {
        lemma_sum_grows(sizes, a - 1, a - 1);
    }
}

/// The frames and the padding lie one behind the other inside the packet, in
/// a packet that is not self-delimited up to its very end; no frame is longer
/// than 1275 bytes.
pub proof fn law_layout_inside(p: Seq<u8>, len: int, self_delimited: bool)
    requires
        1 <= len <= p.len(),
    ensures
        match packet_layout(p, len, self_delimited) {
            Some(l) => {
                let n = l.sizes.len() as int;
                &&& 1 <= n <= 48
                &&& 1 <= l.start
                &&& 0 <= l.pad
                &&& forall|i: int| 0 <= i < n ==> 0 <= #[trigger] l.sizes[i] <= 1275
                &&& forall|i: int|
                    0 <= i <= n ==> l.start <= #[trigger] frame_start(l, i) <= frame_start(l, n)
                &&& frame_start(l, n) + l.pad <= len
                &&& !self_delimited ==> frame_start(l, n) + l.pad == len
            },
            None => true,
        },
{
    lemma_head_bounds(p, len);
    match packet_head(p, len) {
        Some(h) => {
            if h.equal {
                if self_delimited {
                    lemma_size_bounds(p, len, h.start);
                } else {
                    vstd::arithmetic::div_mod::lemma_fundamental_div_mod(h.left, h.count);
                    vstd::arithmetic::div_mod::lemma_div_pos_is_pos(h.left, h.count);
                }
            } else {
                lemma_sizes_bounds(p, len, h.start, h.left, (h.count - 1) as nat);
                match sizes_at(p, len, h.start, h.left, (h.count - 1) as nat) {
                    Some((sizes, start, last)) => {
                        lemma_size_bounds(p, len, start);
                    },
                    None => {},
                }
            }
        },
        None => {},
    }
    match packet_layout(p, len, self_delimited) {
        Some(l) => {
            let n = l.sizes.len() as int;
            let h = packet_head(p, len)->0;
            if h.equal {
                let size = l.sizes[0];
                lemma_sum_const(l.sizes, size, n);
                assert(h.left / h.count * h.count == h.count * (h.left / h.count)) by (nonlinear_arith);
            } else {
                let (sizes, start, last) = sizes_at(p, len, h.start, h.left, (h.count - 1) as nat)->0;
                lemma_sum_same(sizes, l.sizes, n - 1);
            }
            assert forall|i: int| 0 <= i <= n implies l.start <= #[trigger] frame_start(l, i)
                <= frame_start(l, n) by {
                lemma_sum_grows(l.sizes, i, n);
            }
        },
        None => {},
    }
}

/// A frame lasts at most 60 ms.
proof fn lemma_frame_samples(toc: u8)
    ensures
        0 <= toc_frame_samples(toc, 48000)->0 <= 2880,
{
    let field = ((toc / 8) % 4) as int;
    assert(field == 0 || field == 1 || field == 2 || field == 3);
}

/// A packet that divides into frames lasts at most 120 ms, and has as many
/// frames as its first bytes announce.
pub proof fn law_layout_count(p: Seq<u8>, len: int, self_delimited: bool)
    requires
        1 <= len <= p.len(),
    ensures
        match packet_layout(p, len, self_delimited) {
            Some(l) => {
                &&& l.sizes.len() == announced_frames(p)
                &&& l.sizes.len() * toc_frame_samples(p[0], 48000)->0 <= MAX_PACKET_SAMPLES
            },
            None => true,
        },
{
    lemma_head_bounds(p, len);
    lemma_frame_samples(p[0]);
    match packet_head(p, len) {
        Some(h) => {
            let each = toc_frame_samples(p[0], 48000)->0;
            lemma_sizes_bounds(p, len, h.start, h.left, (h.count - 1) as nat);
            assert(h.count == announced_frames(p));
            if p[0] % 4 != 3 {
                assert(h.count == 1 || h.count == 2);
                assert(1 * each == each && 2 * each == each + each);
            }
            assert(h.count * each <= MAX_PACKET_SAMPLES);
            if let Some(l) = packet_layout(p, len, self_delimited) {
                assert(l.sizes.len() == h.count);
            }
        },
        None => {},
    }
}

/// The frames of a packet that announces its frame count start behind that
/// count.
pub proof fn lemma_counted_start(p: Seq<u8>, len: int, self_delimited: bool)
    requires
        1 <= len <= p.len(),
        p[0] % 4 == 3,
    ensures
        match packet_layout(p, len, self_delimited) {
            Some(l) => l.start >= 2,
            None => true,
        },
{
    lemma_head_bounds(p, len);
    if len >= 2 {
        lemma_padding_bounds(p, 2, len - 2);
    }
    match packet_head(p, len) {
        Some(h) => {
            lemma_sizes_bounds(p, len, h.start, h.left, (h.count - 1) as nat);
        },
        None => {},
    }
}

/// Reads a size.
fn parse_size(data: &[u8], len: usize, at: usize) -> (r: Option<(usize, usize)>)
    requires
        len <= data@.len(),
    ensures
        match r {
            Some((taken, size)) => size_at(data@, len as int, at as int) == Some(
                (taken as int, size as int),
            ) && at + taken <= len && 1 <= taken <= 2 && size <= 1275,
            None => size_at(data@, len as int, at as int) is None,
        },
{
    if at >= len {
        return None;
    }
    let first: u8 = data[at];
    if first < 252 {
        Some((1, first as usize))
    } else if len - at < 2 {
        None
    } else {
        Some((2, 4 * data[at + 1] as usize + first as usize))
    }
}

/// Reads the padding announcement.
fn parse_padding(data: &[u8], len: usize) -> (r: Option<(usize, usize, usize)>)
    requires
        2 <= len <= data@.len(),
    ensures
        match r {
            Some((next, rest, pad)) => padding_at(data@, 2, len - 2) == Some(
                (next as int, rest as int, pad as int),
            ),
            None => padding_at(data@, 2, len - 2) is None,
        },
{
    let mut at: usize = 2;
    let mut left: usize = len - 2;
    let mut pad: usize = 0;
    let ghost whole = padding_at(data@, 2, len - 2);
    loop
        invariant
            len <= data@.len(),
            2 <= at,
            at + left + pad == len,
            whole == padding_at(data@, 2, len - 2),
            match padding_at(data@, at as int, left as int) {
                Some((next, rest, more)) => whole == Some((next, rest, more + pad)),
                None => whole is None,
            },
        decreases left,
    {
        if left == 0 {
            return None;
        }
        let b: u8 = data[at];
        let claim: usize = if b == 255 {
            254
        } else {
            b as usize
        };
        if left - 1 < claim {
            return None;
        }
        at = at + 1;
        left = left - 1 - claim;
        pad = pad + claim;
        if b != 255 {
            return Some((at, left, pad));
        }
    }
}

/// Puts sizes before those that follow.
spec fn after(prefix: Seq<int>, rest: Option<(Seq<int>, int, int)>) -> Option<
    (Seq<int>, int, int),
> {
    match rest {
        Some((sizes, end, last)) => Some((prefix + sizes, end, last)),
        None => None,
    }
}

/// The parsed form of a packet's head.
struct HeadFields {
    count: usize,
    equal: bool,
    start: usize,
    left: usize,
    pad: usize,
}

impl View for HeadFields {
    type V = PacketHead;

    closed spec fn view(&self) -> PacketHead {
        PacketHead {
            count: self.count as int,
            equal: self.equal,
            start: self.start as int,
            left: self.left as int,
            pad: self.pad as int,
        }
    }
}

/// Reads what a packet says before it gives sizes.
fn parse_head(packet: &[u8], len: usize) -> (r: Option<HeadFields>)
    requires
        1 <= len <= packet@.len(),
    ensures
        match r {
            Some(h) => packet_head(packet@, len as int) == Some(h@),
            None => packet_head(packet@, len as int) is None,
        },
{
    let toc: u8 = packet[0];
    let code: u8 = toc % 4;
    let left: usize = len - 1;
    if code == 0 {
        return Some(HeadFields { count: 1, equal: false, start: 1, left, pad: 0 });
    }
    if code == 1 {
        return Some(HeadFields { count: 2, equal: true, start: 1, left, pad: 0 });
    }
    if code == 2 {
        return Some(HeadFields { count: 2, equal: false, start: 1, left, pad: 0 });
    }
    if len < 2 {
        return None;
    }
    let framesize: usize = match opus_packet_get_samples_per_frame(packet, 48_000) {
        Ok(v) => v,
        Err(_) => return None,
    };
    let ch: u8 = packet[1];
    let count: usize = (ch % 64) as usize;
    let equal: bool = ch < 128;
    if count == 0 || count > MAX_FRAMES_PER_PACKET {
        return None;
    }
    proof {
        assert(framesize <= 2880);
        assert(count * framesize <= 48 * 2880) by (nonlinear_arith)
            requires
                0 <= count <= 48,
                0 <= framesize <= 2880,
        ;
    }
    if count * framesize > MAX_PACKET_SAMPLES {
        return None;
    }
    if (ch / 64) % 2 == 0 {
        return Some(HeadFields { count, equal, start: 2, left: len - 2, pad: 0 });
    }
    match parse_padding(packet, len) {
        Some((start, rest, pad)) => Some(HeadFields { count, equal, start, left: rest, pad }),
        None => None,
    }
}

/// The array starts with the sizes, and is zero behind them.
spec fn sizes_held(sizes: [u16; 48], want: Seq<int>) -> bool {
    &&& want.len() <= 48
    &&& forall|j: int| 0 <= j < want.len() ==> #[trigger] sizes[j] == want[j]
    &&& forall|j: int| want.len() <= j < 48 ==> #[trigger] sizes[j] == 0
}

/// `count` equal sizes.
fn equal_sizes(each: u16, count: usize) -> (sizes: [u16; 48])
    requires
        count <= 48,
    ensures
        sizes_held(sizes, Seq::new(count as nat, |i: int| each as int)),
{
    let mut sizes: [u16; 48] = [0;48];
    for i in 0..count
        invariant
            count <= 48,
            forall|j: int| 0 <= j < i ==> #[trigger] sizes[j] == each,
            forall|j: int| i <= j < 48 ==> #[trigger] sizes[j] == 0,
    {
        sizes[i] = each;
    }
    sizes
}

/// Reads `k` sizes from `start` on: the sizes, where they end, and what is
/// left for the last frame.
fn parse_sizes(packet: &[u8], len: usize, start: usize, room: usize, k: usize) -> (r: Option<
    ([u16; 48], usize, usize),
>)
    requires
        k < 48,
        start + room <= len <= packet@.len(),
    ensures
        match r {
            Some((sizes, end, last)) => match sizes_at(
                packet@,
                len as int,
                start as int,
                room as int,
                k as nat,
            ) {
                Some((want, e, l)) => sizes_held(sizes, want) && want.len() == k && end == e && last
                    == l,
                None => false,
            },
            None => sizes_at(packet@, len as int, start as int, room as int, k as nat) is None,
        },
{
    let mut sizes: [u16; 48] = [0;48];
    let mut at: usize = start;
    let mut left: usize = room;
    let ghost p = packet@;
    let ghost n = len as int;
    let ghost whole = sizes_at(p, n, start as int, room as int, k as nat);
    let ghost mut prefix: Seq<int> = seq![];
    proof {
        match whole {
            Some((s0, e0, l0)) => assert(prefix + s0 =~= s0),
            None => {},
        }
    }
    for i in 0..k
        invariant
            k < 48,
            p == packet@,
            n == len,
            len <= packet@.len(),
            at + left <= len,
            prefix.len() == i,
            whole == after(prefix, sizes_at(p, n, at as int, left as int, (k - i) as nat)),
            sizes_held(sizes, prefix),
            whole == sizes_at(p, n, start as int, room as int, k as nat),
    {
        match parse_size(packet, len, at) {
            Some((taken, size)) => {
                if taken + size > left {
                    return None;
                }
                sizes[i] = size as u16;
                at = at + taken;
                left = left - taken - size;
                proof {
                    match sizes_at(p, n, at as int, left as int, (k - 1 - i) as nat) {
                        Some((rest, e, l)) => {
                            assert(prefix + (seq![size as int] + rest) =~= prefix.push(size as int)
                                + rest);
                        },
                        None => {},
                    }
                    prefix = prefix.push(size as int);
                }
            },
            None => return None,
        }
    }
    assert(prefix + seq![] =~= prefix);
    Some((sizes, at, left))
}

/// Finds where the frames start and how long they are.
fn parse_layout(packet: &[u8], len: usize, self_delimited: bool) -> (r: Option<
    (usize, [u16; 48], usize, usize),
>)
    requires
        1 <= len <= packet@.len(),
    ensures
        match r {
            Some((count, sizes, start, pad)) => match packet_layout(
                packet@,
                len as int,
                self_delimited,
            ) {
                Some(l) => l.sizes.len() == count && sizes_held(sizes, l.sizes) && l.start == start
                    && l.pad == pad,
                None => false,
            },
            None => packet_layout(packet@, len as int, self_delimited) is None,
        },
{
    let head: HeadFields = match parse_head(packet, len) {
        Some(h) => h,
        None => return None,
    };
    proof {
        lemma_head_bounds(packet@, len as int);
    }
    let ghost h = head@;
    let count: usize = head.count;
    if head.equal {
        if self_delimited {
            match parse_size(packet, len, head.start) {
                Some((taken, size)) => {
                    proof {
                        assert(size * count <= 1275 * 48) by (nonlinear_arith)
                            requires
                                0 <= size <= 1275,
                                0 <= count <= 48,
                        ;
                    }
                    if taken > head.left || size * count > head.left - taken {
                        return None;
                    }
                    let sizes: [u16; 48] = equal_sizes(size as u16, count);
                    Some((count, sizes, head.start + taken, head.pad))
                },
                None => None,
            }
        } else {
            if head.left % count != 0 || head.left / count > MAX_FRAME_BYTES {
                return None;
            }
            let sizes: [u16; 48] = equal_sizes((head.left / count) as u16, count);
            Some((count, sizes, head.start, head.pad))
        }
    } else {
        proof {
            lemma_sizes_bounds(packet@, len as int, h.start, h.left, (h.count - 1) as nat);
        }
        let (mut sizes, at, left) = match parse_sizes(
            packet,
            len,
            head.start,
            head.left,
            count - 1,
        ) {
            Some(found) => found,
            None => return None,
        };
        if self_delimited {
            match parse_size(packet, len, at) {
                Some((taken, size)) => {
                    if taken + size > left {
                        return None;
                    }
                    sizes[count - 1] = size as u16;
                    Some((count, sizes, at + taken, head.pad))
                },
                None => None,
            }
        } else {
            if left > MAX_FRAME_BYTES {
                return None;
            }
            sizes[count - 1] = left as u16;
            Some((count, sizes, at, head.pad))
        }
    }
}

/// Divides `packet[..len]` into its frames.
pub fn opus_packet_parse_impl<'a>(
    packet: &'a [u8],
    len: usize,
    self_delimited: bool,
) -> (r: Result<ParsedPacket<'a>, PacketError>)
    ensures
        match r {
            Ok(parsed) => 0 < len <= packet@.len() && match packet_layout(
                packet@,
                len as int,
                self_delimited,
            ) {
                Some(l) => parsed.holds(packet@, l),
                None => false,
            },
            Err(PacketError::BadArgument) => len > packet@.len(),
            Err(PacketError::InvalidPacket) => len <= packet@.len() && (len == 0 || packet_layout(
                packet@,
                len as int,
                self_delimited,
            ) is None),
        },
{
    if len > packet.len() {
        return Err(PacketError::BadArgument);
    }
    if len == 0 {
        return Err(PacketError::InvalidPacket);
    }
    let ghost p = packet@;
    let (count, sizes, start, pad) = match parse_layout(packet, len, self_delimited) {
        Some(found) => found,
        None => return Err(PacketError::InvalidPacket),
    };
    let ghost l = packet_layout(p, len as int, self_delimited)->0;
    proof {
        law_layout_inside(p, len as int, self_delimited);
    }
    let empty: &'a [u8] = &packet[0..0];
    let mut frames: [&'a [u8]; 48] = [empty;48];
    let mut cursor: usize = start;
    for i in 0..count
        invariant
            count <= 48,
            p == packet@,
            len <= packet@.len(),
            l.sizes.len() == count,
            sizes_held(sizes, l.sizes),
            cursor == frame_start(l, i as int),
            frame_start(l, count as int) + l.pad <= len,
            l.pad >= 0,
            l.start >= 0,
            forall|j: int| 0 <= j < count ==> 0 <= #[trigger] l.sizes[j],
            forall|j: int|
                0 <= j <= count ==> l.start <= #[trigger] frame_start(l, j) <= frame_start(
                    l,
                    count as int,
                ),
            forall|j: int|
                0 <= j < i ==> (#[trigger] frames[j])@ == p.subrange(
                    frame_start(l, j),
                    frame_start(l, j + 1),
                ),
            forall|j: int| i <= j < 48 ==> (#[trigger] frames[j])@.len() == 0,
    {
        let size: usize = sizes[i] as usize;
        assert(frame_start(l, i + 1) == cursor + size);
        frames[i] = &packet[cursor..cursor + size];
        cursor = cursor + size;
    }
    Ok(
        ParsedPacket {
            toc: packet[0],
            frame_count: count,
            frames,
            frame_sizes: sizes,
            payload_offset: start,
            packet_offset: cursor + pad,
            padding: &packet[cursor..cursor + pad],
        },
    )
}

/// Divides a packet that is not self-delimited into its frames.
pub fn opus_packet_parse<'a>(packet: &'a [u8], len: usize) -> (r: Result<
    ParsedPacket<'a>,
    PacketError,
>)
    ensures
        match r {
            Ok(parsed) => 0 < len <= packet@.len() && match packet_layout(
                packet@,
                len as int,
                false,
            ) {
                Some(l) => parsed.holds(packet@, l),
                None => false,
            },
            Err(PacketError::BadArgument) => len > packet@.len(),
            Err(PacketError::InvalidPacket) => len <= packet@.len() && (len == 0 || packet_layout(
                packet@,
                len as int,
                false,
            ) is None),
        },
{
    opus_packet_parse_impl(packet, len, false)
}

} // verus!

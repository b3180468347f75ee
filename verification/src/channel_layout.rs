//! How the channels of a multistream packet are spread over its streams.
use vstd::prelude::*;

verus! {

/// How the channels were chosen.
#[derive(Debug, Clone, Copy, PartialEq, Eq, Structural)]
pub enum MappingType {
    Plain,
    Surround,
    Ambisonics,
}

/// The channels and streams of a multistream packet. The coupled streams come
/// first; coupled stream `s` carries the inputs `2 s` and `2 s + 1`, and each
/// other stream `s` the input `s + nb_coupled_streams`. Channel `c` takes input
/// `mapping[c]`, or silence where that is 255.
#[derive(Debug, Clone, PartialEq, Eq)]
pub struct ChannelLayout {
    pub nb_channels: usize,
    pub nb_streams: usize,
    pub nb_coupled_streams: usize,
    pub mapping: [u8; 256],
}

impl ChannelLayout {
    /// Streams and coupled streams fit a byte, and every channel is silent or
    /// takes an input that exists.
    pub open spec fn valid(self) -> bool {
        let inputs = self.nb_streams + self.nb_coupled_streams;
        &&& inputs <= 255
        &&& self.nb_channels <= 256
        &&& forall|c: int|
            0 <= c < self.nb_channels ==> #[trigger] self.mapping[c] == 255 || self.mapping[c]
                < inputs
    }

    /// Channel `c` takes input `input`.
    pub open spec fn takes(self, c: int, input: int) -> bool {
        0 <= c < self.nb_channels && c < 256 && self.mapping@[c] == input
    }

    /// Some channel takes input `input`.
    pub open spec fn fed(self, input: int) -> bool {
        exists|c: int| #[trigger] self.takes(c, input)
    }

    /// Every input of stream `s` has a channel.
    pub open spec fn stream_fed(self, s: int) -> bool {
        if s < self.nb_coupled_streams {
            self.fed(2 * s) && self.fed(2 * s + 1)
        } else {
            self.fed(s + self.nb_coupled_streams)
        }
    }

    /// Every input of every stream has a channel.
    pub open spec fn complete(self) -> bool {
        forall|s: int| 0 <= s < self.nb_streams ==> #[trigger] self.stream_fed(s)
    }

    /// `r` is the first channel behind `prev` that takes input `input`.
    pub open spec fn next_taking(self, input: int, prev: Option<usize>, r: Option<usize>) -> bool {
        let start = match prev {
            Some(p) => p + 1,
            None => 0int,
        };
        match r {
            Some(c) => {
                &&& start <= c
                &&& self.takes(c as int, input)
                &&& forall|d: int| start <= d < c ==> !#[trigger] self.takes(d, input)
            },
            None => forall|d: int| start <= d ==> !#[trigger] self.takes(d, input),
        }
    }
}

/// Whether the layout only names streams that exist.
pub fn validate_layout(layout: &ChannelLayout) -> (r: bool)
    ensures
        r == layout.valid(),
{
    let max_channel: usize = match layout.nb_streams.checked_add(layout.nb_coupled_streams) {
        Some(n) => n,
        None => return false,
    };
    if max_channel > 255 || layout.nb_channels > 256 {
        return false;
    }
    for c in 0..layout.nb_channels
        invariant
            layout.nb_channels <= 256,
            max_channel == layout.nb_streams + layout.nb_coupled_streams,
            forall|d: int|
                0 <= d < c ==> #[trigger] layout.mapping[d] == 255 || layout.mapping[d]
                    < max_channel,
    {
        let value: u8 = layout.mapping[c];
        if value != 255 && value as usize >= max_channel {
            assert(layout.mapping[c as int] == value);
            return false;
        }
    }
    true
}

fn next_index(prev: Option<usize>) -> (r: Option<usize>)
    ensures
        match prev {
            Some(p) => if p < usize::MAX {
                r == Some((p + 1) as usize)
            } else {
                r is None
            },
            None => r == Some(0usize),
        },
{
    match prev {
        Some(p) => p.checked_add(1),
        None => Some(0),
    }
}

fn find_channel(layout: &ChannelLayout, start: usize, target: usize) -> (r: Option<usize>)
    ensures
        match r {
            Some(c) => {
                &&& start <= c
                &&& layout.takes(c as int, target as int)
                &&& forall|d: int| start <= d < c ==> !#[trigger] layout.takes(d, target as int)
            },
            None => forall|d: int| start <= d ==> !#[trigger] layout.takes(d, target as int),
        },
{
    let limit: usize = if layout.nb_channels < 256 {
        layout.nb_channels
    } else {
        256
    };
    if start >= limit {
        return None;
    }
    for c in start..limit
        invariant
            limit <= 256,
            limit <= layout.nb_channels,
            limit == layout.nb_channels || limit == 256,
            forall|d: int| start <= d < c ==> !#[trigger] layout.takes(d, target as int),
    {
        if layout.mapping[c] as usize == target {
            return Some(c);
        }
    }
    None
}

/// The next channel behind `prev` that takes the left side of coupled stream
/// `stream_id`.
pub fn get_left_channel(layout: &ChannelLayout, stream_id: usize, prev: Option<usize>) -> (r: Option<
    usize,
>)
    ensures
        layout.next_taking(2 * stream_id, prev, r),
{
    let target: usize = match stream_id.checked_mul(2) {
        Some(t) => t,
        None => return None,
    };
    let start: usize = match next_index(prev) {
        Some(s) => s,
        None => return None,
    };
    find_channel(layout, start, target)
}

/// The next channel behind `prev` that takes the right side of coupled stream
/// `stream_id`.
pub fn get_right_channel(layout: &ChannelLayout, stream_id: usize, prev: Option<usize>) -> (r: Option<
    usize,
>)
    ensures
        layout.next_taking(2 * stream_id + 1, prev, r),
{
    let target: usize = match stream_id.checked_mul(2) {
        Some(t) => match t.checked_add(1) {
            Some(u) => u,
            None => return None,
        },
        None => return None,
    };
    let start: usize = match next_index(prev) {
        Some(s) => s,
        None => return None,
    };
    find_channel(layout, start, target)
}

/// The next channel behind `prev` that takes the stream `stream_id`, which is
/// not coupled.
pub fn get_mono_channel(layout: &ChannelLayout, stream_id: usize, prev: Option<usize>) -> (r: Option<
    usize,
>)
    ensures
        layout.next_taking(stream_id + layout.nb_coupled_streams, prev, r),
{
    let target: usize = match stream_id.checked_add(layout.nb_coupled_streams) {
        Some(t) => t,
        None => return None,
    };
    let start: usize = match next_index(prev) {
        Some(s) => s,
        None => return None,
    };
    find_channel(layout, start, target)
}

/// Whether every stream of the layout has its channels.
pub fn validate_encoder_layout(layout: &ChannelLayout) -> (r: bool)
    ensures
        r == layout.complete(),
{
    for stream in 0..layout.nb_streams
        invariant
            forall|s: int| 0 <= s < stream ==> #[trigger] layout.stream_fed(s),
    {
        let ghost s = stream as int;
        if stream < layout.nb_coupled_streams {
            let left: Option<usize> = get_left_channel(layout, stream, None);
            if left.is_none() {
                assert(!layout.fed(2 * s));
                assert(!layout.stream_fed(s));
                return false;
            }
            assert(layout.takes(left->0 as int, 2 * s));
            let right: Option<usize> = get_right_channel(layout, stream, None);
            if right.is_none() {
                assert(!layout.fed(2 * s + 1));
                assert(!layout.stream_fed(s));
                return false;
            }
            assert(layout.takes(right->0 as int, 2 * s + 1));
        } else {
            let mono: Option<usize> = get_mono_channel(layout, stream, None);
            if mono.is_none() {
                assert(!layout.fed(s + layout.nb_coupled_streams));
                assert(!layout.stream_fed(s));
                return false;
            }
            assert(layout.takes(mono->0 as int, s + layout.nb_coupled_streams));
        }
    }
    true
}

/// The largest number whose square is not above `value`.
pub fn isqrt32(value: u32) -> (r: u32)
    ensures
        r * r <= value < (r + 1) * (r + 1),
{
    let mut root: u32 = 0;
    while (root as u64 + 1) * (root as u64 + 1) <= value as u64
        invariant
            root <= 65535,
            root * root <= value,
            (root + 1) * (root + 1) <= 0x1_0000_0000,
        decreases 65536 - root,
    {
        proof {
            assert(root + 1 < 65536) by (nonlinear_arith)
                requires
                    (root + 1) * (root + 1) <= value,
                    value <= 0xFFFF_FFFF,
            ;
            assert((root + 2) * (root + 2) <= 0x1_0000_0000) by (nonlinear_arith)
                requires
                    0 <= root,
                    root + 1 < 65536,
            ;
        }
        root = root + 1;
    }
    root
}

/// Streams and coupled streams of `channels` ambisonics channels: a full set
/// of `n * n` channels, each a stream of its own, with or without one coupled
/// stream of two more channels.
pub open spec fn ambisonics_streams(channels: int) -> Option<(int, int)> {
    if !(1 <= channels <= 227) {
        None
    } else if exists|n: int| n >= 1 && #[trigger] (n * n) == channels {
        Some((channels, 0))
    } else if exists|n: int| n >= 1 && #[trigger] (n * n) == channels - 2 {
        Some((channels - 1, 1))
    } else {
        None
    }
}

/// The square that `channels` reaches is the only one that can be it, or lie
/// two below it.
pub proof fn lemma_square_below(channels: int, n: int, m: int)
    requires
        n >= 1,
        m >= 1,
        n * n <= channels < (n + 1) * (n + 1),
        m * m == channels || m * m == channels - 2,
    ensures
        m == n || (m == n - 1 && n * n == channels && n == 1) || m * m == n * n,
{
    assert(m <= n) by (nonlinear_arith)
        requires
            n >= 1,
            m >= 1,
            m * m <= channels,
            channels < (n + 1) * (n + 1),
    ;
    if m < n {
        assert(m * m <= (n - 1) * (n - 1)) by (nonlinear_arith)
            requires
                1 <= m <= n - 1,
        ;
        assert((n - 1) * (n - 1) == n * n - 2 * n + 1) by (nonlinear_arith);
        assert(n <= 1);
    }
}

/// Streams and coupled streams of an ambisonics channel count.
pub fn validate_ambisonics(channels: usize) -> (r: Option<(usize, usize)>)
    ensures
        match ambisonics_streams(channels as int) {
            Some((s, c)) => r == Some((s as usize, c as usize)) && 1 <= s <= 227 && 0 <= c <= 1,
            None => r is None,
        },
{
    if channels < 1 || channels > 227 {
        return None;
    }
    let root: u32 = isqrt32(channels as u32);
    proof {
        assert(1 <= root <= 15) by (nonlinear_arith)
            requires
                root * root <= channels < (root + 1) * (root + 1),
                1 <= channels <= 227,
                root >= 0,
        ;
        assert(root * root <= 227);
    }
    let acn: usize = (root * root) as usize;
    let extra: usize = channels - acn;
    proof {
        let n = root as int;
        assert(n * n == acn);
        assert forall|m: int| m >= 1 && #[trigger] (m * m) == channels implies extra == 0 by {
            lemma_square_below(channels as int, n, m);
        }
        assert forall|m: int| m >= 1 && #[trigger] (m * m) == channels - 2 implies extra == 2 by {
            lemma_square_below(channels as int, n, m);
        }
    }
    if extra != 0 && extra != 2 {
        return None;
    }
    if extra == 0 {
        Some((acn, 0))
    } else {
        Some((acn + 1, 1))
    }
}

/// The order above the ambisonics order of a channel count.
pub open spec fn ambisonics_order(channels: int, n: int) -> bool {
    1 <= channels <= 227 && n >= 1 && (n * n == channels || n * n == channels - 2)
}

/// A channel count has at most one order.
pub proof fn law_one_order(channels: int, n: int, m: int)
    requires
        ambisonics_order(channels, n),
        ambisonics_order(channels, m),
    ensures
        n == m,
{
    assert(n < 16) by (nonlinear_arith)
        requires
            n >= 1,
            n * n <= 227,
    ;
    assert(m < 16) by (nonlinear_arith)
        requires
            m >= 1,
            m * m <= 227,
    ;
    if n < m {
        assert(m * m - n * n >= m + n) by (nonlinear_arith)
            requires
                1 <= n < m,
        ;
    }
    if m < n {
        assert(n * n - m * m >= m + n) by (nonlinear_arith)
            requires
                1 <= m < n,
        ;
    }
}

/// The order above the ambisonics order of `channels`.
pub fn get_order_plus_one_from_channels(channels: usize) -> (r: Option<usize>)
    ensures
        match r {
            Some(n) => ambisonics_order(channels as int, n as int) && 1 <= n <= 15,
            None => forall|n: int| !ambisonics_order(channels as int, n),
        },
{
    if channels < 1 || channels > 227 {
        return None;
    }
    let root: u32 = isqrt32(channels as u32);
    proof {
        assert(1 <= root <= 15) by (nonlinear_arith)
            requires
                root * root <= channels < (root + 1) * (root + 1),
                1 <= channels <= 227,
                root >= 0,
        ;
    }
    let acn: usize = (root * root) as usize;
    let extra: usize = channels - acn;
    if extra != 0 && extra != 2 {
        assert forall|m: int| !ambisonics_order(channels as int, m) by {
            if ambisonics_order(channels as int, m) {
                lemma_square_below(channels as int, root as int, m);
            }
        }
        return None;
    }
    Some(root as usize)
}

/// Streams and coupled streams of mapping family 1 for 1 to 8 channels.
pub const VORBIS_STREAMS: [(usize, usize); 8] = [
    (1, 0),
    (1, 1),
    (2, 1),
    (2, 2),
    (3, 2),
    (4, 2),
    (4, 3),
    (5, 3),
];

/// Channel orders of mapping family 1 for 1 to 8 channels.
pub const VORBIS_MAPPINGS: [[u8; 8]; 8] = [
    [0, 255, 255, 255, 255, 255, 255, 255],
    [0, 1, 255, 255, 255, 255, 255, 255],
    [0, 2, 1, 255, 255, 255, 255, 255],
    [0, 1, 2, 3, 255, 255, 255, 255],
    [0, 4, 1, 2, 3, 255, 255, 255],
    [0, 4, 1, 2, 3, 5, 255, 255],
    [0, 4, 1, 2, 3, 5, 6, 255],
    [0, 6, 1, 2, 3, 4, 5, 7],
];

/// Why a mapping family gives no layout for a channel count.
#[derive(Debug, Clone, Copy, PartialEq, Eq, Structural)]
pub enum SurroundError {
    BadArgument,
    Unimplemented,
}

/// The streams, coupled streams and channel order of a mapping family.
pub open spec fn family_layout(channels: int, family: int) -> Result<
    (int, int, Seq<u8>),
    SurroundError,
> {
    if !(1 <= channels <= 255) {
        Err(SurroundError::BadArgument)
    } else if family == 0 {
        if channels == 1 {
            Ok((1, 0, seq![0u8]))
        } else if channels == 2 {
            Ok((1, 1, seq![0u8, 1u8]))
        } else {
            Err(SurroundError::Unimplemented)
        }
    } else if family == 1 {
        if channels <= 8 {
            Ok(
                (
                    VORBIS_STREAMS[channels - 1].0 as int,
                    VORBIS_STREAMS[channels - 1].1 as int,
                    VORBIS_MAPPINGS[channels - 1]@.take(channels),
                ),
            )
        } else {
            Err(SurroundError::Unimplemented)
        }
    } else if family == 255 {
        Ok((channels, 0, Seq::new(channels as nat, |i: int| i as u8)))
    } else if family == 2 {
        match ambisonics_streams(channels) {
            Some((streams, coupled)) => Ok(
                (
                    streams,
                    coupled,
                    Seq::new(
                        channels as nat,
                        |i: int|
                            if i < streams - coupled {
                                (i + 2 * coupled) as u8
                            } else {
                                (i - (streams - coupled)) as u8
                            },
                    ),
                ),
            ),
            None => Err(SurroundError::BadArgument),
        }
    } else {
        Err(SurroundError::Unimplemented)
    }
}

/// The streams, coupled streams and channel order of a mapping family.
pub fn surround_layout(channels: usize, mapping_family: u8) -> (r: Result<
    (usize, usize, Vec<u8>),
    SurroundError,
>)
    ensures
        match r {
            Ok((streams, coupled, mapping)) => family_layout(channels as int, mapping_family as int)
                == Ok::<(int, int, Seq<u8>), SurroundError>(
                (streams as int, coupled as int, mapping@),
            ) && mapping@.len() == channels,
            Err(e) => family_layout(channels as int, mapping_family as int) == Err::<
                (int, int, Seq<u8>),
                SurroundError,
            >(e),
        },
{
    if channels == 0 || channels > 255 {
        return Err(SurroundError::BadArgument);
    }
    let mut mapping: Vec<u8> = Vec::new();
    if mapping_family == 0 {
        if channels == 1 {
            mapping.push(0);
            assert(mapping@ =~= seq![0u8]);
            Ok((1, 0, mapping))
        } else if channels == 2 {
            mapping.push(0);
            mapping.push(1);
            assert(mapping@ =~= seq![0u8, 1u8]);
            Ok((1, 1, mapping))
        } else {
            Err(SurroundError::Unimplemented)
        }
    } else if mapping_family == 1 {
        if channels > 8 {
            return Err(SurroundError::Unimplemented);
        }
        let row: [u8; 8] = VORBIS_MAPPINGS[channels - 1];
        for i in 0..channels
            invariant
                channels <= 8,
                mapping@ == row@.take(i as int),
        {
            mapping.push(row[i]);
            assert(mapping@ =~= row@.take(i + 1));
        }
        let counts: (usize, usize) = VORBIS_STREAMS[channels - 1];
        Ok((counts.0, counts.1, mapping))
    } else if mapping_family == 255 {
        for i in 0..channels
            invariant
                channels <= 255,
                mapping@ == Seq::new(i as nat, |j: int| j as u8),
        {
            mapping.push(i as u8);
            assert(mapping@ =~= Seq::new((i + 1) as nat, |j: int| j as u8));
        }
        Ok((channels, 0, mapping))
    } else if mapping_family == 2 {
        match validate_ambisonics(channels) {
            Some((streams, coupled)) => {
                let plain: usize = streams - coupled;
                let ghost whole = family_layout(channels as int, 2)->Ok_0.2;
                assert(plain + 2 * coupled == channels);
                for i in 0..channels
                    invariant
                        channels <= 255,
                        plain == streams - coupled,
                        plain + 2 * coupled == channels,
                        coupled <= 1,
                        whole == Seq::new(
                            channels as nat,
                            |j: int|
                                if j < streams as int - coupled as int {
                                    (j + 2 * coupled as int) as u8
                                } else {
                                    (j - (streams as int - coupled as int)) as u8
                                },
                        ),
                        mapping@ == whole.take(i as int),
                {
                    if i < plain {
                        mapping.push((i + 2 * coupled) as u8);
                    } else {
                        mapping.push((i - plain) as u8);
                    }
                    assert(mapping@ =~= whole.take(i + 1));
                }
                assert(mapping@ =~= whole);
                Ok((streams, coupled, mapping))
            },
            None => Err(SurroundError::BadArgument),
        }
    } else {
        Err(SurroundError::Unimplemented)
    }
}

/// How the channels of a mapping family were chosen, and which stream carries
/// the low frequency effects: the last one, with 6 or more surround channels.
pub open spec fn family_type(channels: int, family: int, streams: int) -> (
    MappingType,
    Option<int>,
) {
    if family == 1 && channels > 2 {
        (
            MappingType::Surround,
            if channels >= 6 && streams >= 1 {
                Some(streams - 1)
            } else {
                None
            },
        )
    } else if family == 2 {
        (MappingType::Ambisonics, None)
    } else {
        (MappingType::Plain, None)
    }
}

/// How the channels of a mapping family were chosen, and which stream carries
/// the low frequency effects.
pub fn surround_mapping_type(channels: usize, mapping_family: u8, streams: usize) -> (r: (
    MappingType,
    Option<usize>,
))
    ensures
        ({
            let (kind, lfe) = family_type(channels as int, mapping_family as int, streams as int);
            &&& r.0 == kind
            &&& match lfe {
                Some(s) => r.1 == Some(s as usize),
                None => r.1 is None,
            }
        }),
{
    if mapping_family == 1 && channels > 2 {
        if channels >= 6 {
            (MappingType::Surround, streams.checked_sub(1))
        } else {
            (MappingType::Surround, None)
        }
    } else if mapping_family == 2 {
        (MappingType::Ambisonics, None)
    } else {
        (MappingType::Plain, None)
    }
}

/// The layout that a channel order gives: channels behind it are silent.
pub open spec fn layout_of(
    channels: usize,
    streams: usize,
    coupled: usize,
    mapping: Seq<u8>,
    l: ChannelLayout,
) -> bool {
    &&& l.nb_channels == channels
    &&& l.nb_streams == streams
    &&& l.nb_coupled_streams == coupled
    &&& forall|c: int|
        0 <= c < 256 ==> #[trigger] l.mapping@[c] == if c < channels {
            mapping[c]
        } else {
            255u8
        }
}

/// Counts and order that a decoder can be set up with.
pub open spec fn layout_ok(channels: int, streams: int, coupled: int, mapping: Seq<u8>) -> bool {
    &&& 1 <= channels <= 255
    &&& 1 <= streams
    &&& coupled <= streams
    &&& streams + coupled <= 255
    &&& channels <= mapping.len()
    &&& forall|c: int|
        0 <= c < channels ==> #[trigger] mapping[c] == 255 || mapping[c] < streams + coupled
}

/// The layout of a channel order; none where a count is out of range, the
/// order is too short or it names an input that does not exist.
pub fn build_layout(channels: usize, streams: usize, coupled_streams: usize, mapping: &[u8]) -> (r:
    Option<ChannelLayout>)
    ensures
        match r {
            Some(l) => {
                &&& layout_ok(
                    channels as int,
                    streams as int,
                    coupled_streams as int,
                    mapping@,
                )
                &&& layout_of(channels, streams, coupled_streams, mapping@, l)
                &&& l.valid()
            },
            None => !layout_ok(
                channels as int,
                streams as int,
                coupled_streams as int,
                mapping@,
            ),
        },
{
    if channels == 0 || channels > 255 || coupled_streams > streams || streams == 0
        || coupled_streams > 255 || streams > 255 - coupled_streams {
        return None;
    }
    if mapping.len() < channels {
        return None;
    }
    let mut full: [u8; 256] = [255u8;256];
    for c in 0..channels
        invariant
            channels <= 255,
            channels <= mapping@.len(),
            forall|d: int| 0 <= d < c ==> #[trigger] full@[d] == mapping@[d],
            forall|d: int| c <= d < 256 ==> #[trigger] full@[d] == 255u8,
    {
        full[c] = mapping[c];
    }
    let layout: ChannelLayout = ChannelLayout {
        nb_channels: channels,
        nb_streams: streams,
        nb_coupled_streams: coupled_streams,
        mapping: full,
    };
    if !validate_layout(&layout) {
        assert(exists|c: int|
            0 <= c < channels && full@[c] != 255 && full@[c] >= streams + coupled_streams);
        let ghost c = choose|c: int|
            0 <= c < channels && full@[c] != 255 && full@[c] >= streams + coupled_streams;
        assert(mapping@[c] == full@[c]);
        return None;
    }
    proof {
        assert forall|c: int| 0 <= c < channels implies #[trigger] mapping@[c] == 255 || mapping@[c]
            < streams + coupled_streams by {
            assert(layout.mapping[c] == full@[c]);
        }
    }
    Some(layout)
}

/// Some of the first `channels` channels takes input `input`.
pub open spec fn order_feeds(mapping: Seq<u8>, channels: int, input: int) -> bool {
    exists|c: int| 0 <= c < channels && #[trigger] mapping[c] == input
}

/// Every input of stream `s` has a channel.
pub open spec fn order_feeds_stream(mapping: Seq<u8>, channels: int, coupled: int, s: int) -> bool {
    if s < coupled {
        order_feeds(mapping, channels, 2 * s) && order_feeds(mapping, channels, 2 * s + 1)
    } else {
        order_feeds(mapping, channels, s + coupled)
    }
}

/// Every input of every stream has a channel.
pub open spec fn order_complete(
    channels: int,
    streams: int,
    coupled: int,
    mapping: Seq<u8>,
) -> bool {
    forall|s: int|
        0 <= s < streams ==> #[trigger] order_feeds_stream(mapping, channels, coupled, s)
}

/// A layout is as complete as its channel order.
pub proof fn lemma_layout_complete(
    channels: usize,
    streams: usize,
    coupled: usize,
    mapping: Seq<u8>,
    l: ChannelLayout,
)
    requires
        layout_of(channels, streams, coupled, mapping, l),
        channels <= 256,
    ensures
        l.complete() == order_complete(channels as int, streams as int, coupled as int, mapping),
{
    assert forall|input: int| #[trigger] l.fed(input) == order_feeds(
        mapping,
        channels as int,
        input,
    ) by {
        if l.fed(input) {
            let c = choose|c: int| #[trigger] l.takes(c, input);
            assert(mapping[c] == input);
        }
        if order_feeds(mapping, channels as int, input) {
            let c = choose|c: int| 0 <= c < channels && #[trigger] mapping[c] == input;
            assert(l.mapping@[c] == mapping[c]);
            assert(l.takes(c, input));
        }
    }
    assert forall|s: int| 0 <= s < streams implies #[trigger] l.stream_fed(s)
        == order_feeds_stream(mapping, channels as int, coupled as int, s) by {
        assert(l.fed(2 * s) == order_feeds(mapping, channels as int, 2 * s));
    }
    if l.complete() {
        assert forall|s: int| 0 <= s < streams implies #[trigger] order_feeds_stream(
            mapping,
            channels as int,
            coupled as int,
            s,
        ) by {
            assert(l.stream_fed(s));
        }
    }
}

/// The layout of every mapping family is one that an encoder can be set up
/// with: its counts are in range, its order names only inputs that exist,
/// every input of every stream has a channel, and no channel is left over.
pub proof fn law_families_are_complete(channels: int, family: int)
    requires
        family_layout(channels, family) is Ok,
    ensures
        ({
            let (streams, coupled, mapping) = family_layout(channels, family)->Ok_0;
            &&& layout_ok(channels, streams, coupled, mapping)
            &&& order_complete(channels, streams, coupled, mapping)
            &&& streams + coupled == channels
            &&& mapping.len() == channels
        }),
{
    let (streams, coupled, mapping) = family_layout(channels, family)->Ok_0;
    if family == 2 {
        assert(streams + coupled == channels);
    }
    assert forall|s: int| 0 <= s < streams implies #[trigger] order_feeds_stream(
        mapping,
        channels,
        coupled,
        s,
    ) by {
        if family == 255 {
            assert(mapping[s] == s);
        } else if family == 2 {
            if s < coupled {
                assert(mapping[streams - coupled] == 0);
                assert(mapping[streams - coupled + 1] == 1);
            } else {
                assert(mapping[s - coupled] == s + coupled);
            }
        } else {
            lemma_small_orders(channels, family, s);
        }
    }
    if family == 0 || family == 1 {
        lemma_small_inputs(channels, family);
    }
}

/// Where each input stands in the orders of families 0 and 1.
proof fn lemma_small_orders(n: int, family: int, s: int)
    requires
        family == 0 || family == 1,
        family_layout(n, family) is Ok,
        0 <= s < family_layout(n, family)->Ok_0.0,
    ensures
        order_feeds_stream(
            family_layout(n, family)->Ok_0.2,
            n,
            family_layout(n, family)->Ok_0.1,
            s,
        ),
{
    let m = family_layout(n, family)->Ok_0.2;
    if n == 1 {
        assert(m[0] == 0);
    } else if n == 2 {
        assert(m[0] == 0 && m[1] == 1);
    } else if n == 3 {
        assert(m[0] == 0 && m[2] == 1 && m[1] == 2);
    } else if n == 4 {
        assert(m[0] == 0 && m[1] == 1 && m[2] == 2 && m[3] == 3);
    } else if n == 5 {
        assert(m[0] == 0 && m[2] == 1 && m[3] == 2 && m[4] == 3 && m[1] == 4);
    } else if n == 6 {
        assert(m[0] == 0 && m[2] == 1 && m[3] == 2 && m[4] == 3 && m[1] == 4 && m[5] == 5);
    } else if n == 7 {
        assert(m[0] == 0 && m[2] == 1 && m[3] == 2 && m[4] == 3 && m[1] == 4 && m[5] == 5 && m[6]
            == 6);
    } else {
        assert(m[0] == 0 && m[2] == 1 && m[3] == 2 && m[4] == 3 && m[5] == 4 && m[6] == 5 && m[1]
            == 6 && m[7] == 7);
    }
}

/// The orders of families 0 and 1 name only inputs that exist.
proof fn lemma_small_inputs(n: int, family: int)
    requires
        family == 0 || family == 1,
        family_layout(n, family) is Ok,
    ensures
        family_layout(n, family)->Ok_0.0 + family_layout(n, family)->Ok_0.1 == n,
        forall|c: int| 0 <= c < n ==> #[trigger] family_layout(n, family)->Ok_0.2[c] < n,
{
    let mapping = family_layout(n, family)->Ok_0.2;
    assert forall|c: int| 0 <= c < n implies #[trigger] mapping[c] < n by {
        assert(c == 0 || c == 1 || c == 2 || c == 3 || c == 4 || c == 5 || c == 6 || c == 7);
        assert(n == 1 || n == 2 || n == 3 || n == 4 || n == 5 || n == 6 || n == 7 || n == 8);
    }
}

} // verus!

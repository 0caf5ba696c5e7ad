//! Media metadata: stream descriptors, the frame-to-timestamp table and the
//! key-frame index of one media file, with the nearest-frame and bounded
//! key-frame queries the cutting planner relies on.
//!
//! The tables themselves come from external probing tools; construction
//! checks the invariants (strictly increasing timestamps, key frames that
//! index into the table) so that every query below works on well-formed data.

use vstd::prelude::*;

verus! {

/// What kind of payload a stream carries.
#[derive(Clone, Copy, PartialEq, Eq, Structural, Debug)]
pub enum StreamType {
    Audio,
    Video,
    Unknown,
}

impl StreamType {
    /// Classify a codec-type name: `audio` and `video` are recognised,
    /// anything else is unknown.
    pub fn from_bytes(s: &[u8]) -> (r: StreamType)
        ensures
            r == StreamType::Audio <==> s@ == crate::text::bytes_of("audio"@),
            r == StreamType::Video <==> s@ == crate::text::bytes_of("video"@),
    {
        proof {
            reveal_strlit("audio");
            reveal_strlit("video");
            assert(crate::text::bytes_of("audio"@)[0] != crate::text::bytes_of("video"@)[0]);
        }
        let audio = crate::text::lit_bytes("audio");
        let video = crate::text::lit_bytes("video");
        if crate::text::bytes_eq(s, audio.as_slice()) {
            StreamType::Audio
        } else if crate::text::bytes_eq(s, video.as_slice()) {
            StreamType::Video
        } else {
            StreamType::Unknown
        }
    }
}

/// One stream of a media file: its index, its codec name if one is known,
/// and what kind of stream it is.
pub struct Stream {
    index: usize,
    codec: Option<Vec<u8>>,
    stream_type: StreamType,
}

impl Stream {
    /// Build a stream descriptor.
    pub fn new(index: usize, codec: Option<Vec<u8>>, stream_type: StreamType) -> (r: Stream)
        ensures
            r.spec_index() == index,
            r.spec_codec() == codec,
            r.spec_type() == stream_type,
    {
        Stream { index, codec, stream_type }
    }

    /// The stream's index.
    pub closed spec fn spec_index(&self) -> usize {
        self.index
    }

    /// The stream's codec name, if known.
    pub closed spec fn spec_codec(&self) -> Option<Vec<u8>> {
        self.codec
    }

    /// The kind of the stream.
    pub closed spec fn spec_type(&self) -> StreamType {
        self.stream_type
    }

    /// Index of the stream within its file.
    pub fn index(&self) -> (r: usize)
        ensures
            r == self.spec_index(),
    {
        self.index
    }

    /// Codec name of the stream, if one is known.
    pub fn codec(&self) -> (r: Option<Vec<u8>>)
        ensures
            r is Some <==> self.spec_codec() is Some,
            r matches Some(c) ==> c@ == self.spec_codec().unwrap()@,
    {
        match &self.codec {
            Some(c) => Some(c.clone()),
            None => None,
        }
    }

    /// The kind of the stream.
    pub fn stream_type(&self) -> (r: StreamType)
        ensures
            r == self.spec_type(),
    {
        self.stream_type
    }
}

/// Whether a sequence is strictly increasing.
pub open spec fn strictly_increasing(s: Seq<u64>) -> bool {
    forall|i: int, j: int| 0 <= i < j < s.len() ==> s[i] < s[j]
}

/// Index of the primary stream: the first video stream, else the first
/// audio stream, else none.
pub open spec fn spec_primary_stream(streams: Seq<Stream>) -> Option<int> {
    if exists|i: int| 0 <= i < streams.len() && streams[i].spec_type() == StreamType::Video {
        Some(first_of_type(streams, StreamType::Video))
    } else if exists|i: int|
        0 <= i < streams.len() && streams[i].spec_type() == StreamType::Audio {
        Some(first_of_type(streams, StreamType::Audio))
    } else {
        None
    }
}

/// Least index of a stream of the given type.
pub open spec fn first_of_type(streams: Seq<Stream>, t: StreamType) -> int {
    choose|i: int|
        0 <= i < streams.len() && streams[i].spec_type() == t && forall|j: int|
            0 <= j < i ==> streams[j].spec_type() != t
}

/// Errors of metadata construction and queries.
#[derive(Clone, Copy, PartialEq, Eq, Structural, Debug)]
pub enum MetadataError {
    /// An audio or video stream carries no codec name.
    StreamWithoutCodec,
    /// The file has neither a video nor an audio stream.
    NoPrimaryStream,
    /// The timestamp table is not strictly increasing.
    UnsortedTimes,
    /// The key-frame index is not strictly increasing or points outside the
    /// timestamp table.
    InvalidKeyFrames,
    /// A frame number beyond the timestamp table was looked up.
    FrameOutOfRange,
    /// A time was looked up in a file without frames.
    NoFrames,
}

/// Metadata of one media file: its streams, the timestamp of every frame of
/// the primary stream (strictly increasing), and the sorted key-frame index.
pub struct Metadata {
    streams: Vec<Stream>,
    times: Vec<u64>,
    key_frames: Vec<u64>,
}

impl Metadata {
    /// The stream descriptors.
    pub closed spec fn spec_streams(&self) -> Seq<Stream> {
        self.streams@
    }

    /// The timestamp table: entry `f` is the timestamp of frame `f` in
    /// microseconds.
    pub closed spec fn spec_times(&self) -> Seq<u64> {
        self.times@
    }

    /// The sorted key-frame index.
    pub closed spec fn spec_key_frames(&self) -> Seq<u64> {
        self.key_frames@
    }

    /// Well-formedness: the timestamp table is strictly increasing, the
    /// key-frame index is strictly increasing, and every key frame is a
    /// valid frame number.
    pub open spec fn wf(&self) -> bool {
        &&& strictly_increasing(self.spec_times())
        &&& strictly_increasing(self.spec_key_frames())
        &&& forall|i: int|
            0 <= i < self.spec_key_frames().len()
                ==> #[trigger] self.spec_key_frames()[i] < self.spec_times().len()
    }

    /// Whether `k` is a key frame.
    pub open spec fn spec_is_key_frame(&self, k: u64) -> bool {
        exists|i: int| 0 <= i < self.spec_key_frames().len() && self.spec_key_frames()[i] == k
    }

    /// Whether the construction inputs are acceptable.
    pub open spec fn spec_new_ok(streams: Seq<Stream>, times: Seq<u64>, key_frames: Seq<u64>) -> bool {
        &&& forall|i: int|
            0 <= i < streams.len() && (#[trigger] streams[i].spec_type() == StreamType::Audio
                || streams[i].spec_type() == StreamType::Video)
                ==> streams[i].spec_codec() is Some
        &&& spec_primary_stream(streams) is Some
        &&& strictly_increasing(times)
        &&& strictly_increasing(key_frames)
        &&& forall|i: int| 0 <= i < key_frames.len() ==> #[trigger] key_frames[i] < times.len()
    }

    /// Assemble metadata from probed values. Every audio or video stream
    /// must name a codec, at least one such stream must exist, the
    /// timestamp table must be strictly increasing, and the key-frame index
    /// must be a sorted list of valid frame numbers.
    pub fn new(streams: Vec<Stream>, times: Vec<u64>, key_frames: Vec<u64>) -> (r: Result<
        Metadata,
        MetadataError,
    >)
        ensures
            r is Ok <==> Self::spec_new_ok(streams@, times@, key_frames@),
            r matches Ok(m) ==> m.wf() && m.spec_streams() == streams@ && m.spec_times() == times@
                && m.spec_key_frames() == key_frames@,
    {
        let mut i: usize = 0;
        while i < streams.len()
            invariant
                0 <= i <= streams@.len(),
                forall|j: int|
                    0 <= j < i && (#[trigger] streams@[j].spec_type() == StreamType::Audio
                        || streams@[j].spec_type() == StreamType::Video)
                        ==> streams@[j].spec_codec() is Some,
            decreases streams@.len() - i,
        {
            let st = streams[i].stream_type();
            if (st == StreamType::Audio || st == StreamType::Video)
                && streams[i].codec().is_none() {
                return Err(MetadataError::StreamWithoutCodec);
            }
            i = i + 1;
        }
        if primary_stream_index(&streams).is_none() {
            return Err(MetadataError::NoPrimaryStream);
        }
        let mut i: usize = 1;
        while i < times.len()
            invariant
                1 <= i <= times@.len() || times@.len() == 0,
                forall|p: int, q: int| 0 <= p < q < i ==> times@[p] < times@[q],
            decreases times@.len() - i,
        {
            if times[i - 1] >= times[i] {
                proof {
                    assert(times@[i - 1] >= times@[i as int]);
                    assert(!strictly_increasing(times@));
                }
                return Err(MetadataError::UnsortedTimes);
            }
            proof {
                assert(forall|p: int, q: int|
                    0 <= p < q < i + 1 ==> times@[p] < times@[q]) by {
                    assert(forall|p: int| 0 <= p < i ==> #[trigger] times@[p] <= times@[i - 1]);
                }
            }
            i = i + 1;
        }
        let mut i: usize = 0;
        while i < key_frames.len()
            invariant
                0 <= i <= key_frames@.len(),
                forall|p: int, q: int| 0 <= p < q < i ==> key_frames@[p] < key_frames@[q],
                forall|p: int| 0 <= p < i ==> #[trigger] key_frames@[p] < times@.len(),
            decreases key_frames@.len() - i,
        {
            if i > 0 && key_frames[i - 1] >= key_frames[i] {
                proof {
                    assert(!strictly_increasing(key_frames@));
                }
                return Err(MetadataError::InvalidKeyFrames);
            }
            if key_frames[i] >= times.len() as u64 {
                return Err(MetadataError::InvalidKeyFrames);
            }
            proof {
                if i > 0 {
                    assert(forall|p: int, q: int|
                        0 <= p < q < i + 1 ==> key_frames@[p] < key_frames@[q]) by {
                        assert(forall|p: int| 0 <= p < i ==> #[trigger] key_frames@[p] <= key_frames@[i - 1]);
                    }
                }
            }
            i = i + 1;
        }
        Ok(Metadata { streams, times, key_frames })
    }

    /// The stream descriptors of the file.
    pub fn streams(&self) -> (r: &Vec<Stream>)
        ensures
            r@ == self.spec_streams(),
    {
        &self.streams
    }

    /// Whether the file has frames at all; a pure-audio file may not.
    pub fn has_frames(&self) -> (r: bool)
        ensures
            r == (self.spec_times().len() > 0),
    {
        self.times.len() > 0
    }

    /// Number of frames of the primary stream.
    pub fn num_frames(&self) -> (r: usize)
        ensures
            r == self.spec_times().len(),
    {
        self.times.len()
    }

    /// Timestamp of a frame; fails exactly on frame numbers beyond the
    /// table.
    pub fn frame_to_time(&self, frame: u64) -> (r: Result<u64, MetadataError>)
        ensures
            r matches Ok(t) ==> frame < self.spec_times().len()
                && t == self.spec_times()[frame as int],
            r is Err <==> frame >= self.spec_times().len(),
            r matches Err(e) ==> e == MetadataError::FrameOutOfRange,
    {
        if frame >= self.times.len() as u64 {
            Err(MetadataError::FrameOutOfRange)
        } else {
            Ok(self.times[frame as usize])
        }
    }

    /// Frame number whose timestamp is nearest above `time` (exactly at it
    /// when one matches), clamped to the last frame; fails exactly when the
    /// file has no frames.
    ///
    /// The result `f` satisfies: either `times[f] == time`, or
    /// `times[f] > time` and every earlier frame is strictly below `time`,
    /// or `time` lies past the end and `f` is the last frame.
    pub fn time_to_frame(&self, time: u64) -> (r: Result<u64, MetadataError>)
        requires
            self.wf(),
        ensures
            r is Err <==> self.spec_times().len() == 0,
            r matches Err(e) ==> e == MetadataError::NoFrames,
            r matches Ok(f) ==> {
                &&& f < self.spec_times().len()
                &&& (self.spec_times()[f as int] >= time || f == self.spec_times().len() - 1)
                &&& forall|j: int| 0 <= j < f ==> self.spec_times()[j] < time
            },
    {
        if self.times.len() == 0 {
            return Err(MetadataError::NoFrames);
        }
        let mut lo: usize = 0;
        let mut hi: usize = self.times.len();
        while lo < hi
            invariant
                0 <= lo <= hi <= self.spec_times().len(),
                forall|j: int| 0 <= j < lo ==> self.spec_times()[j] < time,
                forall|j: int| hi <= j < self.spec_times().len() ==> self.spec_times()[j] >= time,
                self.wf(),
            decreases hi - lo,
        {
            let mid = lo + (hi - lo) / 2;
            if self.times[mid] < time {
                proof {
                    assert(forall|j: int|
                        0 <= j <= mid ==> self.spec_times()[j] <= self.spec_times()[mid as int]);
                }
                lo = mid + 1;
            } else {
                proof {
                    assert(forall|j: int|
                        mid <= j < self.spec_times().len()
                            ==> self.spec_times()[mid as int] <= self.spec_times()[j]);
                }
                hi = mid;
            }
        }
        if lo == self.times.len() {
            Ok((self.times.len() - 1) as u64)
        } else {
            Ok(lo as u64)
        }
    }

    /// Greatest key frame `k` with `limit <= k <= frame`, or nothing when no
    /// key frame lies in that range. The limit must not exceed the frame.
    pub fn key_frame_less_or_equal_until_limit(&self, frame: u64, limit: u64) -> (r: Option<u64>)
        requires
            self.wf(),
            limit <= frame,
        ensures
            r matches Some(k) ==> {
                &&& self.spec_is_key_frame(k)
                &&& limit <= k <= frame
                &&& forall|j: int|
                    0 <= j < self.spec_key_frames().len() && #[trigger] self.spec_key_frames()[j]
                        <= frame ==> self.spec_key_frames()[j] <= k
            },
            r is None ==> forall|j: int|
                0 <= j < self.spec_key_frames().len()
                    ==> !(limit <= #[trigger] self.spec_key_frames()[j] <= frame),
    {
        let idx = self.first_key_frame_at_or_above(frame);
        if idx < self.key_frames.len() && self.key_frames[idx] == frame {
            proof {
                assert(self.spec_key_frames()[idx as int] == frame);
                assert(forall|j: int|
                    0 <= j < self.spec_key_frames().len() && self.spec_key_frames()[j] <= frame
                        ==> self.spec_key_frames()[j] <= frame);
            }
            Some(frame)
        } else if idx > 0 && self.key_frames[idx - 1] >= limit {
            proof {
                let k = self.spec_key_frames()[idx - 1];
                assert(forall|j: int|
                    0 <= j < self.spec_key_frames().len() && #[trigger] self.spec_key_frames()[j]
                        <= frame ==> j < idx);
                assert(forall|j: int|
                    0 <= j < idx ==> self.spec_key_frames()[j] <= k);
            }
            Some(self.key_frames[idx - 1])
        } else {
            proof {
                assert(forall|j: int|
                    0 <= j < self.spec_key_frames().len()
                        ==> !(limit <= #[trigger] self.spec_key_frames()[j] <= frame)) by {
                    assert(forall|j: int|
                        0 <= j < self.spec_key_frames().len() && #[trigger] self.spec_key_frames()[j] <= frame ==> j < idx);
                }
            }
            None
        }
    }

    /// Least key frame `k` with `frame <= k <= limit`, or nothing when no
    /// key frame lies in that range. The limit must not lie below the frame.
    pub fn key_frame_greater_or_equal_until_limit(&self, frame: u64, limit: u64) -> (r: Option<
        u64,
    >)
        requires
            self.wf(),
            limit >= frame,
        ensures
            r matches Some(k) ==> {
                &&& self.spec_is_key_frame(k)
                &&& frame <= k <= limit
                &&& forall|j: int|
                    0 <= j < self.spec_key_frames().len() && #[trigger] self.spec_key_frames()[j]
                        >= frame ==> self.spec_key_frames()[j] >= k
            },
            r is None ==> forall|j: int|
                0 <= j < self.spec_key_frames().len()
                    ==> !(frame <= #[trigger] self.spec_key_frames()[j] <= limit),
    {
        let idx = self.first_key_frame_at_or_above(frame);
        if idx < self.key_frames.len() && self.key_frames[idx] <= limit {
            proof {
                assert(forall|j: int|
                    0 <= j < self.spec_key_frames().len() && #[trigger] self.spec_key_frames()[j]
                        >= frame ==> j >= idx);
                assert(forall|j: int|
                    idx <= j < self.spec_key_frames().len()
                        ==> self.spec_key_frames()[idx as int] <= self.spec_key_frames()[j]);
            }
            Some(self.key_frames[idx])
        } else {
            proof {
                assert(forall|j: int|
                    0 <= j < self.spec_key_frames().len()
                        ==> !(frame <= #[trigger] self.spec_key_frames()[j] <= limit)) by {
                    assert(forall|j: int|
                        0 <= j < self.spec_key_frames().len() && #[trigger] self.spec_key_frames()[j] >= frame ==> j >= idx);
                }
            }
            None
        }
    }

    /// Index of the first key-frame entry at or above `frame`
    /// (`key_frames.len()` when all lie below).
    fn first_key_frame_at_or_above(&self, frame: u64) -> (r: usize)
        requires
            self.wf(),
        ensures
            0 <= r <= self.spec_key_frames().len(),
            forall|j: int| 0 <= j < r ==> self.spec_key_frames()[j] < frame,
            forall|j: int|
                r <= j < self.spec_key_frames().len() ==> self.spec_key_frames()[j] >= frame,
    {
        let mut lo: usize = 0;
        let mut hi: usize = self.key_frames.len();
        while lo < hi
            invariant
                0 <= lo <= hi <= self.spec_key_frames().len(),
                forall|j: int| 0 <= j < lo ==> self.spec_key_frames()[j] < frame,
                forall|j: int|
                    hi <= j < self.spec_key_frames().len() ==> self.spec_key_frames()[j] >= frame,
                self.wf(),
            decreases hi - lo,
        {
            let mid = lo + (hi - lo) / 2;
            if self.key_frames[mid] < frame {
                proof {
                    assert(forall|j: int|
                        0 <= j <= mid
                            ==> self.spec_key_frames()[j] <= self.spec_key_frames()[mid as int]);
                }
                lo = mid + 1;
            } else {
                proof {
                    assert(forall|j: int|
                        mid <= j < self.spec_key_frames().len()
                            ==> self.spec_key_frames()[mid as int] <= self.spec_key_frames()[j]);
                }
                hi = mid;
            }
        }
        lo
    }
}

/// First video stream, else first audio stream, else nothing.
pub fn primary_stream_index(streams: &Vec<Stream>) -> (r: Option<usize>)
    ensures
        r is Some <==> spec_primary_stream(streams@) is Some,
        r matches Some(i) ==> spec_primary_stream(streams@) == Some(i as int),
{
    let mut first_audio: Option<usize> = None;
    let mut i: usize = 0;
    while i < streams.len()
        invariant
            0 <= i <= streams@.len(),
            forall|j: int| 0 <= j < i ==> streams@[j].spec_type() != StreamType::Video,
            match first_audio {
                Some(a) => 0 <= a < i && streams@[a as int].spec_type() == StreamType::Audio
                    && forall|j: int| 0 <= j < a ==> streams@[j].spec_type() != StreamType::Audio,
                None => forall|j: int| 0 <= j < i ==> streams@[j].spec_type() != StreamType::Audio,
            },
        decreases streams@.len() - i,
    {
        let st = streams[i].stream_type();
        if st == StreamType::Video {
            proof {
                assert(streams@[i as int].spec_type() == StreamType::Video);
                assert(first_of_type(streams@, StreamType::Video) == i as int) by {
                    assert(0 <= i < streams@.len() && streams@[i as int].spec_type()
                        == StreamType::Video && forall|j: int|
                        0 <= j < i ==> streams@[j].spec_type() != StreamType::Video);
                }
            }
            return Some(i);
        }
        if st == StreamType::Audio && first_audio.is_none() {
            first_audio = Some(i);
        }
        i = i + 1;
    }
    match first_audio {
        Some(a) => {
            proof {
                assert(streams@[a as int].spec_type() == StreamType::Audio);
                assert(first_of_type(streams@, StreamType::Audio) == a as int) by {
                    assert(0 <= a < streams@.len() && streams@[a as int].spec_type()
                        == StreamType::Audio && forall|j: int|
                        0 <= j < a ==> streams@[j].spec_type() != StreamType::Audio);
                }
            }
            Some(a)
        },
        None => None,
    }
}

/// What `time_to_frame` promises of its result: a valid frame, at or
/// above the time unless clamped to the end, with every earlier frame
/// strictly below the time.
pub open spec fn spec_nearest_frame(m: &Metadata, time: u64, f: u64) -> bool {
    &&& (f as int) < m.spec_times().len()
    &&& (m.spec_times()[f as int] >= time || f as int == m.spec_times().len() - 1)
    &&& forall|j: int| 0 <= j < f ==> m.spec_times()[j] < time
}

/// Mapping a time to its nearest frame and that frame back to a time
/// stays within one inter-frame interval: a time sitting exactly on a
/// frame comes back unchanged; a time between two frames comes back as
/// the next frame's timestamp, past its own predecessor; and a time past
/// the last frame comes back as the last timestamp.
pub proof fn lemma_time_frame_round_trip(m: &Metadata, time: u64, f: u64)
    requires
        m.wf(),
        m.spec_times().len() > 0,
        spec_nearest_frame(m, time, f),
    ensures
        (exists|i: int| 0 <= i < m.spec_times().len() && m.spec_times()[i] == time)
            ==> m.spec_times()[f as int] == time,
        time <= m.spec_times().last() ==> m.spec_times()[f as int] >= time && (f == 0
            || m.spec_times()[f - 1] < time),
        time > m.spec_times().last() ==> f as int == m.spec_times().len() - 1,
{
    let ts = m.spec_times();
    let n = ts.len() as int;
    if exists|i: int| 0 <= i < n && ts[i] == time {
        let i = choose|i: int| 0 <= i < n && ts[i] == time;
        if f < i {
            assert(ts[f as int] <= ts[i]);
            if (f as int) < n - 1 {
                assert(ts[f as int] >= time);
                assert(ts[f as int] < ts[i]);
                assert(false);
            } else {
                assert(i > n - 1);
                assert(false);
            }
        }
        if f > i {
            assert(ts[i] < time);
            assert(false);
        }
    }
    if time <= ts.last() {
        if (f as int) == n - 1 && ts[f as int] < time {
            assert(ts[n - 1] < time);
            assert(false);
        }
    }
    if time > ts.last() {
        if (f as int) < n - 1 {
            assert(ts[f as int] <= ts[n - 1]);
            assert(ts[f as int] >= time);
            assert(false);
        }
    }
}

/// Type of a track, as the older track-based view named it.
#[derive(Clone, Copy, PartialEq, Eq, Structural, Debug)]
pub enum TrackKind {
    Audio,
    Video,
    Unknown,
}

impl TrackKind {
    /// Classify a track-type name.
    pub fn from_bytes(s: &[u8]) -> (r: TrackKind)
        ensures
            r == TrackKind::Audio <==> s@ == crate::text::bytes_of("audio"@),
            r == TrackKind::Video <==> s@ == crate::text::bytes_of("video"@),
    {
        match StreamType::from_bytes(s) {
            StreamType::Audio => TrackKind::Audio,
            StreamType::Video => TrackKind::Video,
            StreamType::Unknown => TrackKind::Unknown,
        }
    }
}

/// The codecs the cutter knows by name.
#[derive(Clone, Copy, PartialEq, Eq, Structural, Debug)]
pub enum Codec {
    AC3,
    MP3,
    H264,
    MPEG4,
    Unknown,
}

impl Codec {
    /// Classify a codec name.
    pub fn from_bytes(s: &[u8]) -> (r: Codec)
        ensures
            r == Codec::AC3 <==> s@ == crate::text::bytes_of("ac3"@),
            r == Codec::MP3 <==> s@ == crate::text::bytes_of("mp3"@),
            r == Codec::H264 <==> s@ == crate::text::bytes_of("h264"@),
            r == Codec::MPEG4 <==> s@ == crate::text::bytes_of("mpeg4"@),
    {
        proof {
            reveal_strlit("ac3");
            reveal_strlit("mp3");
            reveal_strlit("h264");
            reveal_strlit("mpeg4");
            assert(crate::text::bytes_of("ac3"@)[0] != crate::text::bytes_of("mp3"@)[0]);
            assert(crate::text::bytes_of("ac3"@).len() != crate::text::bytes_of("h264"@).len());
            assert(crate::text::bytes_of("ac3"@).len() != crate::text::bytes_of("mpeg4"@).len());
            assert(crate::text::bytes_of("h264"@).len() != crate::text::bytes_of("mpeg4"@).len());
        }
        let ac3 = crate::text::lit_bytes("ac3");
        let mp3 = crate::text::lit_bytes("mp3");
        let h264 = crate::text::lit_bytes("h264");
        let mpeg4 = crate::text::lit_bytes("mpeg4");
        if crate::text::bytes_eq(s, ac3.as_slice()) {
            Codec::AC3
        } else if crate::text::bytes_eq(s, mp3.as_slice()) {
            Codec::MP3
        } else if crate::text::bytes_eq(s, h264.as_slice()) {
            Codec::H264
        } else if crate::text::bytes_eq(s, mpeg4.as_slice()) {
            Codec::MPEG4
        } else {
            Codec::Unknown
        }
    }
}

} // verus!

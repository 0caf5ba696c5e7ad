//! Metadata construction, nearest-frame and key-frame queries, and the
//! per-interval cutting plan.

use otr::interval::{Boundary, Frame, Interval};
use otr::metadata::{Codec, Metadata, MetadataError, Stream, StreamType, TrackKind};
use otr::planner::{plan_frame_interval, plan_time_interval, SubIntervalID};

fn sample_metadata(num_frames: u64, key_frames: &[u64]) -> Metadata {
    let streams = vec![
        Stream::new(0, Some(b"h264".to_vec()), StreamType::Video),
        Stream::new(1, Some(b"ac3".to_vec()), StreamType::Audio),
    ];
    // 40 ms per frame.
    let times: Vec<u64> = (0..num_frames).map(|f| f * 40_000).collect();
    Metadata::new(streams, times, key_frames.to_vec()).unwrap()
}

#[test]
fn metadata_rejects_bad_input() {
    let video = || Stream::new(0, Some(b"h264".to_vec()), StreamType::Video);
    // a video stream without codec
    assert!(matches!(
        Metadata::new(vec![Stream::new(0, None, StreamType::Video)], vec![], vec![]),
        Err(MetadataError::StreamWithoutCodec)
    ));
    // neither audio nor video
    assert!(matches!(
        Metadata::new(vec![Stream::new(0, None, StreamType::Unknown)], vec![], vec![]),
        Err(MetadataError::NoPrimaryStream)
    ));
    // unsorted timestamps
    assert!(matches!(
        Metadata::new(vec![video()], vec![5, 5], vec![]),
        Err(MetadataError::UnsortedTimes)
    ));
    // a key frame outside the table
    assert!(matches!(
        Metadata::new(vec![video()], vec![0, 1], vec![2]),
        Err(MetadataError::InvalidKeyFrames)
    ));
}

#[test]
fn frame_and_time_queries() {
    let m = sample_metadata(1000, &[0, 250, 500, 750]);
    assert!(m.has_frames());
    assert_eq!(m.num_frames(), 1000);
    assert_eq!(m.frame_to_time(250).unwrap(), 250 * 40_000);
    assert!(matches!(m.frame_to_time(1000), Err(MetadataError::FrameOutOfRange)));
    // exact hit
    assert_eq!(m.time_to_frame(40_000).unwrap(), 1);
    // between two frames: the next frame
    assert_eq!(m.time_to_frame(40_001).unwrap(), 2);
    // past the end: clamped to the last frame
    assert_eq!(m.time_to_frame(1_000_000_000).unwrap(), 999);
}

#[test]
fn key_frame_queries() {
    let m = sample_metadata(1000, &[0, 250, 500, 750]);
    assert_eq!(m.key_frame_less_or_equal_until_limit(800, 200), Some(750));
    assert_eq!(m.key_frame_less_or_equal_until_limit(750, 200), Some(750));
    assert_eq!(m.key_frame_less_or_equal_until_limit(249, 100), None);
    assert_eq!(m.key_frame_greater_or_equal_until_limit(200, 800), Some(250));
    assert_eq!(m.key_frame_greater_or_equal_until_limit(250, 800), Some(250));
    assert_eq!(m.key_frame_greater_or_equal_until_limit(751, 999), None);
}

#[test]
fn key_frame_alignment() {
    let m = sample_metadata(1000, &[0, 250, 500, 750]);
    let iv = Interval::<Frame>::from_from_to(Frame { n: 200 }, Frame { n: 800 });
    let kf = iv.to_key_frames(&m).unwrap();
    assert_eq!(kf.from().value(), 250);
    assert_eq!(kf.to().value(), 750);
    let narrow = Interval::<Frame>::from_from_to(Frame { n: 300 }, Frame { n: 400 });
    assert!(narrow.to_key_frames(&m).is_none());
}

#[test]
fn cut_plan_frame_case() {
    // 1000 frames, key frames at 0, 250, 500, 750; interval [200, 800]:
    // a re-encoded lead-in [200,249], a copied middle [250,750], and a
    // re-encoded tail [751,800], in that order.
    let m = sample_metadata(1000, &[0, 250, 500, 750]);
    let iv = Interval::<Frame>::from_from_to(Frame { n: 200 }, Frame { n: 800 });
    let plan = plan_frame_interval(&m, iv).unwrap();
    assert_eq!(plan.len(), 3);
    assert!(matches!(plan[0].id, SubIntervalID::Pre));
    assert!(plan[0].encode);
    assert_eq!(plan[0].range.from().value(), 200 * 40_000);
    assert_eq!(plan[0].range.to().value(), 249 * 40_000);
    assert!(matches!(plan[1].id, SubIntervalID::Main));
    assert!(!plan[1].encode);
    assert_eq!(plan[1].range.from().value(), 250 * 40_000);
    assert_eq!(plan[1].range.to().value(), 750 * 40_000);
    assert!(matches!(plan[2].id, SubIntervalID::Post));
    assert!(plan[2].encode);
    assert_eq!(plan[2].range.from().value(), 751 * 40_000);
    assert_eq!(plan[2].range.to().value(), 800 * 40_000);
}

#[test]
fn cut_plan_no_key_frame_inside() {
    // Key frames only at 0 and 999: interval [300, 400] holds none, so the
    // whole interval is one re-encoded piece.
    let m = sample_metadata(1000, &[0, 999]);
    let iv = Interval::<Frame>::from_from_to(Frame { n: 300 }, Frame { n: 400 });
    let plan = plan_frame_interval(&m, iv).unwrap();
    assert_eq!(plan.len(), 1);
    assert!(matches!(plan[0].id, SubIntervalID::Main));
    assert!(plan[0].encode);
    assert_eq!(plan[0].range.from().value(), 300 * 40_000);
    assert_eq!(plan[0].range.to().value(), 400 * 40_000);
}

#[test]
fn cut_plan_without_frames_copies_verbatim() {
    let streams = vec![Stream::new(0, Some(b"mp3".to_vec()), StreamType::Audio)];
    let m = Metadata::new(streams, vec![], vec![]).unwrap();
    assert!(!m.has_frames());
    let iv = otr::interval::Interval::<otr::interval::Time>::from_from_to(
        otr::interval::Time { us: 1_000_000 },
        otr::interval::Time { us: 2_000_000 },
    );
    let plan = plan_time_interval(&m, iv).unwrap();
    assert_eq!(plan.len(), 1);
    assert!(matches!(plan[0].id, SubIntervalID::Main));
    assert!(!plan[0].encode);
    assert_eq!(plan[0].range.from().value(), 1_000_000);
}

#[test]
fn track_and_codec_names() {
    assert!(matches!(StreamType::from_bytes(b"audio"), StreamType::Audio));
    assert!(matches!(StreamType::from_bytes(b"video"), StreamType::Video));
    assert!(matches!(StreamType::from_bytes(b"data"), StreamType::Unknown));
    assert!(matches!(TrackKind::from_bytes(b"video"), TrackKind::Video));
    assert!(matches!(Codec::from_bytes(b"ac3"), Codec::AC3));
    assert!(matches!(Codec::from_bytes(b"h264"), Codec::H264));
    assert!(matches!(Codec::from_bytes(b"vp9"), Codec::Unknown));
}

#[test]
fn no_frames_lookup() {
    let streams = vec![Stream::new(0, Some(b"mp3".to_vec()), StreamType::Audio)];
    let m = Metadata::new(streams, vec![], vec![]).unwrap();
    assert!(matches!(m.time_to_frame(5), Err(MetadataError::NoFrames)));
}

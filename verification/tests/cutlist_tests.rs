//! The cut-list model: validation, parsers, the serializer round trip,
//! provider header selection and the submission response.

use otr::cutlist::{
    headers_from_provider, item_attr_duration, item_attr_start, parse_submission_response,
    Cutlist, CutlistError, Kind, RawProviderHeader,
};
use otr::interval::{Boundary, BoundaryType, Frame, Interval, Time};

fn frame_iv(a: u64, b: u64) -> Interval<Frame> {
    Interval::<Frame>::from_from_to(Frame { n: a }, Frame { n: b })
}

#[test]
fn validation_rejects_overlap() {
    // Frame view [[0,100],[50,200]] overlaps and fails validation.
    let list = Cutlist {
        id: None,
        frame_intervals: Some(vec![frame_iv(0, 100), frame_iv(50, 200)]),
        time_intervals: None,
    };
    assert!(matches!(list.validate(), Err(CutlistError::IntervalsInvalid)));
}

#[test]
fn validation_accepts_ordered_views() {
    let list = Cutlist {
        id: Some(7),
        frame_intervals: Some(vec![frame_iv(0, 100), frame_iv(100, 200)]),
        time_intervals: None,
    };
    assert!(list.validate().is_ok());
    assert!(list.has_frame_intervals());
    assert!(!list.has_time_intervals());
    assert_eq!(list.id(), Some(7));
    assert_eq!(list.len(), 2);
    assert_eq!(list.kinds(), vec![Kind::Frames]);
}

#[test]
fn validation_rejects_empty() {
    let none = Cutlist { id: None, frame_intervals: None, time_intervals: None };
    assert!(matches!(none.validate(), Err(CutlistError::NoIntervals)));
    let empty = Cutlist { id: None, frame_intervals: Some(vec![]), time_intervals: None };
    assert!(matches!(empty.validate(), Err(CutlistError::NoIntervals)));
}

#[test]
fn validation_rejects_count_mismatch() {
    let list = Cutlist {
        id: None,
        frame_intervals: Some(vec![frame_iv(0, 100)]),
        time_intervals: Some(vec![]),
    };
    assert!(matches!(list.validate(), Err(CutlistError::CountMismatch)));
}

#[test]
fn bracket_list_time() {
    // One time interval of (20*60 + 59.45) - 330 seconds.
    let list = Cutlist::try_from_intervals(b"time:[0:05:30,0:20:59.45]").unwrap();
    assert!(list.has_time_intervals());
    assert!(!list.has_frame_intervals());
    let ivs = list.time_intervals().unwrap();
    assert_eq!(ivs.len(), 1);
    assert_eq!(ivs[0].from().value(), 330_000_000);
    assert_eq!(ivs[0].to().value(), 1_259_450_000);
    assert_eq!(ivs[0].len(), 929_450_000);
}

#[test]
fn bracket_list_frames() {
    let list = Cutlist::try_from_intervals(b"frames:[123,45667][48345,679868]").unwrap();
    let ivs = list.frame_intervals().unwrap();
    assert_eq!(ivs.len(), 2);
    assert_eq!(ivs[0].from().value(), 123);
    assert_eq!(ivs[1].to().value(), 679_868);
}

#[test]
fn bracket_list_rejects_bad_kind() {
    assert!(matches!(
        Cutlist::try_from_intervals(b"minutes:[1,2]"),
        Err(CutlistError::InvalidIntervalString)
    ));
    assert!(matches!(
        Cutlist::try_from_intervals(b"frames:"),
        Err(CutlistError::InvalidIntervalString)
    ));
}

#[test]
fn bracket_list_of_only_empty_intervals_is_invalid() {
    assert!(matches!(
        Cutlist::try_from_intervals(b"frames:[5,5]"),
        Err(CutlistError::NoIntervals)
    ));
}

#[test]
fn structured_text_both_views() {
    let text = b"[General]\nNoOfCuts=2\n[Meta]\nCutlistId=42\n\
[Cut0]\nStartFrame=100\nDurationFrames=50\nStart=4.000000\nDuration=2.000000\n\
[Cut1]\nStartFrame=300\nDurationFrames=25\nStart=12.000000\nDuration=1.000000\n";
    let list = Cutlist::from_ini_text(text).unwrap();
    assert_eq!(list.id(), Some(42));
    let f = list.frame_intervals().unwrap();
    assert_eq!(f.len(), 2);
    assert_eq!(f[0].from().value(), 100);
    assert_eq!(f[0].to().value(), 150);
    let t = list.time_intervals().unwrap();
    assert_eq!(t.len(), 2);
    assert_eq!(t[0].from().value(), 4_000_000);
    assert_eq!(t[0].to().value(), 6_000_000);
    assert_eq!(t[1].to().value(), 13_000_000);
}

#[test]
fn structured_text_drops_zero_length_cuts() {
    let text = b"[General]\nNoOfCuts=2\n\
[Cut0]\nStartFrame=10\nDurationFrames=5\n\
[Cut1]\nStartFrame=40\nDurationFrames=0\n";
    let list = Cutlist::from_ini_text(text).unwrap();
    let f = list.frame_intervals().unwrap();
    assert_eq!(f.len(), 1);
    assert_eq!(f[0].from().value(), 10);
}

#[test]
fn structured_text_errors() {
    assert!(matches!(
        Cutlist::from_ini_text(b"[General]\nSomething=1\n"),
        Err(CutlistError::NoNumberOfCuts)
    ));
    assert!(matches!(
        Cutlist::from_ini_text(b"[General]\nNoOfCuts=1\n[Cut0]\nFoo=1\n"),
        Err(CutlistError::InvalidCut)
    ));
    // the second cut must populate the view the first one established
    assert!(matches!(
        Cutlist::from_ini_text(
            b"[General]\nNoOfCuts=2\n[Cut0]\nStartFrame=1\nDurationFrames=2\n[Cut1]\nStart=1\nDuration=2\n"
        ),
        Err(CutlistError::InvalidCut)
    ));
    assert!(matches!(
        Cutlist::from_ini_text(b"[General]\nNoOfCuts=1\n[Meta]\nCutlistId=x\n[Cut0]\nStartFrame=1\nDurationFrames=2\n"),
        Err(CutlistError::InvalidId)
    ));
}

#[test]
fn serializer_round_trip() {
    // Serialize a list and read it back: the views survive unchanged.
    let list = Cutlist {
        id: Some(99),
        frame_intervals: Some(vec![frame_iv(100, 150), frame_iv(300, 325)]),
        time_intervals: Some(vec![
            Interval::<Time>::from_from_to(Time { us: 4_000_000 }, Time { us: 6_000_000 }),
            Interval::<Time>::from_from_to(Time { us: 12_000_000 }, Time { us: 13_500_000 }),
        ]),
    };
    assert!(list.validate().is_ok());
    let text = list.to_ini_text(b"recording.avi", 12345, 3);
    let back = Cutlist::from_ini_text(&text).unwrap();
    // the serializer does not write the identifier
    assert_eq!(back.id(), None);
    let f = back.frame_intervals().unwrap();
    assert_eq!(f.len(), 2);
    assert_eq!(f[0].from().value(), 100);
    assert_eq!(f[0].to().value(), 150);
    assert_eq!(f[1].from().value(), 300);
    assert_eq!(f[1].to().value(), 325);
    let t = back.time_intervals().unwrap();
    assert_eq!(t[0].from().value(), 4_000_000);
    assert_eq!(t[0].to().value(), 6_000_000);
    assert_eq!(t[1].from().value(), 12_000_000);
    assert_eq!(t[1].to().value(), 13_500_000);
}

#[test]
fn serializer_layout() {
    let list = Cutlist {
        id: None,
        frame_intervals: Some(vec![frame_iv(10, 15)]),
        time_intervals: None,
    };
    let text = list.to_ini_text(b"a.avi", 7, 0);
    let expected = b"[General]\nApplication=otr\nVersion=0.1.0\n\
IntendedCutApplicationName=ffmpeg\nNoOfCuts=1\nApplyToFile=a.avi\n\
OriginalFileSizeBytes=7\n[Cut0]\nStartFrame=10\nDurationFrames=5\n\
[Info]\nRatingByAuthor=0\n";
    assert_eq!(text, expected.to_vec());
}

#[test]
fn provider_header_selection() {
    let raws = vec![
        RawProviderHeader {
            id: 1,
            rating: b"4.5".to_vec(),
            rating_by_author: b"0".to_vec(),
            errors: b"0".to_vec(),
        },
        RawProviderHeader {
            id: 2,
            rating: b"1.25".to_vec(),
            rating_by_author: b"0".to_vec(),
            errors: b"0".to_vec(),
        },
        RawProviderHeader {
            id: 3,
            rating: b"5".to_vec(),
            rating_by_author: b"0".to_vec(),
            errors: b"2".to_vec(),
        },
        RawProviderHeader {
            id: 4,
            rating: b"x".to_vec(),
            rating_by_author: b"3.5".to_vec(),
            errors: b"0".to_vec(),
        },
    ];
    // header 3 is dropped for its errors; the rest sort ascending by rating
    let headers = headers_from_provider(raws, None);
    let ids: Vec<u64> = headers.iter().map(|h| h.id()).collect();
    assert_eq!(ids, vec![2, 4, 1]);
    assert_eq!(headers[0].rating_millionths(), 1_250_000);
    assert_eq!(headers[1].rating_millionths(), 3_500_000);
}

#[test]
fn provider_header_error_counts() {
    // only a non-numeric or positive errors field drops a header;
    // a numeric non-positive one, a minus-signed count included, is kept
    let raw = |id: u64, errors: &[u8]| RawProviderHeader {
        id,
        rating: b"1".to_vec(),
        rating_by_author: b"0".to_vec(),
        errors: errors.to_vec(),
    };
    let headers = headers_from_provider(
        vec![raw(1, b"0"), raw(2, b"-1"), raw(3, b"1"), raw(4, b"x"), raw(5, b"+0"), raw(6, b"")],
        None,
    );
    let ids: Vec<u64> = headers.iter().map(|h| h.id()).collect();
    assert_eq!(ids, vec![1, 2, 5]);
}

#[test]
fn provider_header_negative_ratings() {
    let raw = |id: u64, rating: &[u8]| RawProviderHeader {
        id,
        rating: rating.to_vec(),
        rating_by_author: b"0".to_vec(),
        errors: b"0".to_vec(),
    };
    // a negative rating stays below any minimum
    let headers = headers_from_provider(vec![raw(1, b"-1"), raw(2, b"2")], Some(0));
    let ids: Vec<u64> = headers.iter().map(|h| h.id()).collect();
    assert_eq!(ids, vec![2]);
    // without a minimum it is kept and sorts first
    let headers = headers_from_provider(vec![raw(1, b"2"), raw(2, b"-1.5")], None);
    let ids: Vec<u64> = headers.iter().map(|h| h.id()).collect();
    assert_eq!(ids, vec![2, 1]);
    assert_eq!(headers[0].rating_millionths(), -1_500_000);
}

#[test]
fn provider_header_id_breaks_ties() {
    let raw = |id: u64| RawProviderHeader {
        id,
        rating: b"3".to_vec(),
        rating_by_author: b"0".to_vec(),
        errors: b"0".to_vec(),
    };
    let headers = headers_from_provider(vec![raw(9), raw(3), raw(7)], None);
    let ids: Vec<u64> = headers.iter().map(|h| h.id()).collect();
    assert_eq!(ids, vec![3, 7, 9]);
}

#[test]
fn provider_header_minimum_rating() {
    let raws = vec![
        RawProviderHeader {
            id: 1,
            rating: b"4.5".to_vec(),
            rating_by_author: b"0".to_vec(),
            errors: b"0".to_vec(),
        },
        RawProviderHeader {
            id: 2,
            rating: b"1.25".to_vec(),
            rating_by_author: b"0".to_vec(),
            errors: b"0".to_vec(),
        },
    ];
    let headers = headers_from_provider(raws, Some(3));
    assert_eq!(headers.len(), 1);
    assert_eq!(headers[0].id(), 1);
}

#[test]
fn submission_response() {
    assert_eq!(parse_submission_response(b"ID=1234 accepted").unwrap(), 1234);
    assert!(matches!(
        parse_submission_response(b"rejected"),
        Err(CutlistError::NoSubmissionId)
    ));
    assert!(matches!(
        parse_submission_response(b"ID=x"),
        Err(CutlistError::NoSubmissionId)
    ));
}

#[test]
fn provider_fetch_not_found() {
    assert!(matches!(
        Cutlist::from_provider_response(b"Not found."),
        Err(CutlistError::IdNotFound)
    ));
    let ok = Cutlist::from_provider_response(
        b"[General]\nNoOfCuts=1\n[Cut0]\nStartFrame=1\nDurationFrames=2\n",
    );
    assert!(ok.is_ok());
}

#[test]
fn attribute_names_by_kind() {
    assert_eq!(item_attr_start(BoundaryType::Frame), b"StartFrame".to_vec());
    assert_eq!(item_attr_start(BoundaryType::Time), b"Start".to_vec());
    assert_eq!(item_attr_duration(BoundaryType::Frame), b"DurationFrames".to_vec());
    assert_eq!(item_attr_duration(BoundaryType::Time), b"Duration".to_vec());
    assert!(matches!(Kind::from_bytes(b"frames"), Some(Kind::Frames)));
    assert!(matches!(Kind::from_bytes(b"time"), Some(Kind::Time)));
    assert!(Kind::from_bytes(b"times").is_none());
    let empty = Cutlist::new_empty();
    assert!(empty.id().is_none());
    assert!(!empty.has_frame_intervals() && !empty.has_time_intervals());
}

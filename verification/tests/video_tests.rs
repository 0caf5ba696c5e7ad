//! The driver's recording model: names along the stages, ordering,
//! de-duplication, and the concatenation plan for part files.

use otr::planner::{concatenation_plan, part_file_name, ConcatPlan, CutError, SubIntervalID};
use otr::video::{
    dedup_videos, file_name_of, next_file_name, sort_videos, DirKind, Key, Status, Video,
};

fn video(path: &[u8], key: &[u8], status: Status) -> Video {
    Video::new(path.to_vec(), Key::new(key.to_vec()), status)
}

#[test]
fn status_order_and_directories() {
    assert_eq!(Status::Encoded.rank(), 0);
    assert_eq!(Status::Cut.rank(), 2);
    assert_eq!(Status::Encoded.next(), Some(Status::Decoded));
    assert_eq!(Status::Decoded.next(), Some(Status::Cut));
    assert_eq!(Status::Cut.next(), None);
    assert!(matches!(Status::Decoded.as_dir_kind(), DirKind::Decoded));
    assert_eq!(DirKind::Encoded.relative_path(), b"Encoded".to_vec());
    assert_eq!(DirKind::Archive.relative_path(), b"Decoded/Archive".to_vec());
    assert_eq!(DirKind::Root.relative_path(), b"".to_vec());
}

#[test]
fn file_names_along_the_stages() {
    assert_eq!(file_name_of(b"/work/Encoded/a.mpg.avi.otrkey"), b"a.mpg.avi.otrkey".to_vec());
    // decoding strips the container extension
    assert_eq!(
        next_file_name(b"a.mpg.avi.otrkey", Status::Encoded),
        b"a.mpg.avi".to_vec()
    );
    // cutting inserts `cut` before the last extension
    assert_eq!(next_file_name(b"a.mpg.avi", Status::Decoded), b"a.mpg.cut.avi".to_vec());
    assert_eq!(next_file_name(b"a.mpg.cut.avi", Status::Cut), b"a.mpg.cut.avi".to_vec());
}

#[test]
fn advancing_a_recording() {
    let mut v = video(b"/work/Encoded/a.avi.otrkey", b"a.avi", Status::Encoded);
    assert!(!v.is_processed());
    v.change_to_next_status(b"/work/Decoded");
    assert_eq!(v.status(), Status::Decoded);
    assert_eq!(v.file_name(), b"a.avi".to_vec());
    v.change_to_next_status(b"/work/Cut");
    assert_eq!(v.status(), Status::Cut);
    assert!(v.is_processed());
    assert_eq!(v.file_name(), b"a.cut.avi".to_vec());
}

#[test]
fn driver_deduplication() {
    // The same key in the encoded and the cut state: only the cut record
    // proceeds; nothing else is touched.
    let videos = vec![
        video(b"/w/Encoded/k.avi.otrkey", b"k.avi", Status::Encoded),
        video(b"/w/Cut/k.cut.avi", b"k.avi", Status::Cut),
        video(b"/w/Decoded/a.avi", b"a.avi", Status::Decoded),
    ];
    let sorted = sort_videos(videos);
    let keys: Vec<Vec<u8>> = sorted.iter().map(|v| v.key().bytes.clone()).collect();
    assert_eq!(keys, vec![b"a.avi".to_vec(), b"k.avi".to_vec(), b"k.avi".to_vec()]);
    assert_eq!(sorted[1].status(), Status::Cut);
    assert_eq!(sorted[2].status(), Status::Encoded);
    let unique = dedup_videos(sorted);
    assert_eq!(unique.len(), 2);
    assert_eq!(unique[0].key().bytes, b"a.avi".to_vec());
    assert_eq!(unique[0].status(), Status::Decoded);
    assert_eq!(unique[1].key().bytes, b"k.avi".to_vec());
    assert_eq!(unique[1].status(), Status::Cut);
}

#[test]
fn part_names() {
    assert_eq!(part_file_name(1, SubIntervalID::Pre, b"avi"), b"part-001-1.avi".to_vec());
    assert_eq!(part_file_name(12, SubIntervalID::Main, b"avi"), b"part-012-2.avi".to_vec());
    assert_eq!(part_file_name(3, SubIntervalID::Post, b"mkv"), b"part-003-3.mkv".to_vec());
}

#[test]
fn concatenation_decisions() {
    assert!(concatenation_plan(vec![]).is_err());
    match concatenation_plan(vec![b"part-001-2.avi".to_vec()]).unwrap() {
        ConcatPlan::RenameSingle(n) => assert_eq!(n, b"part-001-2.avi".to_vec()),
        _ => panic!("expected a rename"),
    }
    let plan = concatenation_plan(vec![
        b"part-002-2.avi".to_vec(),
        b"part-001-2.avi".to_vec(),
        b"part-001-1.avi".to_vec(),
    ])
    .unwrap();
    match plan {
        ConcatPlan::Concat(content) => {
            let expected = b"file 'part-001-1.avi'\nfile 'part-001-2.avi'\nfile 'part-002-2.avi'\n";
            assert_eq!(content, expected.to_vec());
        },
        _ => panic!("expected an index"),
    }
}

#[test]
fn error_bookkeeping() {
    let mut v = video(b"/w/Decoded/a.avi", b"a.avi", Status::Decoded);
    assert!(v.error().is_none());
    v.set_error(b"no cut list".to_vec());
    assert_eq!(v.error().as_ref().unwrap(), &b"no cut list".to_vec());
}

#[test]
fn cut_error_messages() {
    assert_eq!(CutError::NoCutlist.message(), b"No cut list exists".to_vec());
    assert_eq!(CutError::Default.message(), b"Default cut error".to_vec());
    assert_eq!(CutError::Any(b"boom".to_vec()).message(), b"Error: boom".to_vec());
    assert_eq!(
        CutError::CutlistSubmissionFailed(b"409".to_vec()).message(),
        b"Submission of cut list failed: 409".to_vec()
    );
}

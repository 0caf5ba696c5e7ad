//! The command surface and the configuration defaulting rules.

use otr::cfg::{
    cutlist_at_access_token, cutlist_rating, min_cutlist_rating, otr_access_data,
    submit_cutlists, working_dir, Cfg, Cutting, Decoding,
};
use otr::cli::{is_cut_command, is_decode_command, is_process_command, Args, Commands};
use otr::cutlist::AccessType;

fn cut_args(intervals: Option<&[u8]>, file: Option<&[u8]>, id: Option<u64>) -> Args {
    Args {
        command: Commands::Cut {
            intervals: intervals.map(|s| s.to_vec()),
            file: file.map(|s| s.to_vec()),
            id,
            rating: Some(2),
            min_rating: Some(1),
            video: b"a.avi".to_vec(),
        },
        verbose: 1,
        quiet: false,
    }
}

#[test]
fn access_type_precedence() {
    match cut_args(Some(b"frames:[1,2]"), Some(b"list.ini"), Some(5)).cutlist_access_type() {
        AccessType::Direct(s) => assert_eq!(s, b"frames:[1,2]".to_vec()),
        _ => panic!("intervals win"),
    }
    match cut_args(None, Some(b"list.ini"), Some(5)).cutlist_access_type() {
        AccessType::File(p) => assert_eq!(p, b"list.ini".to_vec()),
        _ => panic!("the file comes second"),
    }
    match cut_args(None, None, Some(5)).cutlist_access_type() {
        AccessType::ID(n) => assert_eq!(n, 5),
        _ => panic!("the identifier comes third"),
    }
    assert!(matches!(
        cut_args(None, None, None).cutlist_access_type(),
        AccessType::Auto
    ));
}

#[test]
fn command_selectors() {
    let args = cut_args(None, None, None);
    assert!(is_cut_command(&args));
    assert!(!is_decode_command(&args));
    assert!(!is_process_command(&args));
    assert_eq!(args.cutlist_rating(), Some(2));
    assert_eq!(args.min_cutlist_rating(), Some(1));
    assert_eq!(args.verbose(), 1);
    assert!(!args.quiet());
    let videos = args.videos();
    assert_eq!(videos, vec![b"a.avi".to_vec()]);
}

#[test]
fn process_arguments() {
    let args = Args {
        command: Commands::Process {
            user: Some(b"u".to_vec()),
            password: Some(b"p".to_vec()),
            min_rating: None,
            videos: vec![b"x.avi".to_vec(), b"y.avi".to_vec()],
        },
        verbose: 0,
        quiet: true,
    };
    assert!(is_process_command(&args));
    let creds = args.otr_access_data().unwrap();
    assert_eq!(creds.0, b"u".to_vec());
    assert_eq!(creds.1, b"p".to_vec());
    assert_eq!(args.videos().len(), 2);
    assert!(matches!(args.cutlist_access_type(), AccessType::Auto));
}

#[test]
fn missing_credentials() {
    let args = Args {
        command: Commands::Decode {
            user: Some(b"u".to_vec()),
            password: None,
            video: b"a.otrkey".to_vec(),
        },
        verbose: 0,
        quiet: false,
    };
    assert!(is_decode_command(&args));
    assert!(args.otr_access_data().is_none());
}

#[test]
fn configuration_defaults() {
    let empty = Cfg { working_dir: None, decoding: None, cutting: None };
    assert!(cutlist_at_access_token(&empty).is_none());
    assert_eq!(cutlist_rating(&empty), 0);
    assert!(min_cutlist_rating(&empty).is_none());
    assert!(otr_access_data(&empty).is_none());
    assert!(!submit_cutlists(&empty));
    assert!(working_dir(&empty).is_none());
}

#[test]
fn configuration_values() {
    let cfg = Cfg {
        working_dir: Some(b"/videos/recordings".to_vec()),
        decoding: Some(Decoding { user: Some(b"u".to_vec()), password: Some(b"p".to_vec()) }),
        cutting: Some(Cutting {
            min_cutlist_rating: Some(2),
            cutlist_rating: Some(4),
            submit_cutlists: Some(true),
            cutlist_at_access_token: Some(b"token".to_vec()),
        }),
    };
    assert_eq!(working_dir(&cfg).unwrap(), b"/videos/recordings".to_vec());
    let creds = otr_access_data(&cfg).unwrap();
    assert_eq!(creds.0, b"u".to_vec());
    assert_eq!(cutlist_rating(&cfg), 4);
    assert_eq!(min_cutlist_rating(&cfg), Some(2));
    assert!(submit_cutlists(&cfg));
    assert_eq!(cutlist_at_access_token(&cfg).unwrap(), b"token".to_vec());
}

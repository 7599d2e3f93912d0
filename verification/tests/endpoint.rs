use transcode_cache::coordinator_model::Phase;
use transcode_cache::endpoint::{
    decide_range, parse_decimal, parse_play_path, parse_range, play_path, read_stretch,
    resolve_range, ByteRange, RangeDecision, RangePolicy, RangeSpec,
};
use transcode_cache::error::TranscodeError;
use transcode_cache::fingerprint::Fingerprint;
use transcode_cache::store::ArtifactStore;
use transcode_cache::target::{Codec, TargetParams};

#[test]
fn a_play_path_is_written_and_read_back() {
    let key = Fingerprint::from_bytes(b"abc123");
    let path = play_path(&key, b"http://example.com/a.mp3");
    assert_eq!(
        path,
        b"/play/abc123/687474703a2f2f6578616d706c652e636f6d2f612e6d7033".to_vec()
    );
    let request = parse_play_path(&path).unwrap();
    assert_eq!(request.fingerprint, key);
    assert_eq!(request.source, b"http://example.com/a.mp3".to_vec());
}

#[test]
fn what_is_no_play_path_is_invalid_input() {
    for path in [
        &b""[..],
        b"/play",
        b"/play/",
        b"/play/abc",
        b"/play//6162",
        b"/plai/abc/6162",
        b"play/abc/6162",
        b"/play/abc/616",
        b"/play/abc/61zz",
        b"/play/abc/6162/",
        b"/feed/abc/6162",
    ] {
        assert!(
            matches!(parse_play_path(path), Err(TranscodeError::InvalidInput)),
            "{:?}",
            path
        );
    }
    // an empty source reference is read as an empty source
    let bare = parse_play_path(b"/play/abc/").unwrap();
    assert_eq!(bare.source, Vec::<u8>::new());
}

#[test]
fn a_request_is_checked_against_its_source() {
    let target = TargetParams { codec: Codec::Mp3, bitrate: 128 };
    let source = b"http://example.com";
    let key = Fingerprint::compute(source, &target).unwrap();
    let good = parse_play_path(&play_path(&key, source)).unwrap();
    assert!(good.is_consistent(&target));
    assert!(!good.is_consistent(&TargetParams { codec: Codec::Mp3, bitrate: 64 }));
    let forged = parse_play_path(&play_path(&key, b"http://example.org")).unwrap();
    assert!(!forged.is_consistent(&target));
    let unparsable = parse_play_path(&play_path(&key, b"nonsense")).unwrap();
    assert!(!unparsable.is_consistent(&target));
}

#[test]
fn decimal_numbers() {
    assert_eq!(parse_decimal(b"0", 0, 1), Some(0));
    assert_eq!(parse_decimal(b"007", 0, 3), Some(7));
    assert_eq!(parse_decimal(b"x123y", 1, 4), Some(123));
    assert_eq!(parse_decimal(b"123", 1, 1), None);
    assert_eq!(parse_decimal(b"12a", 0, 3), None);
    assert_eq!(parse_decimal(b"-1", 0, 2), None);
    assert_eq!(parse_decimal(b"18446744073709551615", 0, 20), Some(u64::MAX));
    assert_eq!(parse_decimal(b"18446744073709551616", 0, 20), None);
    assert_eq!(parse_decimal(b"99999999999999999999", 0, 20), None);
    assert_eq!(parse_decimal(b"184467440737095516150", 0, 21), None);
}

#[test]
fn range_headers() {
    assert_eq!(parse_range(b"bytes=0-499"), Some(RangeSpec::FromTo(0, 499)));
    assert_eq!(parse_range(b"bytes=500-"), Some(RangeSpec::From(500)));
    assert_eq!(parse_range(b"bytes=-500"), Some(RangeSpec::Last(500)));
    assert_eq!(parse_range(b"bytes=7-3"), Some(RangeSpec::FromTo(7, 3)));
    for header in [
        &b""[..],
        b"bytes=",
        b"bytes=-",
        b"bytes=5",
        b"bytes=a-b",
        b"bytes=1-2,4-5",
        b"bytes=1--2",
        b"bytes= 1-2",
        b"items=1-2",
        b"Bytes=1-2",
        b"bytes=18446744073709551616-",
    ] {
        assert_eq!(parse_range(header), None, "{:?}", header);
    }
}

#[test]
fn ranges_are_resolved_against_the_length() {
    let stretch = |start, end| Some(ByteRange { start, end });
    assert_eq!(resolve_range(RangeSpec::FromTo(0, 0), 10), stretch(0, 1));
    assert_eq!(resolve_range(RangeSpec::FromTo(2, 5), 10), stretch(2, 6));
    assert_eq!(resolve_range(RangeSpec::FromTo(2, 9), 10), stretch(2, 10));
    assert_eq!(resolve_range(RangeSpec::FromTo(2, 10), 10), stretch(2, 10));
    assert_eq!(resolve_range(RangeSpec::FromTo(2, u64::MAX), 10), stretch(2, 10));
    assert_eq!(resolve_range(RangeSpec::FromTo(5, 2), 10), None);
    assert_eq!(resolve_range(RangeSpec::FromTo(10, 12), 10), None);
    assert_eq!(resolve_range(RangeSpec::FromTo(0, 0), 0), None);
    assert_eq!(resolve_range(RangeSpec::From(0), 10), stretch(0, 10));
    assert_eq!(resolve_range(RangeSpec::From(9), 10), stretch(9, 10));
    assert_eq!(resolve_range(RangeSpec::From(10), 10), None);
    assert_eq!(resolve_range(RangeSpec::From(u64::MAX), 10), None);
    assert_eq!(resolve_range(RangeSpec::Last(3), 10), stretch(7, 10));
    assert_eq!(resolve_range(RangeSpec::Last(10), 10), stretch(0, 10));
    assert_eq!(resolve_range(RangeSpec::Last(11), 10), stretch(0, 10));
    assert_eq!(resolve_range(RangeSpec::Last(u64::MAX), 10), stretch(0, 10));
    assert_eq!(resolve_range(RangeSpec::Last(0), 10), None);
    assert_eq!(resolve_range(RangeSpec::Last(3), 0), None);
}

#[test]
fn a_range_of_an_unfinished_artifact_waits_or_is_refused() {
    let range = RangeSpec::FromTo(1, 2);
    for phase in [Phase::Absent, Phase::Claiming, Phase::Producing] {
        assert_eq!(decide_range(phase, 0, range, RangePolicy::Block), RangeDecision::Wait);
        assert_eq!(
            decide_range(phase, 0, range, RangePolicy::Reject),
            RangeDecision::Refuse(TranscodeError::RangeNotYetAvailable)
        );
    }
    for policy in [RangePolicy::Block, RangePolicy::Reject] {
        assert_eq!(
            decide_range(Phase::Committed, 4, range, policy),
            RangeDecision::Serve(ByteRange { start: 1, end: 3 })
        );
        assert_eq!(
            decide_range(Phase::Committed, 1, range, policy),
            RangeDecision::Refuse(TranscodeError::InvalidInput)
        );
    }
}

#[test]
fn a_stretch_is_read_from_a_complete_artifact() {
    let key = Fingerprint::from_bytes(b"k");
    let mut store = ArtifactStore::new();
    let mut handle = store.begin_write(&key, Codec::Mp3);
    handle.write(&[10, 11, 12, 13, 14]);
    store.commit(handle, 0);
    let mut reader = store.open_read(&key).unwrap();
    assert_eq!(read_stretch(&mut reader, ByteRange { start: 1, end: 4 }), vec![11, 12, 13]);
    assert_eq!(reader.position(), 4);
    assert_eq!(read_stretch(&mut reader, ByteRange { start: 0, end: 5 }), vec![10, 11, 12, 13, 14]);
    assert_eq!(read_stretch(&mut reader, ByteRange { start: 5, end: 5 }), Vec::<u8>::new());
}

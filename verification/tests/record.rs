use transcode_cache::error::TranscodeError;
use transcode_cache::record::{decode_record, encode_record};
use transcode_cache::target::Codec;

#[test]
fn a_record_is_written_in_its_form() {
    assert_eq!(
        encode_record(Codec::Mp3, 7, &[9, 8, 7]),
        vec![84, 67, 65, 49, 1, 7, 0, 0, 0, 0, 0, 0, 0, 3, 0, 0, 0, 0, 0, 0, 0, 9, 8, 7]
    );
    assert_eq!(
        encode_record(Codec::Opus, 0x0102030405060708, &[]),
        vec![84, 67, 65, 49, 3, 8, 7, 6, 5, 4, 3, 2, 1, 0, 0, 0, 0, 0, 0, 0, 0]
    );
}

#[test]
fn a_record_is_read_as_it_was_written() {
    for codec in [Codec::Mp3, Codec::Aac, Codec::Opus] {
        for payload in [&b""[..], b"x", b"a longer payload"] {
            let record = decode_record(&encode_record(codec, 99, payload)).unwrap();
            assert_eq!(record.codec, codec);
            assert_eq!(record.created_at, 99);
            assert_eq!(record.payload, payload.to_vec());
        }
    }
}

#[test]
fn what_does_not_agree_with_itself_is_corrupt() {
    let good = encode_record(Codec::Mp3, 7, &[9, 8, 7]);
    assert!(decode_record(&good).is_ok());
    let corrupt = |bytes: &[u8]| matches!(decode_record(bytes), Err(TranscodeError::Corrupt));
    assert!(corrupt(&[]));
    assert!(corrupt(&good[..20]));
    assert!(corrupt(&good[..23]));
    let mut longer = good.clone();
    longer.push(0);
    assert!(corrupt(&longer));
    for (place, value) in [(0, 0), (3, 50), (4, 0), (4, 4), (13, 4), (20, 1)] {
        let mut wrong = good.clone();
        wrong[place] = value;
        assert!(corrupt(&wrong), "byte {} as {}", place, value);
    }
}

use transcode_cache::canonical::{
    canonical_source, join_pieces, lower, parse_source, sort_pieces, split_query,
};
use transcode_cache::error::TranscodeError;
use transcode_cache::fingerprint::Fingerprint;
use transcode_cache::hash::{digits, fnv1a};
use transcode_cache::hex::{hex_decode, hex_digit, hex_encode, hex_value};
use transcode_cache::ordering::comes_first;
use transcode_cache::scan::{find_stop, Stop};
use transcode_cache::target::{Codec, TargetParams};

const MP3_128: TargetParams = TargetParams { codec: Codec::Mp3, bitrate: 128 };
const OPUS_64: TargetParams = TargetParams { codec: Codec::Opus, bitrate: 64 };

fn canonical(url: &str) -> Result<String, TranscodeError> {
    canonical_source(url.as_bytes()).map(|bytes| String::from_utf8(bytes).unwrap())
}

fn fingerprint(url: &str, target: &TargetParams) -> Result<String, TranscodeError> {
    Fingerprint::compute(url.as_bytes(), target)
        .map(|key| String::from_utf8(key.as_bytes().to_vec()).unwrap())
}

#[test]
fn the_hash_is_fnv1a() {
    assert_eq!(fnv1a(b""), 0xcbf29ce484222325);
    assert_eq!(fnv1a(b"a"), 0xaf63dc4c8601ec8c);
    assert_eq!(fnv1a(b"foobar"), 0x85944171f73967e8);
}

#[test]
fn a_hash_is_written_in_sixteen_digits() {
    assert_eq!(digits(0), b"0000000000000000".to_vec());
    assert_eq!(digits(0x0123456789abcdef), b"0123456789abcdef".to_vec());
    assert_eq!(digits(u64::MAX), b"ffffffffffffffff".to_vec());
}

#[test]
fn canonical_forms() {
    assert_eq!(
        canonical("https://Example.COM/Audio/ep1.mp3?b=2&a=1#t=30"),
        Ok("https://example.com/Audio/ep1.mp3?a=1&b=2".to_string())
    );
    assert_eq!(canonical("http://example.com"), Ok("http://example.com/".to_string()));
    assert_eq!(canonical("http://example.com/"), Ok("http://example.com/".to_string()));
    assert_eq!(canonical("http://example.com/a?x"), Ok("http://example.com/a?x".to_string()));
    assert_eq!(canonical("http://example.com/a?"), Ok("http://example.com/a".to_string()));
    assert_eq!(canonical("http://example.com?q=1"), Ok("http://example.com/?q=1".to_string()));
    assert_eq!(canonical("http://example.com#top"), Ok("http://example.com/".to_string()));
    assert_eq!(canonical("http://h/p?b&a&&c=1"), Ok("http://h/p?&a&b&c=1".to_string()));
    assert_eq!(
        canonical("Svn+SSH://User@Host:8080/Path?Q=V"),
        Ok("svn+ssh://user@host:8080/Path?Q=V".to_string())
    );
}

#[test]
fn what_is_no_url_is_invalid_input() {
    for url in [
        "",
        "example.com/a.mp3",
        "http:/example.com",
        "http//example.com",
        "http://",
        "http:///path",
        "http://?q",
        "://example.com",
        "1http://example.com",
        "ht tp://example.com",
        "http://exa mple.com",
        "http://example.com/a\n",
        "http://example.com/\u{e9}",
        "a:",
        "a:/",
        "a://",
    ] {
        assert_eq!(canonical(url), Err(TranscodeError::InvalidInput), "{:?}", url);
        assert_eq!(fingerprint(url, &MP3_128), Err(TranscodeError::InvalidInput), "{:?}", url);
    }
}

#[test]
fn fingerprints_of_known_sources() {
    assert_eq!(
        fingerprint("https://Example.COM/Audio/ep1.mp3?b=2&a=1#t=30", &MP3_128),
        Ok("f1f2d4e43c530c0f".to_string())
    );
    assert_eq!(
        fingerprint("https://Example.COM/Audio/ep1.mp3?b=2&a=1#t=30", &OPUS_64),
        Ok("0b50db3936f24d95".to_string())
    );
    assert_eq!(fingerprint("http://example.com", &MP3_128), Ok("01a22a012f7eadc6".to_string()));
    assert_eq!(fingerprint("http://example.com", &OPUS_64), Ok("e84523ac34e11f40".to_string()));
    assert_eq!(fingerprint("http://h/p?b&a&&c=1", &MP3_128), Ok("dc6f8883447ac4a0".to_string()));
}

#[test]
fn equivalent_sources_have_one_fingerprint() {
    let forms = [
        "https://example.com/Audio/ep1.mp3?a=1&b=2",
        "HTTPS://example.com/Audio/ep1.mp3?a=1&b=2",
        "https://EXAMPLE.com/Audio/ep1.mp3?b=2&a=1",
        "https://example.com/Audio/ep1.mp3?b=2&a=1#chapter-2",
    ];
    for form in forms {
        assert_eq!(fingerprint(form, &MP3_128), fingerprint(forms[0], &MP3_128));
    }
    // the same input always gives the same fingerprint
    assert_eq!(fingerprint(forms[0], &OPUS_64), fingerprint(forms[0], &OPUS_64));
}

#[test]
fn different_inputs_have_different_fingerprints() {
    let base = fingerprint("https://example.com/Audio/ep1.mp3", &MP3_128);
    assert_ne!(fingerprint("https://example.com/audio/ep1.mp3", &MP3_128), base);
    assert_ne!(fingerprint("http://example.com/Audio/ep1.mp3", &MP3_128), base);
    assert_ne!(fingerprint("https://example.com/Audio/ep1.mp3?a", &MP3_128), base);
    assert_ne!(fingerprint("https://example.com/Audio/ep1.mp3", &OPUS_64), base);
    assert_ne!(
        fingerprint(
            "https://example.com/Audio/ep1.mp3",
            &TargetParams { codec: Codec::Mp3, bitrate: 129 }
        ),
        base
    );
    assert_ne!(
        fingerprint(
            "https://example.com/Audio/ep1.mp3",
            &TargetParams { codec: Codec::Aac, bitrate: 128 }
        ),
        base
    );
}

#[test]
fn a_fingerprint_is_its_bytes() {
    let key = Fingerprint::from_bytes(b"abc123");
    assert_eq!(key.as_bytes(), b"abc123");
    assert!(key.equals_bytes(b"abc123"));
    assert!(!key.equals_bytes(b"abc124"));
    assert!(!key.equals_bytes(b"abc12"));
    assert_eq!(key.clone(), key);
    assert_ne!(Fingerprint::from_bytes(b"abc12"), key);
    assert_ne!(Fingerprint::from_bytes(b""), key);
}

#[test]
fn the_parts_of_a_source() {
    let parts = parse_source(b"HTTP://User@Host:80/a/b?x=1&y#frag").unwrap();
    assert_eq!(parts.scheme, b"HTTP".to_vec());
    assert_eq!(parts.authority, b"User@Host:80".to_vec());
    assert_eq!(parts.path, b"/a/b".to_vec());
    assert_eq!(parts.query, b"x=1&y".to_vec());
    assert_eq!(parts.canonical(), b"http://user@host:80/a/b?x=1&y".to_vec());

    let bare = parse_source(b"x://h").unwrap();
    assert_eq!(bare.path, Vec::<u8>::new());
    assert_eq!(bare.query, Vec::<u8>::new());
    assert!(matches!(parse_source(b"x:/h"), Err(TranscodeError::InvalidInput)));
}

#[test]
fn stops_are_found() {
    let text = b"ab:/c?d#e-f";
    assert_eq!(find_stop(text, Stop::Colon, 0), 2);
    assert_eq!(find_stop(text, Stop::Colon, 3), 11);
    assert_eq!(find_stop(text, Stop::AuthorityEnd, 0), 3);
    assert_eq!(find_stop(text, Stop::AuthorityEnd, 4), 5);
    assert_eq!(find_stop(text, Stop::AuthorityEnd, 6), 7);
    assert_eq!(find_stop(text, Stop::PathEnd, 0), 5);
    assert_eq!(find_stop(text, Stop::Fragment, 0), 7);
    assert_eq!(find_stop(text, Stop::Slash, 0), 3);
    assert_eq!(find_stop(text, Stop::Dash, 0), 9);
    assert_eq!(find_stop(text, Stop::Dash, 11), 11);
    assert!(Stop::Slash.hits(b'/'));
    assert!(!Stop::Slash.hits(b'?'));
}

#[test]
fn queries_are_split_sorted_and_joined() {
    let pieces = split_query(b"b=2&a=1&&c");
    assert_eq!(pieces, vec![b"b=2".to_vec(), b"a=1".to_vec(), b"".to_vec(), b"c".to_vec()]);
    assert_eq!(split_query(b""), vec![Vec::<u8>::new()]);
    assert_eq!(split_query(b"&"), vec![Vec::<u8>::new(), Vec::<u8>::new()]);
    let ordered = sort_pieces(pieces);
    assert_eq!(ordered, vec![b"".to_vec(), b"a=1".to_vec(), b"b=2".to_vec(), b"c".to_vec()]);
    assert_eq!(join_pieces(&ordered), b"&a=1&b=2&c".to_vec());
    assert_eq!(join_pieces(&Vec::new()), Vec::<u8>::new());
    assert_eq!(
        sort_pieces(vec![b"b".to_vec(), b"ab".to_vec(), b"a".to_vec(), b"b".to_vec(), b"B".to_vec()]),
        vec![b"B".to_vec(), b"a".to_vec(), b"ab".to_vec(), b"b".to_vec(), b"b".to_vec()]
    );
    assert_eq!(lower(b"AbC-Z[@`az"), b"abc-z[@`az".to_vec());
}

#[test]
fn byte_strings_are_ordered_byte_by_byte() {
    assert!(comes_first(b"", b""));
    assert!(comes_first(b"", b"a"));
    assert!(!comes_first(b"a", b""));
    assert!(comes_first(b"a", b"a"));
    assert!(comes_first(b"a", b"ab"));
    assert!(!comes_first(b"ab", b"a"));
    assert!(comes_first(b"ab", b"b"));
    assert!(!comes_first(b"b", b"ab"));
    assert!(comes_first(&[0x7f], &[0x80]));
    assert!(!comes_first(&[0xff], &[0x00, 0x01]));
}

#[test]
fn hexadecimal_digits() {
    assert_eq!(hex_encode(&[0x00, 0x0f, 0xa5, 0xff]), b"000fa5ff".to_vec());
    assert_eq!(hex_encode(&[]), Vec::<u8>::new());
    assert_eq!(hex_decode(b"000fa5ff"), Some(vec![0x00, 0x0f, 0xa5, 0xff]));
    assert_eq!(hex_decode(b""), Some(vec![]));
    assert_eq!(hex_decode(b"0"), None);
    assert_eq!(hex_decode(b"0g"), None);
    assert_eq!(hex_decode(b"0A"), None);
    assert_eq!(hex_decode(b"a/"), None);
    assert_eq!(hex_digit(0), b'0');
    assert_eq!(hex_digit(9), b'9');
    assert_eq!(hex_digit(10), b'a');
    assert_eq!(hex_digit(15), b'f');
    assert_eq!(hex_value(b'0'), Some(0));
    assert_eq!(hex_value(b'f'), Some(15));
    assert_eq!(hex_value(b'F'), None);
    assert_eq!(hex_value(b':'), None);
    for byte in 0..=255u8 {
        assert_eq!(hex_decode(&hex_encode(&[byte, 1])), Some(vec![byte, 1]));
    }
}

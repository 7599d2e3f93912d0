use transcode_cache::provider::{choose_provider, Passthrough, ProviderKind, Pulled};
use transcode_cache::target::Codec;

#[test]
fn a_source_in_the_target_codec_is_handed_on() {
    for configured in [ProviderKind::ExternalProcess, ProviderKind::RemoteApi, ProviderKind::Passthrough] {
        assert_eq!(
            choose_provider(Some(Codec::Mp3), Codec::Mp3, configured),
            ProviderKind::Passthrough
        );
        assert_eq!(choose_provider(Some(Codec::Aac), Codec::Mp3, configured), configured);
        assert_eq!(choose_provider(None, Codec::Mp3, configured), configured);
    }
}

#[test]
fn the_output_is_the_input() {
    let source: Vec<u8> = (0..=255).collect();
    let mut provider = Passthrough::new(7);
    let mut offered = 0;
    let mut output = Vec::new();
    let mut turns = 0;
    loop {
        turns += 1;
        assert!(turns < 10_000);
        if offered < source.len() {
            offered += provider.offer(&source[offered..]);
            if offered == source.len() {
                provider.close();
            }
        }
        match provider.pull(3) {
            Pulled::Bytes(bytes) => {
                assert!(!bytes.is_empty() && bytes.len() <= 3);
                output.extend_from_slice(&bytes);
            }
            Pulled::Waiting => assert!(offered < source.len()),
            Pulled::Done => break,
        }
    }
    assert_eq!(output, source);
}

#[test]
fn no_more_is_taken_in_than_there_is_room_for() {
    let mut provider = Passthrough::new(4);
    assert_eq!(provider.room(), 4);
    assert_eq!(provider.pull(9), Pulled::Waiting);
    assert_eq!(provider.offer(&[1, 2, 3]), 3);
    assert_eq!(provider.room(), 1);
    // the output is not pulled: the source has to wait
    assert_eq!(provider.offer(&[4, 5, 6]), 1);
    assert_eq!(provider.offer(&[5, 6]), 0);
    assert_eq!(provider.room(), 0);
    assert_eq!(provider.pull(0), Pulled::Bytes(vec![]));
    assert_eq!(provider.pull(2), Pulled::Bytes(vec![1, 2]));
    assert_eq!(provider.offer(&[5, 6, 7]), 2);
    provider.close();
    assert_eq!(provider.offer(&[7]), 0);
    assert_eq!(provider.pull(9), Pulled::Bytes(vec![3, 4, 5, 6]));
    assert_eq!(provider.pull(9), Pulled::Done);
    assert_eq!(provider.pull(9), Pulled::Done);
}

#[test]
fn a_passthrough_without_room_takes_nothing() {
    let mut provider = Passthrough::new(0);
    assert_eq!(provider.offer(&[1]), 0);
    assert_eq!(provider.pull(1), Pulled::Waiting);
    provider.close();
    assert_eq!(provider.pull(1), Pulled::Done);
}

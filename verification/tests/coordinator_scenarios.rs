use transcode_cache::coordinator::{Coordinator, Delivery, Outcome};
use transcode_cache::coordinator_model::{Phase, Settings};
use transcode_cache::error::TranscodeError;
use transcode_cache::fingerprint::Fingerprint;
use transcode_cache::target::Codec;

fn slot_of(outcome: &Outcome) -> usize {
    match outcome {
        Outcome::Produce(slot) | Outcome::Attached(slot) => *slot,
        Outcome::Cached(_) => panic!("served from the store"),
    }
}

fn drain(coordinator: &mut Coordinator, slot: usize) -> Result<Vec<u8>, TranscodeError> {
    let mut received = Vec::new();
    loop {
        match coordinator.poll(slot, 3) {
            Delivery::Bytes(bytes) => {
                assert!(!bytes.is_empty(), "the stream neither ends nor goes on");
                received.extend_from_slice(&bytes);
            }
            Delivery::End => return Ok(received),
            Delivery::Failed(error) => return Err(error),
        }
    }
}

fn stored(coordinator: &Coordinator, key: &Fingerprint) -> Option<Vec<u8>> {
    match coordinator.store().open_read(key) {
        Ok(mut reader) => Some(reader.read(usize::MAX)),
        Err(_) => None,
    }
}

#[test]
fn two_simultaneous_requests_share_one_production() {
    let key = Fingerprint::from_bytes(b"abc123");
    let mut coordinator = Coordinator::new(1024);
    let mut invocations = 0;

    let first = coordinator.request(&key, Codec::Mp3, 0);
    if let Outcome::Produce(_) = first {
        invocations += 1;
    }
    let second = coordinator.request(&key, Codec::Mp3, 0);
    if let Outcome::Produce(_) = second {
        invocations += 1;
    }
    assert!(matches!(first, Outcome::Produce(_)));
    assert!(matches!(second, Outcome::Attached(_)));
    assert_eq!(invocations, 1);
    assert_eq!(coordinator.in_flight(), 1);

    // the provider answers after a delay
    assert_eq!(coordinator.phase(&key), Phase::Claiming);
    assert_eq!(coordinator.produce(&key, &[1, 2, 3, 4]), Ok(()));
    assert_eq!(coordinator.phase(&key), Phase::Producing);
    assert_eq!(coordinator.finish(&key, 7), Ok(()));
    assert_eq!(coordinator.phase(&key), Phase::Committed);

    assert_eq!(drain(&mut coordinator, slot_of(&first)), Ok(vec![1, 2, 3, 4]));
    assert_eq!(drain(&mut coordinator, slot_of(&second)), Ok(vec![1, 2, 3, 4]));
    assert_eq!(stored(&coordinator, &key), Some(vec![1, 2, 3, 4]));
    assert_eq!(coordinator.in_flight(), 0);
}

#[test]
fn a_consumer_that_leaves_early_stops_nothing() {
    let key = Fingerprint::from_bytes(b"abc123");
    let mut coordinator = Coordinator::new(1024);
    let leaver = slot_of(&coordinator.request(&key, Codec::Mp3, 0));
    let stayer = slot_of(&coordinator.request(&key, Codec::Mp3, 0));

    assert_eq!(coordinator.produce(&key, &[1]), Ok(()));
    match coordinator.poll(leaver, 16) {
        Delivery::Bytes(bytes) => assert_eq!(bytes, vec![1]),
        _ => panic!("one byte was ready"),
    }
    coordinator.disconnect(leaver);

    assert_eq!(coordinator.produce(&key, &[2, 3]), Ok(()));
    assert_eq!(coordinator.produce(&key, &[4]), Ok(()));
    assert_eq!(coordinator.finish(&key, 0), Ok(()));

    assert_eq!(drain(&mut coordinator, stayer), Ok(vec![1, 2, 3, 4]));
    assert_eq!(stored(&coordinator, &key), Some(vec![1, 2, 3, 4]));
    assert!(matches!(
        coordinator.poll(leaver, 16),
        Delivery::Failed(TranscodeError::NotFound)
    ));
}

#[test]
fn a_complete_artifact_is_served_though_the_provider_always_fails() {
    let key = Fingerprint::from_bytes(b"abc123");
    let mut coordinator = Coordinator::new(8);
    let _ = coordinator.request(&key, Codec::Opus, 0);
    assert_eq!(coordinator.produce(&key, &[9, 8, 7]), Ok(()));
    assert_eq!(coordinator.finish(&key, 1), Ok(()));

    // from here on a provider would fail every call: it is never asked
    for _ in 0..3 {
        match coordinator.request(&key, Codec::Opus, 0) {
            Outcome::Cached(mut reader) => assert_eq!(reader.read(100), vec![9, 8, 7]),
            Outcome::Produce(_) => panic!("the provider was asked"),
            Outcome::Attached(_) => panic!("nothing is in flight"),
        }
    }
    assert_eq!(coordinator.in_flight(), 0);
}

#[test]
fn a_failed_production_leaves_the_key_absent() {
    let key = Fingerprint::from_bytes(b"abc123");
    let mut coordinator = Coordinator::new(1024);
    let first = slot_of(&coordinator.request(&key, Codec::Mp3, 0));
    let second = slot_of(&coordinator.request(&key, Codec::Mp3, 0));
    assert_eq!(coordinator.produce(&key, &[1, 2]), Ok(()));

    assert_eq!(coordinator.fail(&key, TranscodeError::TranscodeFailed), Ok(()));

    assert_eq!(coordinator.phase(&key), Phase::Absent);
    assert!(!coordinator.store().contains(&key));
    assert_eq!(coordinator.store().len(), 0);
    assert_eq!(coordinator.in_flight(), 0);
    // the failure reaches every consumer as it is, and what was queued is gone
    assert_eq!(drain(&mut coordinator, first), Err(TranscodeError::TranscodeFailed));
    assert_eq!(drain(&mut coordinator, second), Err(TranscodeError::TranscodeFailed));
    // the next request starts afresh
    assert!(matches!(coordinator.request(&key, Codec::Mp3, 0), Outcome::Produce(_)));
}

#[test]
fn every_failure_is_passed_on_verbatim() {
    let errors = [
        TranscodeError::ProviderUnavailable,
        TranscodeError::UnsupportedFormat,
        TranscodeError::SourceFetchFailed,
        TranscodeError::TranscodeFailed,
        TranscodeError::StoreUnavailable,
    ];
    for error in errors {
        let key = Fingerprint::from_bytes(b"k");
        let mut coordinator = Coordinator::new(4);
        let slot = slot_of(&coordinator.request(&key, Codec::Aac, 0));
        assert_eq!(coordinator.fail(&key, error), Ok(()));
        assert!(matches!(coordinator.poll(slot, 1), Delivery::Failed(e) if e == error));
        // the slot is free again
        assert!(matches!(
            coordinator.poll(slot, 1),
            Delivery::Failed(TranscodeError::NotFound)
        ));
    }
}

#[test]
fn a_slow_consumer_is_dropped_and_the_rest_goes_on() {
    let key = Fingerprint::from_bytes(b"slow");
    let mut coordinator = Coordinator::new(3);
    let slow = slot_of(&coordinator.request(&key, Codec::Mp3, 0));
    let quick = slot_of(&coordinator.request(&key, Codec::Mp3, 0));
    let mut received = Vec::new();

    assert_eq!(coordinator.produce(&key, &[1, 2, 3]), Ok(()));
    if let Delivery::Bytes(bytes) = coordinator.poll(quick, 8) {
        received.extend_from_slice(&bytes);
    }
    // the slow one has three bytes queued: the limit; one more is too many
    assert_eq!(coordinator.produce(&key, &[4]), Ok(()));
    assert!(matches!(
        coordinator.poll(slow, 8),
        Delivery::Failed(TranscodeError::ConsumerTooSlow)
    ));
    assert_eq!(coordinator.finish(&key, 0), Ok(()));
    received.extend_from_slice(&drain(&mut coordinator, quick).unwrap());

    assert_eq!(received, vec![1, 2, 3, 4]);
    assert_eq!(stored(&coordinator, &key), Some(vec![1, 2, 3, 4]));
}

#[test]
fn a_queue_may_be_filled_to_the_limit() {
    let key = Fingerprint::from_bytes(b"full");
    let mut coordinator = Coordinator::new(4);
    let slot = slot_of(&coordinator.request(&key, Codec::Mp3, 0));
    assert_eq!(coordinator.produce(&key, &[1, 2]), Ok(()));
    assert_eq!(coordinator.produce(&key, &[3, 4]), Ok(()));
    match coordinator.poll(slot, 100) {
        Delivery::Bytes(bytes) => assert_eq!(bytes, vec![1, 2, 3, 4]),
        _ => panic!("four bytes were queued"),
    }
}

#[test]
fn a_late_consumer_gets_the_stream_from_its_start() {
    let key = Fingerprint::from_bytes(b"late");
    let mut coordinator = Coordinator::new(64);
    let _ = coordinator.request(&key, Codec::Mp3, 0);
    assert_eq!(coordinator.produce(&key, &[10, 11]), Ok(()));
    let late = coordinator.request(&key, Codec::Mp3, 0);
    assert!(matches!(late, Outcome::Attached(1)));
    assert_eq!(coordinator.produce(&key, &[12]), Ok(()));
    assert_eq!(coordinator.finish(&key, 0), Ok(()));
    assert_eq!(drain(&mut coordinator, slot_of(&late)), Ok(vec![10, 11, 12]));
}

#[test]
fn a_poll_takes_no_more_than_it_asks_for() {
    let key = Fingerprint::from_bytes(b"poll");
    let mut coordinator = Coordinator::new(64);
    let slot = slot_of(&coordinator.request(&key, Codec::Mp3, 0));
    // nothing is ready yet
    assert!(matches!(coordinator.poll(slot, 5), Delivery::Bytes(bytes) if bytes.is_empty()));
    assert_eq!(coordinator.produce(&key, &[1, 2, 3, 4, 5]), Ok(()));
    assert!(matches!(coordinator.poll(slot, 2), Delivery::Bytes(bytes) if bytes == vec![1, 2]));
    assert!(matches!(coordinator.poll(slot, 0), Delivery::Bytes(bytes) if bytes.is_empty()));
    assert!(matches!(coordinator.poll(slot, 2), Delivery::Bytes(bytes) if bytes == vec![3, 4]));
    assert_eq!(coordinator.finish(&key, 0), Ok(()));
    assert!(matches!(coordinator.poll(slot, 9), Delivery::Bytes(bytes) if bytes == vec![5]));
    assert!(matches!(coordinator.poll(slot, 9), Delivery::End));
    assert!(matches!(
        coordinator.poll(slot, 9),
        Delivery::Failed(TranscodeError::NotFound)
    ));
    assert!(matches!(
        coordinator.poll(77, 9),
        Delivery::Failed(TranscodeError::NotFound)
    ));
}

#[test]
fn a_vacant_slot_is_used_again() {
    let a = Fingerprint::from_bytes(b"a");
    let b = Fingerprint::from_bytes(b"b");
    let mut coordinator = Coordinator::new(8);
    assert!(matches!(coordinator.request(&a, Codec::Mp3, 0), Outcome::Produce(0)));
    assert!(matches!(coordinator.request(&a, Codec::Mp3, 0), Outcome::Attached(1)));
    assert!(matches!(coordinator.request(&b, Codec::Mp3, 0), Outcome::Produce(2)));
    coordinator.disconnect(1);
    coordinator.disconnect(99);
    assert!(matches!(coordinator.request(&b, Codec::Mp3, 0), Outcome::Attached(1)));
    assert!(matches!(coordinator.request(&b, Codec::Mp3, 0), Outcome::Attached(3)));
    assert_eq!(coordinator.in_flight(), 2);
}

#[test]
fn productions_of_different_keys_do_not_mix() {
    let a = Fingerprint::from_bytes(b"a");
    let b = Fingerprint::from_bytes(b"b");
    let mut coordinator = Coordinator::new(8);
    let on_a = slot_of(&coordinator.request(&a, Codec::Mp3, 0));
    let on_b = slot_of(&coordinator.request(&b, Codec::Opus, 0));
    assert_eq!(coordinator.produce(&a, &[1]), Ok(()));
    assert_eq!(coordinator.produce(&b, &[2, 2]), Ok(()));
    assert_eq!(coordinator.fail(&a, TranscodeError::SourceFetchFailed), Ok(()));
    assert_eq!(coordinator.finish(&b, 5), Ok(()));
    assert_eq!(drain(&mut coordinator, on_a), Err(TranscodeError::SourceFetchFailed));
    assert_eq!(drain(&mut coordinator, on_b), Ok(vec![2, 2]));
    assert_eq!(stored(&coordinator, &a), None);
    assert_eq!(stored(&coordinator, &b), Some(vec![2, 2]));
}

#[test]
fn without_a_production_nothing_is_taken_or_ended() {
    let key = Fingerprint::from_bytes(b"none");
    let mut coordinator = Coordinator::new(8);
    assert_eq!(coordinator.produce(&key, &[1]), Err(TranscodeError::NotFound));
    assert_eq!(coordinator.finish(&key, 0), Err(TranscodeError::NotFound));
    assert_eq!(
        coordinator.fail(&key, TranscodeError::TranscodeFailed),
        Err(TranscodeError::NotFound)
    );
    assert_eq!(coordinator.phase(&key), Phase::Absent);
    assert_eq!(coordinator.store().len(), 0);
}

#[test]
fn an_empty_production_is_committed_as_an_empty_artifact() {
    let key = Fingerprint::from_bytes(b"empty");
    let mut coordinator = Coordinator::new(8);
    let slot = slot_of(&coordinator.request(&key, Codec::Mp3, 0));
    assert_eq!(coordinator.produce(&key, &[]), Ok(()));
    assert_eq!(coordinator.phase(&key), Phase::Claiming);
    assert_eq!(coordinator.finish(&key, 0), Ok(()));
    assert!(matches!(coordinator.poll(slot, 4), Delivery::End));
    assert_eq!(stored(&coordinator, &key), Some(vec![]));
}

#[test]
fn eviction_makes_a_key_absent_again() {
    let old = Fingerprint::from_bytes(b"old");
    let new = Fingerprint::from_bytes(b"new");
    let mut coordinator = Coordinator::new(8);
    for (key, byte) in [(&old, 1u8), (&new, 2u8)] {
        let _ = coordinator.request(key, Codec::Mp3, 0);
        assert_eq!(coordinator.produce(key, &[byte]), Ok(()));
        assert_eq!(coordinator.finish(key, 0), Ok(()));
    }
    let mut reader = match coordinator.request(&old, Codec::Mp3, 0) {
        Outcome::Cached(reader) => reader,
        _ => panic!("the artifact is complete"),
    };

    assert_eq!(coordinator.evict_oldest(), Some(Fingerprint::from_bytes(b"old")));
    assert_eq!(coordinator.phase(&old), Phase::Absent);
    assert_eq!(coordinator.phase(&new), Phase::Committed);
    // the reader that was open reads on
    assert_eq!(reader.read(10), vec![1]);
    assert!(coordinator.evict(&new));
    assert!(!coordinator.evict(&new));
    assert_eq!(coordinator.evict_oldest(), None);
    assert!(matches!(coordinator.request(&old, Codec::Mp3, 0), Outcome::Produce(_)));
}

#[test]
fn trimming_keeps_the_latest_artifacts() {
    let mut coordinator = Coordinator::new(8);
    for name in [b"k1", b"k2", b"k3", b"k4"] {
        let key = Fingerprint::from_bytes(name);
        let _ = coordinator.request(&key, Codec::Mp3, 0);
        assert_eq!(coordinator.finish(&key, 0), Ok(()));
    }
    assert_eq!(coordinator.trim(9), 0);
    assert_eq!(coordinator.trim(2), 2);
    assert!(!coordinator.store().contains(&Fingerprint::from_bytes(b"k1")));
    assert!(!coordinator.store().contains(&Fingerprint::from_bytes(b"k2")));
    assert!(coordinator.store().contains(&Fingerprint::from_bytes(b"k3")));
    assert!(coordinator.store().contains(&Fingerprint::from_bytes(b"k4")));
    assert_eq!(coordinator.trim(0), 2);
    assert_eq!(coordinator.store().len(), 0);
}

#[test]
fn a_record_from_outside_is_a_cache_hit_afterwards() {
    let key = Fingerprint::from_bytes(b"abc123");
    let mut source = Coordinator::new(8);
    let _ = source.request(&key, Codec::Aac, 0);
    assert_eq!(source.produce(&key, &[9, 8, 7]), Ok(()));
    assert_eq!(source.finish(&key, 7), Ok(()));
    let record = source.export(&key).unwrap();
    assert_eq!(
        record,
        vec![84, 67, 65, 49, 2, 7, 0, 0, 0, 0, 0, 0, 0, 3, 0, 0, 0, 0, 0, 0, 0, 9, 8, 7]
    );
    assert_eq!(source.export(&Fingerprint::from_bytes(b"other")), None);

    let mut coordinator = Coordinator::new(8);
    assert_eq!(coordinator.restore(&key, &record), Ok(true));
    assert_eq!(coordinator.restore(&key, &record), Ok(false));
    assert_eq!(coordinator.phase(&key), Phase::Committed);
    assert_eq!(stored(&coordinator, &key), Some(vec![9, 8, 7]));
    assert!(matches!(coordinator.request(&key, Codec::Aac, 0), Outcome::Cached(_)));
}

#[test]
fn a_corrupt_record_invalidates_the_key() {
    let key = Fingerprint::from_bytes(b"abc123");
    let mut coordinator = Coordinator::new(8);
    let _ = coordinator.request(&key, Codec::Mp3, 0);
    assert_eq!(coordinator.finish(&key, 0), Ok(()));
    assert_eq!(coordinator.restore(&key, &[1, 2, 3]), Err(TranscodeError::Corrupt));
    assert_eq!(coordinator.phase(&key), Phase::Absent);
}

#[test]
fn a_record_does_not_disturb_a_production() {
    let key = Fingerprint::from_bytes(b"abc123");
    let record = vec![84, 67, 65, 49, 1, 0, 0, 0, 0, 0, 0, 0, 0, 1, 0, 0, 0, 0, 0, 0, 0, 5];
    let mut coordinator = Coordinator::new(8);
    let slot = slot_of(&coordinator.request(&key, Codec::Mp3, 0));
    assert_eq!(coordinator.produce(&key, &[1]), Ok(()));
    assert_eq!(coordinator.restore(&key, &record), Ok(false));
    assert_eq!(coordinator.restore(&key, &[0]), Err(TranscodeError::Corrupt));
    assert_eq!(coordinator.phase(&key), Phase::Producing);
    assert_eq!(coordinator.finish(&key, 0), Ok(()));
    assert_eq!(drain(&mut coordinator, slot), Ok(vec![1]));
    assert_eq!(stored(&coordinator, &key), Some(vec![1]));
}

#[test]
fn many_requests_make_one_invocation() {
    for waiting in 1..20 {
        let key = Fingerprint::from_bytes(b"many");
        let mut coordinator = Coordinator::new(16);
        let mut invocations = 0;
        let mut slots = Vec::new();
        for turn in 0..waiting {
            match coordinator.request(&key, Codec::Mp3, 0) {
                Outcome::Produce(slot) => {
                    invocations += 1;
                    slots.push(slot);
                }
                Outcome::Attached(slot) => slots.push(slot),
                Outcome::Cached(_) => panic!("nothing was committed"),
            }
            if turn % 3 == 0 {
                assert_eq!(coordinator.produce(&key, &[turn as u8]), Ok(()));
                for slot in &slots {
                    let _ = coordinator.poll(*slot, 0);
                }
            }
        }
        assert_eq!(invocations, 1);
        assert_eq!(coordinator.in_flight(), 1);
    }
}

#[test]
fn a_new_coordinator_runs_productions_to_their_end() {
    let coordinator = Coordinator::new(5);
    assert_eq!(
        coordinator.settings(),
        Settings { queue_limit: 5, claim_timeout: u64::MAX, cancel_abandoned: false }
    );
    let settings = Settings { queue_limit: 1, claim_timeout: 2, cancel_abandoned: true };
    assert_eq!(Coordinator::with_settings(settings).settings(), settings);
}

#[test]
fn a_production_that_is_out_of_time_fails() {
    let key = Fingerprint::from_bytes(b"abc123");
    let other = Fingerprint::from_bytes(b"other");
    let mut coordinator = Coordinator::with_settings(Settings {
        queue_limit: 16,
        claim_timeout: 30,
        cancel_abandoned: false,
    });
    let slot = slot_of(&coordinator.request(&key, Codec::Mp3, 100));
    let _ = coordinator.request(&other, Codec::Mp3, 110);
    assert_eq!(coordinator.produce(&key, &[1]), Ok(()));

    assert_eq!(coordinator.overdue(129), Vec::<Fingerprint>::new());
    assert!(!coordinator.expire(&key, 129));
    assert_eq!(coordinator.phase(&key), Phase::Producing);
    assert_eq!(coordinator.overdue(130), vec![Fingerprint::from_bytes(b"abc123")]);
    assert_eq!(
        coordinator.overdue(140),
        vec![Fingerprint::from_bytes(b"abc123"), Fingerprint::from_bytes(b"other")]
    );

    assert!(coordinator.expire(&key, 130));
    assert!(!coordinator.expire(&key, 130));
    assert_eq!(coordinator.phase(&key), Phase::Absent);
    assert_eq!(coordinator.phase(&other), Phase::Claiming);
    assert_eq!(drain(&mut coordinator, slot), Err(TranscodeError::TranscodeFailed));
    assert!(!coordinator.store().contains(&key));
    assert_eq!(coordinator.overdue(139), Vec::<Fingerprint>::new());
    // a later request starts afresh, with a time of its own
    assert!(matches!(coordinator.request(&key, Codec::Mp3, 200), Outcome::Produce(_)));
    assert!(!coordinator.expire(&key, 229));
    assert!(coordinator.expire(&key, 230));
}

#[test]
fn without_a_time_limit_nothing_runs_out_of_time() {
    let key = Fingerprint::from_bytes(b"abc123");
    let mut coordinator = Coordinator::new(16);
    let _ = coordinator.request(&key, Codec::Mp3, 5);
    assert!(!coordinator.expire(&key, u64::MAX - 1));
    assert_eq!(coordinator.overdue(u64::MAX - 1), Vec::<Fingerprint>::new());
    assert_eq!(coordinator.phase(&key), Phase::Claiming);
    assert!(!coordinator.expire(&Fingerprint::from_bytes(b"none"), u64::MAX));
}

#[test]
fn an_abandoned_production_is_cancelled_where_that_is_asked_for() {
    let key = Fingerprint::from_bytes(b"abc123");
    let mut coordinator = Coordinator::with_settings(Settings {
        queue_limit: 16,
        claim_timeout: u64::MAX,
        cancel_abandoned: true,
    });
    let first = slot_of(&coordinator.request(&key, Codec::Mp3, 0));
    let second = slot_of(&coordinator.request(&key, Codec::Mp3, 0));
    assert_eq!(coordinator.produce(&key, &[1, 2]), Ok(()));

    assert_eq!(coordinator.disconnect(first), None);
    assert_eq!(coordinator.phase(&key), Phase::Producing);
    assert_eq!(coordinator.disconnect(first), None);
    assert_eq!(coordinator.disconnect(second), Some(Fingerprint::from_bytes(b"abc123")));
    assert_eq!(coordinator.phase(&key), Phase::Absent);
    assert_eq!(coordinator.in_flight(), 0);
    assert_eq!(coordinator.produce(&key, &[3]), Err(TranscodeError::NotFound));
    assert_eq!(coordinator.finish(&key, 0), Err(TranscodeError::NotFound));
    assert!(!coordinator.store().contains(&key));
    assert!(matches!(coordinator.request(&key, Codec::Mp3, 0), Outcome::Produce(_)));
}

#[test]
fn an_abandoned_production_runs_to_its_end_by_default() {
    let key = Fingerprint::from_bytes(b"abc123");
    let mut coordinator = Coordinator::new(16);
    let only = slot_of(&coordinator.request(&key, Codec::Mp3, 0));
    assert_eq!(coordinator.produce(&key, &[1, 2]), Ok(()));
    assert_eq!(coordinator.disconnect(only), None);
    assert_eq!(coordinator.produce(&key, &[3, 4]), Ok(()));
    assert_eq!(coordinator.finish(&key, 0), Ok(()));
    assert_eq!(stored(&coordinator, &key), Some(vec![1, 2, 3, 4]));
}

#[test]
fn a_consumer_that_has_its_end_cancels_nothing() {
    let a = Fingerprint::from_bytes(b"a");
    let b = Fingerprint::from_bytes(b"b");
    let mut coordinator = Coordinator::with_settings(Settings {
        queue_limit: 16,
        claim_timeout: u64::MAX,
        cancel_abandoned: true,
    });
    let on_a = slot_of(&coordinator.request(&a, Codec::Mp3, 0));
    assert_eq!(coordinator.finish(&a, 0), Ok(()));
    let on_b = slot_of(&coordinator.request(&b, Codec::Mp3, 0));
    // the consumer of "a" has ended; its going away does not touch "b"
    assert_eq!(coordinator.disconnect(on_a), None);
    assert_eq!(coordinator.in_flight(), 1);
    assert_eq!(coordinator.disconnect(on_b), Some(Fingerprint::from_bytes(b"b")));
    assert!(coordinator.store().contains(&a));
}

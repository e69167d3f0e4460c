use mdtle::{BiometricLock, CryptoLayer, CryptoPipeline, LayerError, LocationLock, Lock, TimeLock};

fn biometric(expected: &str, provided: &str) -> Lock {
    Lock::Biometric(BiometricLock::new(expected.to_string(), provided.to_string()))
}

#[test]
fn empty_pipeline_returns_data_unchanged() {
    let pipeline: CryptoPipeline<Lock> = CryptoPipeline::new();
    assert_eq!(pipeline.encrypt(b"payload"), b"payload".to_vec());
    assert_eq!(pipeline.decrypt_at(b"payload", 0), Ok(b"payload".to_vec()));
    assert_eq!(pipeline.decrypt(b"payload"), Ok(b"payload".to_vec()));
    assert_eq!(pipeline.encrypt(b""), Vec::<u8>::new());
    assert_eq!(pipeline.decrypt_at(b"", 7), Ok(Vec::<u8>::new()));
}

#[test]
fn biometric_match_passes_hello_through() {
    let mut pipeline = CryptoPipeline::new();
    pipeline.add_layer(BiometricLock::new("hash123".to_string(), "hash123".to_string()));
    assert_eq!(pipeline.encrypt(b"hello"), b"hello".to_vec());
    assert_eq!(pipeline.decrypt(b"hello"), Ok(b"hello".to_vec()));
    assert_eq!(pipeline.decrypt_at(b"hello", 0), Ok(b"hello".to_vec()));
}

#[test]
fn biometric_mismatch_fails_decrypt() {
    let mut pipeline = CryptoPipeline::new();
    pipeline.add_layer(BiometricLock::new("hash123".to_string(), "hash999".to_string()));
    assert_eq!(pipeline.encrypt(b"hello"), b"hello".to_vec());
    assert_eq!(pipeline.decrypt(b"hello"), Err(LayerError::ConditionNotSatisfied));
    assert_eq!(pipeline.decrypt_at(b"hello", u128::MAX), Err(LayerError::ConditionNotSatisfied));
}

#[test]
fn location_within_tolerance_is_satisfied() {
    let near = LocationLock::new(40_000_000, -70_000_000, 40_005_000, -70_005_000);
    assert!(near.is_in_allowed_area());
    assert!(near.is_satisfied(0));
    let mut pipeline = CryptoPipeline::new();
    pipeline.add_layer(near);
    assert_eq!(pipeline.decrypt(b"map"), Ok(b"map".to_vec()));
}

#[test]
fn location_outside_tolerance_is_unsatisfied() {
    let far = LocationLock::new(40_000_000, -70_000_000, 40_020_000, -70_000_000);
    assert!(!far.is_in_allowed_area());
    assert!(!far.is_satisfied(0));
    let mut pipeline = CryptoPipeline::new();
    pipeline.add_layer(far);
    assert_eq!(pipeline.decrypt(b"map"), Err(LayerError::ConditionNotSatisfied));
}

#[test]
fn location_axes_are_judged_independently() {
    // Both axes off by 0.009 degrees: farther apart in the plane than 0.01, yet within on each axis.
    assert!(LocationLock::new(0, 0, 9_000, -9_000).is_in_allowed_area());
    // One axis exact, the other exactly at the tolerance: the bound is strict.
    assert!(!LocationLock::new(0, 0, 0, 10_000).is_in_allowed_area());
    assert!(!LocationLock::new(0, 0, -10_000, 0).is_in_allowed_area());
    assert!(LocationLock::new(0, 0, 9_999, -9_999).is_in_allowed_area());
}

#[test]
fn axis_comparison_handles_extreme_coordinates() {
    assert!(!mdtle::layers::axis_within_tolerance(i64::MIN, i64::MAX));
    assert!(!mdtle::layers::axis_within_tolerance(i64::MAX, i64::MIN));
    assert!(mdtle::layers::axis_within_tolerance(i64::MAX, i64::MAX - 9_999));
    assert!(!mdtle::layers::axis_within_tolerance(i64::MAX, i64::MAX - 10_000));
    assert!(mdtle::layers::axis_within_tolerance(i64::MIN, i64::MIN));
}

#[test]
fn fail_fast_at_second_of_three() {
    let mut pipeline = CryptoPipeline::new();
    pipeline.add_layer(biometric("a", "a"));
    pipeline.add_layer(biometric("b", "not b"));
    pipeline.add_layer(biometric("c", "c"));
    assert_eq!(pipeline.encrypt(b"data"), b"data".to_vec());
    assert_eq!(pipeline.decrypt_at(b"data", 0), Err(LayerError::ConditionNotSatisfied));
    assert_eq!(pipeline.decrypt(b"data"), Err(LayerError::ConditionNotSatisfied));
}

#[test]
fn round_trip_through_mixed_locks() {
    let mut pipeline = CryptoPipeline::new();
    pipeline.add_layer(Lock::Time(TimeLock::starting_at(1_000, 2)));
    pipeline.add_layer(Lock::Location(LocationLock::new(1, 2, 3, 4)));
    pipeline.add_layer(biometric("h", "h"));
    let payloads: [&[u8]; 3] = [b"", b"x", &[0, 255, 7, 7, 0]];
    for data in payloads {
        let sealed = pipeline.encrypt(data);
        assert_eq!(pipeline.decrypt_at(&sealed, 2_000_001_000), Ok(data.to_vec()));
        assert_eq!(pipeline.decrypt(&sealed), Ok(data.to_vec()));
    }
}

#[test]
fn mixed_locks_wait_for_the_time_lock() {
    let mut pipeline = CryptoPipeline::new();
    pipeline.add_layer(biometric("h", "h"));
    pipeline.add_layer(Lock::Time(TimeLock::starting_at(1_000, 2)));
    assert_eq!(pipeline.decrypt_at(b"x", 2_000_000_999), Err(LayerError::ConditionNotSatisfied));
    assert_eq!(pipeline.decrypt_at(b"x", 2_000_001_000), Ok(b"x".to_vec()));
}

#[test]
fn repeated_decrypt_keeps_succeeding() {
    let mut pipeline = CryptoPipeline::new();
    pipeline.add_layer(biometric("h", "h"));
    assert_eq!(pipeline.decrypt_at(b"again", 5), Ok(b"again".to_vec()));
    assert_eq!(pipeline.decrypt_at(b"again", 6), Ok(b"again".to_vec()));
}

#[test]
fn satisfaction_recheck_is_steady() {
    let location = LocationLock::new(10, 10, 20, 20);
    assert_eq!(location.is_satisfied(1), location.is_satisfied(1));
    assert_eq!(location.is_satisfied(1), location.is_satisfied(u128::MAX));
    let bio = BiometricLock::new("x".to_string(), "y".to_string());
    assert_eq!(bio.is_satisfied(1), bio.is_satisfied(1));
    assert_eq!(bio.is_satisfied(0), bio.is_satisfied(u128::MAX));
    assert!(!bio.is_biometric_match());
    assert!(BiometricLock::new(String::new(), String::new()).is_biometric_match());
}

#[test]
fn time_lock_opens_exactly_at_unlock_instant() {
    let lock = TimeLock::starting_at(1_000, 5);
    assert!(!lock.is_satisfied(0));
    assert!(!lock.is_satisfied(1_000));
    assert!(!lock.is_satisfied(5_000_000_999));
    assert!(lock.is_satisfied(5_000_001_000));
    assert!(lock.is_satisfied(u128::MAX));
    assert_eq!(lock.decrypt(b"t", 5_000_000_999), Err(LayerError::ConditionNotSatisfied));
    assert_eq!(lock.decrypt(b"t", 5_000_001_000), Ok(b"t".to_vec()));
    assert_eq!(lock.encrypt(b"t"), b"t".to_vec());
}

#[test]
fn time_lock_with_zero_wait_is_open_at_start() {
    let lock = TimeLock::starting_at(42, 0);
    assert!(lock.is_satisfied(42));
    assert!(!lock.is_satisfied(41));
}

#[test]
fn time_lock_never_overflows() {
    let lock = TimeLock::starting_at(u128::MAX, u64::MAX);
    assert!(!lock.is_satisfied(u128::MAX));
    let open = TimeLock::starting_at(u128::MAX, 0);
    assert!(open.is_satisfied(u128::MAX));
}

#[test]
fn time_lock_armed_now_is_shut_now() {
    let lock = TimeLock::new(3_600);
    assert!(!lock.is_satisfied(mdtle::current_time()));
    assert!(lock.is_satisfied(u128::MAX));
    let mut pipeline = CryptoPipeline::new();
    pipeline.add_layer(lock);
    assert_eq!(pipeline.decrypt(b"later"), Err(LayerError::ConditionNotSatisfied));
}

#[test]
fn clock_reads_after_the_epoch() {
    let now = mdtle::current_time();
    // Later than 2001-09-09, in nanoseconds.
    assert!(now > 1_000_000_000u128 * 1_000_000_000u128);
    assert_eq!(mdtle::clock::instant_from_reading(None), 0);
    assert_eq!(mdtle::clock::instant_from_reading(Some(17)), 17);
}

#[test]
fn lock_dispatches_to_its_variant() {
    let shut = biometric("a", "b");
    assert!(!shut.is_satisfied(0));
    assert_eq!(shut.decrypt(b"z", 0), Err(LayerError::ConditionNotSatisfied));
    assert_eq!(shut.encrypt(b"z"), b"z".to_vec());
    let open = Lock::Location(LocationLock::new(5, 5, 5, 5));
    assert!(open.is_satisfied(0));
    assert_eq!(open.decrypt(b"z", 0), Ok(b"z".to_vec()));
}

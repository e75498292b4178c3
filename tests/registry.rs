use geronimo_captcha::{ChallengeInMemoryRegistry, ChallengeRegistry, RegistryCheckResult};
use std::sync::{Arc, Mutex};
use std::time::{SystemTime, UNIX_EPOCH};

fn clock() -> u64 {
    SystemTime::now().duration_since(UNIX_EPOCH).unwrap().as_secs() + 1
}

const DEFAULT_TTL: u64 = 60;

#[test]
fn test_register_and_check() {
    let mut registry = ChallengeInMemoryRegistry::new(DEFAULT_TTL, 1);
    let challenge_id = "challenge-123";
    registry.register(challenge_id);
    assert_eq!(registry.check(challenge_id), RegistryCheckResult::Valid);
}

#[test]
fn test_check_unregistered() {
    let mut registry = ChallengeInMemoryRegistry::new(DEFAULT_TTL, 1);
    let challenge_id = "challenge-123";
    assert_eq!(
        registry.check(challenge_id),
        RegistryCheckResult::NotRegistered
    );
}

#[test]
fn test_check_already_verified() {
    let mut registry = ChallengeInMemoryRegistry::new(DEFAULT_TTL, 1);
    let challenge_id = "challenge-123";
    registry.register(challenge_id);
    registry.verify(challenge_id);
    assert_eq!(
        registry.check(challenge_id),
        RegistryCheckResult::AlreadyVerified
    );
}

#[test]
fn test_check_max_attempts_limit() {
    let mut registry = ChallengeInMemoryRegistry::new(DEFAULT_TTL, 2);
    let challenge_id = "challenge-123";
    registry.register(challenge_id);

    assert_eq!(registry.check(challenge_id), RegistryCheckResult::Valid);

    registry.note_attempt(challenge_id, false);
    assert_eq!(registry.check(challenge_id), RegistryCheckResult::Valid);

    registry.note_attempt(challenge_id, false);
    assert_eq!(
        registry.check(challenge_id),
        RegistryCheckResult::MaxAttemptsLimitExceeded
    );
}

#[test]
fn test_concurrent_usage_safe() {
    let registry = Arc::new(Mutex::new(ChallengeInMemoryRegistry::new(DEFAULT_TTL, 1)));
    for i in 0..10 {
        let reg = registry.clone();
        let challenge_id = format!("challenge-{i}");
        reg.lock().unwrap().register(&challenge_id);
    }
    for i in 0..10 {
        let id = format!("challenge-{i}");
        assert_eq!(registry.lock().unwrap().check(&id), RegistryCheckResult::Valid);
    }
}

#[test]
fn successful_guess_does_not_count_an_attempt() {
    let mut registry = ChallengeInMemoryRegistry::new(DEFAULT_TTL, 1);
    registry.register("a");
    registry.note_attempt("a", true);
    assert_eq!(registry.check("a"), RegistryCheckResult::Valid);
    registry.note_attempt("a", false);
    assert_eq!(registry.check("a"), RegistryCheckResult::MaxAttemptsLimitExceeded);
}

#[test]
fn verify_and_note_on_unknown_id_change_nothing() {
    let mut registry = ChallengeInMemoryRegistry::new(DEFAULT_TTL, 1);
    registry.verify("ghost");
    registry.note_attempt("ghost", false);
    assert_eq!(registry.check("ghost"), RegistryCheckResult::NotRegistered);
}

#[test]
fn zero_max_attempts_refuses_at_once() {
    let mut registry = ChallengeInMemoryRegistry::new(DEFAULT_TTL, 0);
    registry.register("a");
    assert_eq!(registry.check("a"), RegistryCheckResult::MaxAttemptsLimitExceeded);
}

#[test]
fn verified_outranks_attempts() {
    let mut registry = ChallengeInMemoryRegistry::new(DEFAULT_TTL, 1);
    registry.register("a");
    registry.note_attempt("a", false);
    registry.verify("a");
    assert_eq!(registry.check("a"), RegistryCheckResult::AlreadyVerified);
}

#[test]
fn record_lives_ttl_seconds_by_the_given_clock() {
    let mut registry = ChallengeInMemoryRegistry::new(10, 3);
    registry.register_at("a", 1000);
    assert_eq!(registry.check_at("a", 1005), RegistryCheckResult::Valid);
    assert_eq!(registry.check_at("a", 1009), RegistryCheckResult::Valid);
    assert_eq!(registry.check_at("a", 1011), RegistryCheckResult::NotRegistered);
    assert_eq!(registry.check_at("a", 1012), RegistryCheckResult::NotRegistered);
}

#[test]
fn ttl_reclamation_after_three_seconds() {
    let mut registry = ChallengeInMemoryRegistry::new(1, 5);
    let t = clock();
    registry.register_at("a", t);
    registry.register_at("b", t + 2);
    assert_eq!(registry.check_at("a", t + 3), RegistryCheckResult::NotRegistered);
    assert_eq!(registry.check_at("b", t + 3), RegistryCheckResult::NotRegistered);
}

#[test]
fn verified_record_is_reclaimed_once_expired() {
    let mut registry = ChallengeInMemoryRegistry::new(2, 5);
    let t = clock();
    registry.register_at("a", t);
    registry.verify("a");
    assert_eq!(registry.check_at("a", t + 1), RegistryCheckResult::AlreadyVerified);
    assert_eq!(registry.check_at("a", t + 10), RegistryCheckResult::NotRegistered);
}

#[test]
fn long_idle_period_reclaims_everything_expired() {
    let mut registry = ChallengeInMemoryRegistry::new(5, 5);
    let t = clock();
    for i in 0..20u64 {
        registry.register_at(&format!("id-{i}"), t);
    }
    registry.verify("id-3");
    assert_eq!(registry.check_at("id-3", t + 1), RegistryCheckResult::AlreadyVerified);
    assert_eq!(registry.check_at("id-19", t + 4), RegistryCheckResult::Valid);
    assert_eq!(registry.check_at("id-19", t + 1_000_000), RegistryCheckResult::NotRegistered);
    assert_eq!(registry.check_at("id-3", t + 1_000_000), RegistryCheckResult::NotRegistered);
}

#[test]
fn reregistering_restarts_the_record() {
    let mut registry = ChallengeInMemoryRegistry::new(10, 1);
    let t = clock();
    registry.register_at("a", t);
    registry.note_attempt("a", false);
    assert_eq!(registry.check_at("a", t + 1), RegistryCheckResult::MaxAttemptsLimitExceeded);
    registry.register_at("a", t + 5);
    assert_eq!(registry.check_at("a", t + 12), RegistryCheckResult::Valid);
}

#[test]
fn clock_going_back_keeps_records() {
    let mut registry = ChallengeInMemoryRegistry::new(10, 1);
    let t = clock();
    registry.register_at("a", t + 100);
    assert_eq!(registry.check_at("a", t + 50), RegistryCheckResult::Valid);
}

#[test]
fn outcome_labels() {
    assert_eq!(RegistryCheckResult::Valid.label(), "VALID");
    assert_eq!(RegistryCheckResult::AlreadyVerified.label(), "ALREADYVERIFIED");
    assert_eq!(RegistryCheckResult::NotRegistered.label(), "NOTREGISTERED");
    assert_eq!(
        RegistryCheckResult::MaxAttemptsLimitExceeded.label(),
        "MAXATTEMPTSLIMITEXCEEDED"
    );
}

#[test]
fn single_bucket_reclaims_whatever_the_attempt_limit() {
    let mut registry = ChallengeInMemoryRegistry::new(1, 0);
    let t = clock();
    registry.register_at("a", t);
    assert_eq!(registry.check_at("a", t), RegistryCheckResult::MaxAttemptsLimitExceeded);
    assert_eq!(registry.check_at("a", t + 3), RegistryCheckResult::NotRegistered);
}

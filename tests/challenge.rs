use base64::Engine;
use geronimo_captcha::challenge::issue;
use geronimo_captcha::sprite::plan_sprite;
use geronimo_captcha::token::{build_challenge_id, build_challenge_id_with, verify, verify_at};
use geronimo_captcha::{CaptchaChallenge, SpriteUri};
use hmac::Mac;
use sha2::Sha256;
use std::collections::HashSet;
use std::time::{Duration, Instant};

const CHALLENGE_TTL: u64 = 60;
const SECRET: &[u8] = b"secret-key";

fn sleep(d: Duration) {
    let start = Instant::now();
    while start.elapsed() < d {
        std::hint::spin_loop();
    }
}

struct Issued {
    challenge: CaptchaChallenge<SpriteUri>,
    correct_number: u8,
}

fn generate_challenge() -> Issued {
    let plan = plan_sprite(150);
    let sprite_bytes = vec![0xFF, 0xD8, 0xFF, 0xE0];
    let challenge = issue::<SpriteUri>(sprite_bytes, "image/jpeg", plan.correct_number, SECRET);
    Issued { challenge, correct_number: plan.correct_number }
}

fn hmac_b64(secret: &[u8], nonce: &str, answer: u8, timestamp: u64) -> String {
    let mut mac = hmac::Hmac::<Sha256>::new_from_slice(secret).unwrap();
    mac.update(nonce.as_bytes());
    mac.update(&[answer]);
    mac.update(&timestamp.to_be_bytes());
    base64::engine::general_purpose::STANDARD.encode(mac.finalize().into_bytes())
}

#[test]
fn test_generate_and_verify() {
    let issued = generate_challenge();
    let result = verify(
        SECRET,
        &issued.challenge.challenge_id,
        issued.correct_number,
        CHALLENGE_TTL,
    );
    assert!(result, "Challenge verification failed for correct index");
}

#[test]
fn test_verification_should_fail_for_wrong_guess() {
    let issued = generate_challenge();
    let wrong = (issued.correct_number + 1) % 9;
    let valid = verify(SECRET, &issued.challenge.challenge_id, wrong, 60);
    assert!(!valid, "Verification should fail for wrong index");
}

#[test]
fn test_challenge_correct_index_should_be_random() {
    let mut seen_indices = HashSet::new();
    for _ in 0..100 {
        let issued = generate_challenge();
        seen_indices.insert(issued.correct_number);
    }
    assert!(
        seen_indices.len() > 1,
        "Correct index never changes. Challenge randomization failed"
    );
}

#[test]
fn test_challenge_should_expire_after_ttl() {
    let issued = generate_challenge();
    sleep(Duration::from_secs(2));
    let expired = verify(SECRET, &issued.challenge.challenge_id, issued.correct_number, 1);
    assert!(!expired, "Expired challenge passed verification");
}

#[test]
fn test_verification_should_not_leak_answer() {
    let issued = generate_challenge();
    for i in 0..9 {
        let _ = verify(SECRET, &issued.challenge.challenge_id, i, 60);
    }
    let mut durations = vec![];
    for i in 0..9 {
        let start = Instant::now();
        let _ = verify(SECRET, &issued.challenge.challenge_id, i, 60);
        durations.push(start.elapsed().as_nanos());
    }
    let min = *durations.iter().min().unwrap();
    let max = *durations.iter().max().unwrap();
    let delta = max - min;
    println!("Timing min={min}ns, max={max}ns, delta={delta}ns");
    assert!(
        delta < 50_000,
        "Timing delta too large ({delta}ns), possible side channel",
    );
}

#[test]
fn test_no_false_positives_over_many_challenges() {
    let mut false_positives = 0;
    let mut durations = vec![];
    for _ in 0..60 {
        let start = Instant::now();
        let issued = generate_challenge();
        durations.push(start.elapsed().as_nanos());
        for guess in 0..9 {
            if guess != issued.correct_number
                && verify(SECRET, &issued.challenge.challenge_id, guess, 60)
            {
                false_positives += 1;
            }
        }
    }
    let min = *durations.iter().min().unwrap();
    let max = *durations.iter().max().unwrap();
    let delta = max - min;
    println!("Timing min={min}ns, max={max}ns, delta={delta}ns");
    assert_eq!(
        false_positives, 0,
        "Detected {false_positives} false positives — verification failed securely",
    );
}

#[test]
fn test_uniqueness_hmac() {
    let mut hmacs = HashSet::new();
    for _ in 0..60 {
        let issued = generate_challenge();
        let suffix8 = issued
            .challenge
            .challenge_id
            .rsplit(':')
            .next()
            .unwrap_or("")
            .chars()
            .rev()
            .take(8)
            .collect::<String>();
        hmacs.insert(suffix8);
        sleep(Duration::from_millis(10));
    }
    assert_eq!(
        hmacs.len(),
        60,
        "HMACs are not unique, potential rainbow table vulnerability"
    );
}

#[test]
fn test_challenge_id_should_be_unforgeable() {
    let issued = generate_challenge();
    let parts: Vec<&str> = issued.challenge.challenge_id.split(':').collect();
    let forged_index = (issued.correct_number + 1) % 9;
    let forged_code = hmac_b64(b"BAD_SECRET", parts[0], forged_index, parts[1].parse::<u64>().unwrap());
    let forged_challenge = format!("{}:{}:{}", parts[0], parts[1], forged_code);
    let valid = verify(SECRET, &forged_challenge, forged_index, CHALLENGE_TTL);
    assert!(
        !valid,
        "Forged challenge ID was accepted. HMAC security failure"
    )
}

#[test]
fn minted_token_has_uuid_nonce_decimal_timestamp_and_hmac() {
    let (id, timestamp) = build_challenge_id(4, SECRET);
    let parts: Vec<&str> = id.split(':').collect();
    assert_eq!(parts.len(), 3);
    assert_eq!(parts[0].len(), 36);
    assert!(uuid::Uuid::parse_str(parts[0]).is_ok());
    assert_eq!(parts[0], parts[0].to_lowercase());
    assert_eq!(parts[1], timestamp.to_string());
    assert_eq!(parts[2], hmac_b64(SECRET, parts[0], 4, timestamp));
    assert_eq!(parts[2].len(), 44);
}

#[test]
fn token_with_given_fields_is_exact() {
    let nonce = "0f8fad5b-d9cb-469f-a165-70867728950e";
    let id = build_challenge_id_with(nonce, 1_700_000_000, 7, SECRET);
    let expected = format!("{nonce}:1700000000:{}", hmac_b64(SECRET, nonce, 7, 1_700_000_000));
    assert_eq!(id, expected);
}

#[test]
fn verify_at_accepts_each_digit_it_was_minted_for() {
    let nonce = "0f8fad5b-d9cb-469f-a165-70867728950e";
    for answer in 1..=9u8 {
        let id = build_challenge_id_with(nonce, 1000, answer, SECRET);
        for guess in 0..=10u8 {
            assert_eq!(verify_at(SECRET, &id, guess, 60, 1000), guess == answer);
        }
        assert!(!verify_at(b"other-secret", &id, answer, 60, 1000));
    }
}

#[test]
fn verify_at_freshness_boundary() {
    let nonce = "0f8fad5b-d9cb-469f-a165-70867728950e";
    let id = build_challenge_id_with(nonce, 1000, 3, SECRET);
    assert!(verify_at(SECRET, &id, 3, 60, 1060));
    assert!(!verify_at(SECRET, &id, 3, 60, 1061));
    assert!(verify_at(SECRET, &id, 3, 0, 1000));
    assert!(!verify_at(SECRET, &id, 3, 0, 1001));
    assert!(verify_at(SECRET, &id, 3, 60, 0));
    assert!(verify_at(SECRET, &id, 3, u64::MAX, u64::MAX));
}

#[test]
fn verify_at_refuses_malformed_ids() {
    let nonce = "0f8fad5b-d9cb-469f-a165-70867728950e";
    let id = build_challenge_id_with(nonce, 1000, 3, SECRET);
    let parts: Vec<&str> = id.split(':').collect();
    let auth = parts[2];
    let cases = vec![
        String::new(),
        "no colon at all".to_string(),
        format!("{nonce}1000{auth}"),
        format!("{nonce}:1000{auth}"),
        format!("{nonce}:1000:{auth}:"),
        format!(":{nonce}:1000:{auth}"),
        format!("{nonce}::1000:{auth}"),
        format!("{nonce}:10a0:{auth}"),
        format!("{nonce}:-1000:{auth}"),
        format!("{nonce}::{auth}"),
        format!("{nonce}:1000:"),
        format!("{nonce}:1000:{}", auth.replace('=', "*")),
        format!("{nonce}:1000:{}", &auth[..40]),
        format!("{nonce}:99999999999999999999999:{auth}"),
    ];
    for case in cases {
        assert!(!verify_at(SECRET, &case, 3, 60, 1000), "accepted {case:?}");
    }
}

#[test]
fn verify_at_refuses_timestamp_fields_that_are_not_digits() {
    let nonce = "0f8fad5b-d9cb-469f-a165-70867728950e";
    let id = build_challenge_id_with(nonce, 1000, 3, SECRET);
    let auth = id.rsplit(':').next().unwrap();
    for field in ["+1000", "-1000", " 1000", "1000 ", "1000.0", "1e3", "abc", "000000000000000001000"] {
        assert!(!verify_at(SECRET, &format!("{nonce}:{field}:{auth}"), 3, 60, 1000), "{field:?}");
    }
    assert!(verify_at(SECRET, &format!("{nonce}:001000:{auth}"), 3, 60, 1000));
}

#[test]
fn forged_authenticator_under_other_secret_is_refused() {
    let nonce = "0f8fad5b-d9cb-469f-a165-70867728950e";
    let real = build_challenge_id_with(nonce, 5000, 6, SECRET);
    let forged_auth = hmac_b64(b"attacker", nonce, 6, 5000);
    let forged = format!("{nonce}:5000:{forged_auth}");
    assert_ne!(real, forged);
    assert!(!verify_at(SECRET, &forged, 6, 60, 5000));
    assert!(verify_at(SECRET, &real, 6, 60, 5000));
}

#[test]
fn minted_token_length() {
    let (id, timestamp) = build_challenge_id(9, SECRET);
    assert_eq!(id.len(), 82 + timestamp.to_string().len());
    assert!(id.len() <= 101);
    let long = build_challenge_id_with("0f8fad5b-d9cb-469f-a165-70867728950e", u64::MAX, 9, SECRET);
    assert_eq!(long.len(), 102);
}

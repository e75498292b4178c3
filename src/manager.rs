//! The manager: owns the server secret, issues challenges and answers
//! verification requests, consulting the registry when one is configured.
use vstd::prelude::*;
use crate::challenge::{issue, CaptchaChallenge, GenerationOptions};
use crate::crypto::now_secs;
use crate::error::CaptchaError;
use crate::noise::NoiseOptions;
use crate::registry::{
    check_outcome, fresh_status, mark_verified, note_guess, record_of, swept,
    ChallengeInMemoryRegistry, ChallengeRegistry, ChallengeStatus, RegistryCheckResult,
};
use crate::sprite::SpriteTarget;
use crate::token::{accepts_at, lemma_minted_fields, minted, minted_with, sat_add, verify_at};
use crate::decimal::lemma_decimal_of;
use vstd::utf8::encode_utf8;

verus! {

/// The server secret, held in a `zeroize::Zeroizing` buffer that is
/// overwritten with zeros when dropped. What it holds is `secret_contents`.
#[verifier::external_body]
pub struct SecretBytes {
    inner: zeroize::Zeroizing<Vec<u8>>,
}

/// The bytes that a secret buffer holds.
pub uninterp spec fn secret_contents(s: SecretBytes) -> Seq<u8>;

/// Relies on zeroize's `Zeroizing::new`: it holds `bytes`, and overwrites
/// them with zeros when dropped.
#[verifier::external_body]
fn secret_new(bytes: Vec<u8>) -> (r: SecretBytes)
    ensures
        secret_contents(r) == bytes@,
{
    SecretBytes { inner: zeroize::Zeroizing::new(bytes) }
}

/// Relies on zeroize's `Zeroizing` dereferencing to the value it holds.
#[verifier::external_body]
fn secret_bytes(s: &SecretBytes) -> (r: &[u8])
    ensures
        r@ == secret_contents(*s),
{
    s.inner.as_slice()
}

/// Whether a verification request is refused before any other work: an empty
/// id, or a guess outside `1..=9`.
pub open spec fn invalid_request(challenge_id: Seq<char>, selected_index: u8) -> bool {
    challenge_id.len() == 0 || selected_index < 1 || selected_index > 9
}

/// Whether registry `after` differs from `before` only by a check at `now`:
/// some expired records reclaimed.
pub open spec fn checked_from<R: ChallengeRegistry>(before: R, after: R, now: u64) -> bool {
    &&& after.wf()
    &&& after.ttl() == before.ttl()
    &&& after.max_attempts() == before.max_attempts()
    &&& swept(before.records(), after.records(), now, before.ttl())
}

/// Whether registry `after` is `mid` with `records` in place of its records.
pub open spec fn updated_from<R: ChallengeRegistry>(
    mid: R,
    after: R,
    records: Map<Seq<char>, ChallengeStatus>,
) -> bool {
    &&& after.wf()
    &&& after.ttl() == mid.ttl()
    &&& after.max_attempts() == mid.max_attempts()
    &&& after.records() == records
}

/// Whether, after a check left the registry as `mid`, the request ended with
/// `r` and the registry as `after`: refused with the outcome unless `Valid`;
/// otherwise answered `accepted`, and the challenge marked verified or its
/// failed guess counted.
pub open spec fn answered_after_check<R: ChallengeRegistry>(
    before: R,
    mid: R,
    after: Option<R>,
    challenge_id: Seq<char>,
    now: u64,
    accepted: bool,
    r: Result<bool, CaptchaError>,
) -> bool {
    let outcome = check_outcome(record_of(mid.records(), challenge_id), now, before.ttl(), before.max_attempts());
    if outcome != RegistryCheckResult::Valid {
        r == Err::<bool, CaptchaError>(CaptchaError::Registry(outcome)) && after == Some(mid)
    } else {
        &&& r == Ok::<bool, CaptchaError>(accepted)
        &&& after matches Some(reg) && updated_from(
            mid,
            reg,
            if accepted {
                mark_verified(mid.records(), challenge_id)
            } else {
                note_guess(mid.records(), challenge_id, false)
            },
        )
    }
}

/// A challenge manager, with an optional registry of type `R`.
pub struct CaptchaManager<R = ChallengeInMemoryRegistry> {
    registry: Option<R>,
    challenge_ttl: u64,
    noise: NoiseOptions,
    secret: SecretBytes,
    gen_opts: GenerationOptions,
}

impl<R: ChallengeRegistry> CaptchaManager<R> {
    /// The server secret.
    pub closed spec fn secret_spec(&self) -> Seq<u8> {
        secret_contents(self.secret)
    }

    /// How many seconds a token stays valid.
    pub closed spec fn ttl_spec(&self) -> u64 {
        self.challenge_ttl
    }

    /// The registry, if one is configured.
    pub closed spec fn registry_spec(&self) -> Option<R> {
        self.registry
    }

    /// The noise options.
    pub closed spec fn noise_spec(&self) -> NoiseOptions {
        self.noise
    }

    /// The generation options.
    pub closed spec fn gen_opts_spec(&self) -> GenerationOptions {
        self.gen_opts
    }

    /// Whether the configured registry, if any, is consistent.
    pub open spec fn wf(&self) -> bool {
        self.registry_spec() matches Some(reg) ==> reg.wf()
    }

    /// Whether `after` is `self` after answering `r` to the request
    /// (`challenge_id`, `selected_index`) at clock reading `now`.
    pub open spec fn verify_effect(
        self,
        after: Self,
        challenge_id: Seq<char>,
        selected_index: u8,
        now: u64,
        r: Result<bool, CaptchaError>,
    ) -> bool {
        let accepted = accepts_at(self.secret_spec(), challenge_id, selected_index, self.ttl_spec(), now);
        &&& after.secret_spec() == self.secret_spec()
        &&& after.ttl_spec() == self.ttl_spec()
        &&& after.noise_spec() == self.noise_spec()
        &&& after.gen_opts_spec() == self.gen_opts_spec()
        &&& after.wf()
        &&& if invalid_request(challenge_id, selected_index) {
            r matches Err(CaptchaError::InvalidInput(_)) && after.registry_spec() == self.registry_spec()
        } else {
            match self.registry_spec() {
                None => after.registry_spec() is None && r == Ok::<bool, CaptchaError>(accepted),
                Some(before) => exists|mid: R, t: u64|
                    #[trigger] checked_from(before, mid, t) && answered_after_check(
                        before,
                        mid,
                        after.registry_spec(),
                        challenge_id,
                        t,
                        accepted,
                        r,
                    ),
            }
        }
    }

    /// A manager with the given secret, token lifetime, noise and generation
    /// options, and optional registry.
    pub fn new(
        secret: String,
        challenge_ttl: u64,
        noise: NoiseOptions,
        registry: Option<R>,
        gen_opts: GenerationOptions,
    ) -> (r: Self)
        requires
            registry matches Some(reg) ==> reg.wf(),
        ensures
            r.wf(),
            r.secret_spec() == encode_utf8(secret@),
            r.ttl_spec() == challenge_ttl,
            r.noise_spec() == noise,
            r.gen_opts_spec() == gen_opts,
            r.registry_spec() == registry,
    {
        let bytes = secret.as_str().as_bytes_vec();
        CaptchaManager { registry, challenge_ttl, noise, secret: secret_new(bytes), gen_opts }
    }

    /// The noise options.
    pub fn noise(&self) -> (r: NoiseOptions)
        ensures
            r == self.noise_spec(),
    {
        self.noise
    }

    /// The generation options.
    pub fn gen_opts(&self) -> (r: GenerationOptions)
        ensures
            r == self.gen_opts_spec(),
    {
        self.gen_opts
    }

    /// Issues a challenge for an encoded sprite whose upright tile is labelled
    /// `correct_number`: mints its token and registers it, if a registry is
    /// configured.
    pub fn issue_challenge<T: SpriteTarget>(
        &mut self,
        sprite_bytes: Vec<u8>,
        mime: &'static str,
        correct_number: u8,
    ) -> (r: CaptchaChallenge<T>)
        requires
            old(self).wf(),
            sprite_bytes@.len() <= usize::MAX / 2,
        ensures
            final(self).wf(),
            final(self).secret_spec() == old(self).secret_spec(),
            final(self).ttl_spec() == old(self).ttl_spec(),
            final(self).noise_spec() == old(self).noise_spec(),
            final(self).gen_opts_spec() == old(self).gen_opts_spec(),
            r.sprite.carries(sprite_bytes@, mime@),
            minted(old(self).secret_spec(), correct_number, r.timestamp, r.challenge_id@),
            old(self).registry_spec() is None ==> final(self).registry_spec() is None,
            old(self).registry_spec() matches Some(before) ==> final(self).registry_spec() matches Some(
                after,
            ) && after.ttl() == before.ttl() && after.max_attempts() == before.max_attempts()
                && after.records().contains_key(r.challenge_id@) && exists|now: u64|
                after.records()[r.challenge_id@] == fresh_status(now) && swept(
                    before.records().remove(r.challenge_id@),
                    after.records().remove(r.challenge_id@),
                    now,
                    before.ttl(),
                ),
    {
        let challenge: CaptchaChallenge<T> = issue(
            sprite_bytes,
            mime,
            correct_number,
            secret_bytes(&self.secret),
        );
        if let Some(reg) = &mut self.registry {
            reg.register(challenge.challenge_id.as_str());
        }
        challenge
    }

    /// Answers `selected_index` for `challenge_id`, verifying the token at
    /// clock reading `now`. An empty id or a guess outside `1..=9` is
    /// `InvalidInput`. With a registry, a challenge that its check (at the
    /// registry's own clock reading) does not report `Valid` is refused with
    /// that outcome; otherwise the token is verified, and the registry marks
    /// the challenge verified or counts a failed guess.
    pub fn verify_challenge_at(&mut self, challenge_id: &str, selected_index: u8, now: u64) -> (r: Result<bool, CaptchaError>)
        requires
            old(self).wf(),
        ensures
            old(self).verify_effect(*final(self), challenge_id@, selected_index, now, r),
    {
        if challenge_id.unicode_len() == 0 {
            return Err(CaptchaError::InvalidInput(String::from_str("Challenge ID cannot be empty")));
        }
        if selected_index == 0 || selected_index > 9 {
            return Err(CaptchaError::InvalidInput(String::from_str("Selected index out of bounds")));
        }
        let ghost before = self.registry;
        let ghost mut t: u64 = 0;
        if let Some(reg) = &mut self.registry {
            let ghost reg0 = *reg;
            let outcome = reg.check(challenge_id);
            proof {
                t = choose|t: u64|
                    swept(reg0.records(), reg.records(), t, reg0.ttl()) && outcome == check_outcome(
                        record_of(reg.records(), challenge_id@),
                        t,
                        reg0.ttl(),
                        reg0.max_attempts(),
                    );
            }
            if outcome != RegistryCheckResult::Valid {
                let r = Err(CaptchaError::Registry(outcome));
                proof {
                    let mid = *reg;
                    assert(checked_from(before->0, mid, t));
                    assert(answered_after_check(before->0, mid, Some(mid), challenge_id@, t, false, r));
                }
                return r;
            }
        }
        let ghost mid = self.registry;
        let valid = verify_at(
            secret_bytes(&self.secret),
            challenge_id,
            selected_index,
            self.challenge_ttl,
            now,
        );
        if let Some(reg) = &mut self.registry {
            if valid {
                reg.verify(challenge_id);
            } else {
                reg.note_attempt(challenge_id, false);
            }
        }
        proof {
            if before is Some {
                assert(checked_from(before->0, mid->0, t));
            }
        }
        Ok(valid)
    }

    /// Answers `selected_index` for `challenge_id` at the clock reading taken
    /// during the call; see `verify_challenge_at`.
    pub fn verify_challenge(&mut self, challenge_id: &str, selected_index: u8) -> (r: Result<bool, CaptchaError>)
        requires
            old(self).wf(),
        ensures
            invalid_request(challenge_id@, selected_index) <==> r matches Err(CaptchaError::InvalidInput(_)),
            exists|now: u64| old(self).verify_effect(*final(self), challenge_id@, selected_index, now, r),
    {
        let now = now_secs();
        self.verify_challenge_at(challenge_id, selected_index, now)
    }
}

/// Without a registry, a request on a token read after its timestamp plus the
/// time to live is answered `Ok(false)`, for the correct digit too.
pub proof fn lemma_expired_challenge_refused<R: ChallengeRegistry>(
    before: CaptchaManager<R>,
    after: CaptchaManager<R>,
    challenge_id: Seq<char>,
    selected_index: u8,
    correct_number: u8,
    timestamp: u64,
    now: u64,
    r: Result<bool, CaptchaError>,
)
    requires
        before.registry_spec() is None,
        minted(before.secret_spec(), correct_number, timestamp, challenge_id),
        1 <= selected_index <= 9,
        now > sat_add(timestamp, before.ttl_spec()),
        before.verify_effect(after, challenge_id, selected_index, now, r),
    ensures
        r == Ok::<bool, CaptchaError>(false),
{
    let nonce = choose|nonce: Seq<char>|
        minted_with(before.secret_spec(), nonce, correct_number, timestamp, challenge_id);
    lemma_minted_fields(before.secret_spec(), nonce, correct_number, timestamp, challenge_id);
    lemma_decimal_of(timestamp as nat);
}

} // verus!

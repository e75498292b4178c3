//! Visual rotation puzzles: an authenticated, stateless challenge token, the
//! layout and noise logic of the puzzle sprite, and a registry that bounds how
//! each challenge may be answered.
pub mod challenge;
pub mod crypto;
pub mod decimal;
pub mod error;
pub mod manager;
pub mod noise;
pub mod random;
pub mod registry;
pub mod sprite;
pub mod token;

pub use challenge::{CaptchaChallenge, DecodeLimits, GenerationOptions};
pub use error::CaptchaError;
pub use manager::CaptchaManager;
pub use noise::{NoiseOptions, NoisePattern, RgbaCanvas};
pub use registry::{ChallengeInMemoryRegistry, ChallengeRegistry, ChallengeStatus, RegistryCheckResult};
pub use sprite::{SpriteBinary, SpriteFormat, SpritePlan, SpriteTarget, SpriteUri, TilePlan};

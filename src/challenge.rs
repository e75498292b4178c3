//! Issued challenges and the options that shape their sprites.
use vstd::prelude::*;
use crate::sprite::{SpriteFormat, SpriteTarget};
use crate::token::{build_challenge_id, minted};

verus! {

/// Bounds on decoding a source photograph.
#[derive(Clone, Copy, Debug)]
pub struct DecodeLimits {
    pub max_image_width: Option<u32>,
    pub max_image_height: Option<u32>,
    pub max_alloc: Option<u64>,
}

impl DecodeLimits {
    /// The bounds used when none are configured: 4096 × 4096 pixels and
    /// 128 MiB of allocation.
    pub fn standard() -> (r: Self)
        ensures
            r.max_image_width == Some(4096u32),
            r.max_image_height == Some(4096u32),
            r.max_alloc == Some(134217728u64),
    {
        DecodeLimits {
            max_image_width: Some(4096),
            max_image_height: Some(4096),
            max_alloc: Some(128 * 1024 * 1024),
        }
    }
}

/// How sprites are generated.
#[derive(Clone, Copy, Debug)]
pub struct GenerationOptions {
    /// Side of one grid cell in pixels.
    pub cell_size: u32,
    pub sprite_format: SpriteFormat,
    /// Decoding bounds; `None` takes `DecodeLimits::standard()`.
    pub limits: Option<DecodeLimits>,
}

impl Default for GenerationOptions {
    fn default() -> (r: Self)
        ensures
            r.cell_size == 150,
            r.sprite_format == (SpriteFormat::Jpeg { quality: 70 }),
            r.limits is None,
    {
        GenerationOptions { cell_size: 150, sprite_format: SpriteFormat::default(), limits: None }
    }
}

/// An issued challenge: its sprite in the shape `T`, its token, and the clock
/// reading it was minted at.
pub struct CaptchaChallenge<T> {
    pub sprite: T,
    pub challenge_id: String,
    pub timestamp: u64,
}

/// Wraps an encoded sprite whose upright tile is labelled `correct_number`,
/// and mints a token bound to that digit under `secret`.
pub fn issue<T: SpriteTarget>(
    sprite_bytes: Vec<u8>,
    mime: &'static str,
    correct_number: u8,
    secret: &[u8],
) -> (r: CaptchaChallenge<T>)
    requires
        sprite_bytes@.len() <= usize::MAX / 2,
    ensures
        r.sprite.carries(sprite_bytes@, mime@),
        minted(secret@, correct_number, r.timestamp, r.challenge_id@),
{
    let sprite = T::from_bytes(sprite_bytes, mime);
    let (challenge_id, timestamp) = build_challenge_id(correct_number, secret);
    CaptchaChallenge { sprite, challenge_id, timestamp }
}

} // verus!

use base64::Engine;
use geronimo_captcha::sprite::{
    arrange_tiles, incorrect_angle_list, place_tile, plan_sprite, sprite_to_base64,
};
use geronimo_captcha::{GenerationOptions, SpriteBinary, SpriteFormat, SpriteTarget, SpriteUri};
use std::collections::HashSet;
use std::io::Cursor;

fn white_sprite(cell_size: u32) -> image::RgbaImage {
    let side = 3 * cell_size + 8;
    image::RgbaImage::from_pixel(side, side, image::Rgba([255, 255, 255, 255]))
}

fn encode(img: &image::RgbaImage, format: SpriteFormat) -> Vec<u8> {
    let mut buf = Vec::new();
    match format {
        SpriteFormat::Jpeg { quality } => {
            let rgb = image::DynamicImage::ImageRgba8(img.clone()).to_rgb8();
            let mut enc = image::codecs::jpeg::JpegEncoder::new_with_quality(&mut buf, quality);
            enc.encode_image(&rgb).unwrap();
        }
        SpriteFormat::Webp { quality, lossless } => {
            let enc = webp::Encoder::from_rgba(img.as_raw(), img.width(), img.height());
            let encoded = if lossless { enc.encode_lossless() } else { enc.encode(quality as f32) };
            buf.extend_from_slice(&encoded);
        }
    }
    buf
}

fn check_header(bytes: &[u8], format: SpriteFormat) {
    match format {
        SpriteFormat::Jpeg { .. } => assert_eq!(&bytes[..3], &[0xFF, 0xD8, 0xFF]),
        SpriteFormat::Webp { .. } => assert_eq!(&bytes[..4], b"RIFF"),
    }
}

fn uri_round_trip(opts: GenerationOptions, prefix: &str) {
    let bytes = encode(&white_sprite(opts.cell_size), opts.sprite_format);
    check_header(&bytes, opts.sprite_format);
    let sprite = SpriteUri::from_bytes(bytes.clone(), opts.sprite_format.mime());
    assert!(sprite.0.starts_with(prefix));
    let data_b64 = sprite.0.split_once(',').map(|x| x.1).expect("missing data uri payload");
    let decoded = base64::engine::general_purpose::STANDARD.decode(data_b64).expect("base64 decode");
    assert_eq!(decoded, bytes);
    let _img = image::ImageReader::new(Cursor::new(decoded))
        .with_guessed_format()
        .expect("guess format")
        .decode()
        .expect("decode");
}

fn binary_round_trip(opts: GenerationOptions, mime: &str) {
    let bytes = encode(&white_sprite(opts.cell_size), opts.sprite_format);
    let sprite = SpriteBinary::from_bytes(bytes.clone(), opts.sprite_format.mime());
    assert_eq!(sprite.mime, mime);
    assert!(!sprite.bytes.is_empty());
    assert_eq!(sprite.bytes, bytes);
    let _img = image::ImageReader::new(Cursor::new(&sprite.bytes))
        .with_guessed_format()
        .expect("guess format")
        .decode()
        .expect("decode binary");
}

#[test]
fn test_sprite_prefix_jpeg_and_decode() {
    let opts = GenerationOptions {
        cell_size: 120,
        sprite_format: SpriteFormat::Jpeg { quality: 60 },
        limits: None,
    };
    uri_round_trip(opts, "data:image/jpeg;base64,");
}

#[test]
fn test_sprite_prefix_webp_and_decode() {
    let opts = GenerationOptions {
        cell_size: 120,
        sprite_format: SpriteFormat::Webp { quality: 75, lossless: false },
        limits: None,
    };
    uri_round_trip(opts, "data:image/webp;base64,");
}

#[test]
fn test_sprite_binary_jpeg_and_decode() {
    let opts = GenerationOptions {
        cell_size: 150,
        sprite_format: SpriteFormat::Jpeg { quality: 70 },
        limits: None,
    };
    binary_round_trip(opts, "image/jpeg");
}

#[test]
fn test_sprite_binary_webp_and_decode() {
    let opts = GenerationOptions {
        cell_size: 150,
        sprite_format: SpriteFormat::Webp { quality: 70, lossless: false },
        limits: None,
    };
    binary_round_trip(opts, "image/webp");
}

#[test]
fn data_uri_is_exact() {
    assert_eq!(sprite_to_base64(b"abc", "image/jpeg"), "data:image/jpeg;base64,YWJj");
    assert_eq!(sprite_to_base64(b"ab", "image/webp"), "data:image/webp;base64,YWI=");
    assert_eq!(sprite_to_base64(b"", "image/webp"), "data:image/webp;base64,");
}

#[test]
fn default_generation_options() {
    let opts = GenerationOptions::default();
    assert_eq!(opts.cell_size, 150);
    assert!(matches!(opts.sprite_format, SpriteFormat::Jpeg { quality: 70 }));
    assert!(opts.limits.is_none());
    assert_eq!(SpriteFormat::default().mime(), "image/jpeg");
}

#[test]
fn plan_has_one_upright_tile_and_eight_distinct_pool_angles() {
    let pool: HashSet<u32> = incorrect_angle_list().into_iter().collect();
    for _ in 0..50 {
        let plan = plan_sprite(150);
        assert_eq!(plan.tiles.len(), 9);
        assert_eq!(plan.side, 458);
        let upright: Vec<usize> = (0..9).filter(|&i| plan.tiles[i].angle == 0).collect();
        assert_eq!(upright, vec![(plan.correct_number - 1) as usize]);
        assert!(plan.tiles[upright[0]].is_correct);
        let others: HashSet<u32> = plan
            .tiles
            .iter()
            .filter(|t| !t.is_correct)
            .map(|t| t.angle)
            .collect();
        assert_eq!(others.len(), 8);
        assert!(others.is_subset(&pool));
    }
}

#[test]
fn plan_keeps_each_tile_inside_its_cell() {
    for cell in [0u32, 1, 7, 80, 150, 300] {
        let plan = plan_sprite(cell);
        for (i, t) in plan.tiles.iter().enumerate() {
            let ox = (i as u32 % 3) * (cell + 4);
            let oy = (i as u32 / 3) * (cell + 4);
            assert!(ox <= t.x && t.x + t.size <= ox + cell);
            assert!(oy <= t.y && t.y + t.size <= oy + cell);
            assert!((500..800).contains(&t.scale_permille));
            assert_eq!(t.size, (cell * t.scale_permille + 500) / 1000);
            assert!(t.size <= cell);
            assert!((130..=170).contains(&t.label_scale_permille));
            assert!(t.label_color.0 < 100 && t.label_color.1 < 100 && t.label_color.2 < 100);
        }
    }
}

#[test]
fn wrong_tiles_come_from_the_whole_pool() {
    let mut used: HashSet<u32> = HashSet::new();
    for _ in 0..60 {
        for t in plan_sprite(80).tiles.iter().filter(|t| !t.is_correct) {
            used.insert(t.angle);
        }
    }
    assert_eq!(used.len(), 11);
}

#[test]
fn correct_digit_varies_over_plans() {
    let seen: HashSet<u8> = (0..100).map(|_| plan_sprite(80).correct_number).collect();
    assert!(seen.len() >= 2);
    assert!(seen.iter().all(|d| (1..=9).contains(d)));
}

#[test]
fn arrange_tiles_places_upright_tile_and_others_in_order() {
    let others = vec![38, 88, 114, 138, 176, 200, 229, 255, 278, 314, 320];
    let tiles = arrange_tiles(4, &others);
    assert_eq!(
        tiles,
        vec![
            (38, false),
            (88, false),
            (114, false),
            (138, false),
            (0, true),
            (176, false),
            (200, false),
            (229, false),
            (255, false)
        ]
    );
    let first = arrange_tiles(0, &others);
    assert_eq!(first[0], (0, true));
    assert_eq!(first[8], (255, false));
}

#[test]
fn place_tile_exact_layout() {
    let t = place_tile(5, 88, false, 150, 600, true, 10, 20, 2, 3, 150, (1, 2, 3));
    assert_eq!(t.size, 90);
    assert_eq!(t.x, 2 * 154 + 10);
    assert_eq!(t.y, 154 + 20);
    assert_eq!(t.label_x, 2 * 154 + 10 + 90 - 16 + 2);
    assert_eq!(t.label_y, 154 + 20 + 90 - 16 + 3);
    assert!(t.flip);
    assert_eq!(t.angle, 88);
    let small = place_tile(0, 0, true, 10, 500, false, 0, 0, 0, 0, 130, (0, 0, 0));
    assert_eq!(small.size, 5);
    let rounded = place_tile(0, 0, true, 5, 700, false, 0, 0, 0, 0, 130, (0, 0, 0));
    assert_eq!(rounded.size, 4);
    assert_eq!(rounded.scale_permille, 700);
    let half_up = place_tile(0, 0, true, 3, 500, false, 0, 0, 0, 0, 130, (0, 0, 0));
    assert_eq!(half_up.size, 2);
    assert_eq!(small.label_x, 0);
}

//! The sprite: the delivery shapes of its encoded bytes, and the plan of its
//! 3×3 grid — which tile is upright, which rotations the others get, and where
//! each tile and its digit label go.
use vstd::prelude::*;
use crate::crypto::{base64_encode, base64_of};
use crate::random::{random_in, shuffle};

verus! {

/// How the sprite is encoded.
#[derive(Clone, Copy, Debug)]
pub enum SpriteFormat {
    Jpeg { quality: u8 },
    Webp { quality: u8, lossless: bool },
}

impl SpriteFormat {
    /// The MIME type of the format.
    pub open spec fn mime_spec(&self) -> Seq<char> {
        match self {
            SpriteFormat::Jpeg { .. } => "image/jpeg"@,
            SpriteFormat::Webp { .. } => "image/webp"@,
        }
    }

    /// The MIME type of the format.
    pub fn mime(&self) -> (r: &'static str)
        ensures
            r@ == self.mime_spec(),
    {
        match self {
            SpriteFormat::Jpeg { .. } => "image/jpeg",
            SpriteFormat::Webp { .. } => "image/webp",
        }
    }
}

impl Default for SpriteFormat {
    fn default() -> (r: Self)
        ensures
            r == (SpriteFormat::Jpeg { quality: 70 }),
    {
        SpriteFormat::Jpeg { quality: 70 }
    }
}

/// The data URI that carries `payload` (base64 text) with MIME type `mime`.
pub open spec fn data_uri(mime: Seq<char>, payload: Seq<char>) -> Seq<char> {
    "data:"@ + mime + ";base64,"@ + payload
}

/// The data URI of the bytes `buf` with MIME type `mime`.
pub fn sprite_to_base64(buf: &[u8], mime: &str) -> (r: String)
    requires
        buf@.len() <= usize::MAX / 2,
    ensures
        r@ == data_uri(mime@, base64_of(buf@)),
{
    let payload = base64_encode(buf);
    let mut uri = String::from_str("data:");
    uri.append(mime);
    uri.append(";base64,");
    uri.append(payload.as_str());
    uri
}

/// A shape in which the encoded sprite is handed to the caller.
pub trait SpriteTarget: Sized {
    /// Whether `self` carries `bytes` of MIME type `mime`.
    spec fn carries(&self, bytes: Seq<u8>, mime: Seq<char>) -> bool;

    fn from_bytes(bytes: Vec<u8>, mime: &'static str) -> (r: Self)
        requires
            bytes@.len() <= usize::MAX / 2,
        ensures
            r.carries(bytes@, mime@),
    ;
}

/// The sprite as a data URI.
pub struct SpriteUri(pub String);

impl SpriteTarget for SpriteUri {
    open spec fn carries(&self, bytes: Seq<u8>, mime: Seq<char>) -> bool {
        self.0@ == data_uri(mime, base64_of(bytes))
    }

    fn from_bytes(bytes: Vec<u8>, mime: &'static str) -> (r: Self) {
        SpriteUri(sprite_to_base64(bytes.as_slice(), mime))
    }
}

/// The sprite as bytes with their MIME type.
pub struct SpriteBinary {
    pub bytes: Vec<u8>,
    pub mime: &'static str,
}

impl SpriteTarget for SpriteBinary {
    open spec fn carries(&self, bytes: Seq<u8>, mime: Seq<char>) -> bool {
        self.bytes@ == bytes && self.mime@ == mime
    }

    fn from_bytes(bytes: Vec<u8>, mime: &'static str) -> (r: Self) {
        SpriteBinary { bytes, mime }
    }
}

/// Pixels between two cells of the grid.
pub const SPACING: u32 = 4;

/// Pixels between a tile's lower-right corner and its label.
pub const LABEL_INSET: u32 = 16;

/// The rotations, in degrees, that the eight wrong tiles are drawn from.
pub open spec fn incorrect_angles() -> Seq<u32> {
    seq![38, 88, 114, 138, 176, 200, 229, 255, 278, 314, 320]
}

/// The rotations that the wrong tiles are drawn from.
pub fn incorrect_angle_list() -> (r: Vec<u32>)
    ensures
        r@ == incorrect_angles(),
{
    let r: Vec<u32> = vec![38, 88, 114, 138, 176, 200, 229, 255, 278, 314, 320];
    assert(r@ =~= incorrect_angles());
    r
}

/// Side of the square sprite for cells of `cell_size` pixels.
pub open spec fn sprite_side(cell_size: u32) -> int {
    3 * cell_size + 2 * SPACING
}

/// One tile of the plan.
#[derive(Clone, Copy, Debug)]
pub struct TilePlan {
    /// Rotation in degrees; 0 for the upright tile.
    pub angle: u32,
    pub is_correct: bool,
    /// Scale of the tile as thousandths of the cell size.
    pub scale_permille: u32,
    /// Side of the shrunk tile: the cell size times the scale, rounded.
    pub size: u32,
    /// Whether the tile is mirrored left to right.
    pub flip: bool,
    /// Top-left corner of the tile on the sprite.
    pub x: u32,
    pub y: u32,
    /// Top-left corner of the digit label.
    pub label_x: u32,
    pub label_y: u32,
    /// Height of the label as thousandths of the cell size.
    pub label_scale_permille: u32,
    pub label_color: (u8, u8, u8),
}

/// The plan of a whole sprite.
pub struct SpritePlan {
    pub cell_size: u32,
    /// Side of the square sprite.
    pub side: u32,
    /// The nine tiles, row by row; tile `i` is labelled `i + 1`.
    pub tiles: Vec<TilePlan>,
    /// The label of the upright tile.
    pub correct_number: u8,
}

/// `cell_size * scale_permille / 1000`, rounded to the nearest integer
/// (halves up).
pub open spec fn scaled_side(cell_size: u32, scale_permille: u32) -> int {
    (cell_size as int * scale_permille + 500) / 1000
}

/// Left (or top) edge of cell `k` of a row (or column).
pub open spec fn cell_origin(k: int, cell_size: u32) -> int {
    k * (cell_size + SPACING)
}

/// Whether `t` is the tile at grid index `i` placed as the layout rules ask:
/// its side the cell size times a scale in `[0.5, 0.8)`, rounded, inside its cell, its
/// label 16 px in from its lower-right corner plus up to 3 px, at 13–17
/// hundredths of the cell, in a dark colour.
pub open spec fn well_placed(t: TilePlan, i: int, cell_size: u32) -> bool {
    let ox = cell_origin(i % 3, cell_size);
    let oy = cell_origin(i / 3, cell_size);
    let corner_x = if t.x + t.size >= LABEL_INSET { t.x + t.size - LABEL_INSET } else { 0 };
    let corner_y = if t.y + t.size >= LABEL_INSET { t.y + t.size - LABEL_INSET } else { 0 };
    &&& 500 <= t.scale_permille < 800
    &&& t.size == scaled_side(cell_size, t.scale_permille)
    &&& t.size <= cell_size
    &&& ox <= t.x && t.x + t.size <= ox + cell_size
    &&& oy <= t.y && t.y + t.size <= oy + cell_size
    &&& corner_x <= t.label_x <= corner_x + 3
    &&& corner_y <= t.label_y <= corner_y + 3
    &&& 130 <= t.label_scale_permille <= 170
    &&& t.label_color.0 < 100 && t.label_color.1 < 100 && t.label_color.2 < 100
}

/// Whether `tiles` holds exactly one upright tile, at index `correct`, and
/// eight others whose rotations are distinct members of the pool.
pub open spec fn tiles_well_chosen(tiles: Seq<TilePlan>, correct: int) -> bool {
    &&& tiles.len() == 9
    &&& 0 <= correct < 9
    &&& forall|i: int| 0 <= i < 9 ==> (#[trigger] tiles[i].is_correct <==> i == correct)
    &&& forall|i: int| 0 <= i < 9 ==> (#[trigger] tiles[i].angle == 0 <==> i == correct)
    &&& forall|i: int| 0 <= i < 9 && i != correct ==> incorrect_angles().contains(#[trigger] tiles[i].angle)
    &&& forall|i: int, j: int|
        0 <= i < 9 && 0 <= j < 9 && i != j ==> #[trigger] tiles[i].angle != #[trigger] tiles[j].angle
}

proof fn lemma_scaled_side(cell_size: u32, scale_permille: u32)
    requires
        scale_permille < 800,
    ensures
        0 <= scaled_side(cell_size, scale_permille) <= cell_size,
        cell_size as int * scale_permille + 500 <= 0xffff_ffff * 800 + 500,
{
    assert(cell_size as int * scale_permille <= 0xffff_ffff * 800) by (nonlinear_arith)
        requires
            cell_size <= 0xffff_ffff,
            scale_permille < 800,
    ;
    assert((cell_size as int * scale_permille + 500) / 1000 <= cell_size) by (nonlinear_arith)
        requires
            scale_permille < 800,
    ;
}

/// `scaled_side`, computed.
fn scaled_side_exec(cell_size: u32, scale_permille: u32) -> (r: u32)
    requires
        scale_permille < 800,
    ensures
        r == scaled_side(cell_size, scale_permille),
{
    proof {
        lemma_scaled_side(cell_size, scale_permille);
    }
    ((cell_size as u64 * scale_permille as u64 + 500) / 1000) as u32
}

/// Places the tile with grid index `index`: `scale_permille` (in `[500, 800)`)
/// gives its size, `jitter_x` and `jitter_y` (at most the slack between cell
/// and tile) its offset inside the cell, and `label_dx`, `label_dy` (at most 3)
/// the offset of its label.
pub fn place_tile(
    index: u32,
    angle: u32,
    is_correct: bool,
    cell_size: u32,
    scale_permille: u32,
    flip: bool,
    jitter_x: u32,
    jitter_y: u32,
    label_dx: u32,
    label_dy: u32,
    label_scale_permille: u32,
    label_color: (u8, u8, u8),
) -> (r: TilePlan)
    requires
        index < 9,
        sprite_side(cell_size) <= u32::MAX,
        500 <= scale_permille < 800,
        jitter_x <= cell_size - scaled_side(cell_size, scale_permille),
        jitter_y <= cell_size - scaled_side(cell_size, scale_permille),
        label_dx <= 3,
        label_dy <= 3,
        130 <= label_scale_permille <= 170,
        label_color.0 < 100 && label_color.1 < 100 && label_color.2 < 100,
    ensures
        well_placed(r, index as int, cell_size),
        r.angle == angle,
        r.is_correct == is_correct,
        r.flip == flip,
        r.scale_permille == scale_permille,
        r.size == scaled_side(cell_size, scale_permille),
        r.x == cell_origin((index % 3) as int, cell_size) + jitter_x,
        r.y == cell_origin((index / 3) as int, cell_size) + jitter_y,
        r.label_x == (if r.x + r.size >= LABEL_INSET { r.x + r.size - LABEL_INSET } else { 0 }) + label_dx,
        r.label_y == (if r.y + r.size >= LABEL_INSET { r.y + r.size - LABEL_INSET } else { 0 }) + label_dy,
        r.label_scale_permille == label_scale_permille,
        r.label_color == label_color,
{
    proof {
        lemma_scaled_side(cell_size, scale_permille);
    }
    let size = scaled_side_exec(cell_size, scale_permille);
    let col = index % 3;
    let row = index / 3;
    assert(col * (cell_size + SPACING) <= 2 * (cell_size + SPACING)) by (nonlinear_arith)
        requires col <= 2;
    assert(row * (cell_size + SPACING) <= 2 * (cell_size + SPACING)) by (nonlinear_arith)
        requires row <= 2;
    let ox = col * (cell_size + SPACING);
    let oy = row * (cell_size + SPACING);
    let x = ox + jitter_x;
    let y = oy + jitter_y;
    let label_x = (x + size).saturating_sub(LABEL_INSET) + label_dx;
    let label_y = (y + size).saturating_sub(LABEL_INSET) + label_dy;
    TilePlan {
        angle,
        is_correct,
        scale_permille,
        size,
        flip,
        x,
        y,
        label_x,
        label_y,
        label_scale_permille,
        label_color,
    }
}

/// A reordering keeps the members of a sequence, and keeps them distinct.
proof fn lemma_reordered(a: Seq<u32>, b: Seq<u32>)
    requires
        a.to_multiset() == b.to_multiset(),
        a.no_duplicates(),
    ensures
        b.no_duplicates(),
        forall|x: u32| b.contains(x) ==> a.contains(x),
{
    broadcast use vstd::seq_lib::group_to_multiset_ensures;
    a.lemma_multiset_has_no_duplicates();
    b.lemma_multiset_has_no_duplicates_conv();
    assert forall|x: u32| b.contains(x) implies a.contains(x) by {
        assert(b.to_multiset().count(x) > 0);
        assert(a.to_multiset().count(x) > 0);
    }
}

proof fn lemma_pool_distinct()
    ensures
        incorrect_angles().no_duplicates(),
        !incorrect_angles().contains(0),
{
    let s = incorrect_angles();
    assert forall|i: int, j: int| 0 <= i < j < s.len() implies s[i] < s[j] by {
        assert(s[0] < s[1] && s[1] < s[2] && s[2] < s[3] && s[3] < s[4] && s[4] < s[5]);
        assert(s[5] < s[6] && s[6] < s[7] && s[7] < s[8] && s[8] < s[9] && s[9] < s[10]);
    }
    assert forall|i: int| 0 <= i < s.len() implies s[i] > 0 by {
        assert(s[0] > 0);
    }
}

/// The rotation and uprightness of each of the nine tiles: the upright tile
/// at `correct_index`, and the first eight of `others`, in order, elsewhere.
pub fn arrange_tiles(correct_index: u32, others: &Vec<u32>) -> (r: Vec<(u32, bool)>)
    requires
        correct_index < 9,
        others@.len() >= 8,
    ensures
        r@.len() == 9,
        forall|i: int|
            0 <= i < 9 ==> #[trigger] r@[i] == if i == correct_index {
                (0u32, true)
            } else if i < correct_index {
                (others@[i], false)
            } else {
                (others@[i - 1], false)
            },
{
    let mut r: Vec<(u32, bool)> = Vec::new();
    let mut i: u32 = 0;
    while i < 9
        invariant
            i <= 9,
            correct_index < 9,
            others@.len() >= 8,
            r@.len() == i,
            forall|k: int|
                0 <= k < i ==> #[trigger] r@[k] == if k == correct_index {
                    (0u32, true)
                } else if k < correct_index {
                    (others@[k], false)
                } else {
                    (others@[k - 1], false)
                },
        decreases 9 - i,
    {
        if i == correct_index {
            r.push((0, true));
        } else if i < correct_index {
            r.push((others[i as usize], false));
        } else {
            r.push((others[(i - 1) as usize], false));
        }
        i = i + 1;
    }
    r
}

/// Plans a sprite for cells of `cell_size` pixels: the upright tile at a
/// uniformly random grid index, eight rotations drawn without replacement
/// from the pool, and for each tile a random size, mirroring, offset inside
/// its cell, and label offset, size and colour.
pub fn plan_sprite(cell_size: u32) -> (r: SpritePlan)
    requires
        sprite_side(cell_size) <= u32::MAX,
    ensures
        r.cell_size == cell_size,
        r.side == sprite_side(cell_size),
        1 <= r.correct_number <= 9,
        tiles_well_chosen(r.tiles@, r.correct_number - 1),
        forall|i: int| 0 <= i < 9 ==> well_placed(#[trigger] r.tiles@[i], i, cell_size),
{
    let mut pool = incorrect_angle_list();
    shuffle(&mut pool);
    proof {
        lemma_pool_distinct();
        lemma_reordered(incorrect_angles(), pool@);
    }
    let correct_index = random_in(0, 8);
    let choices = arrange_tiles(correct_index, &pool);
    proof {
        assert forall|i: int| 0 <= i < 9 && i != correct_index implies incorrect_angles().contains(
            #[trigger] choices@[i].0,
        ) by {
            let k = if i < correct_index { i } else { i - 1 };
            assert(pool@.contains(pool@[k]));
        }
    }
    let mut tiles: Vec<TilePlan> = Vec::new();
    let mut i: u32 = 0;
    while i < 9
        invariant
            i <= 9,
            sprite_side(cell_size) <= u32::MAX,
            correct_index < 9,
            choices@.len() == 9,
            tiles@.len() == i,
            forall|k: int|
                0 <= k < i ==> well_placed(#[trigger] tiles@[k], k, cell_size)
                    && tiles@[k].angle == choices@[k].0 && tiles@[k].is_correct == choices@[k].1,
        decreases 9 - i,
    {
        let scale_permille = random_in(500, 799);
        proof {
            lemma_scaled_side(cell_size, scale_permille);
        }
        let size = scaled_side_exec(cell_size, scale_permille);
        let slack = (cell_size - size) / 2;
        let flip = random_in(0, 1) == 1;
        let jitter_x = random_in(0, 2 * slack);
        let jitter_y = random_in(0, 2 * slack);
        let label_dx = random_in(0, 3);
        let label_dy = random_in(0, 3);
        let label_scale_permille = random_in(130, 170);
        let red = random_in(0, 99) as u8;
        let green = random_in(0, 99) as u8;
        let blue = random_in(0, 99) as u8;
        let (angle, is_correct) = choices[i as usize];
        let tile = place_tile(
            i,
            angle,
            is_correct,
            cell_size,
            scale_permille,
            flip,
            jitter_x,
            jitter_y,
            label_dx,
            label_dy,
            label_scale_permille,
            (red, green, blue),
        );
        tiles.push(tile);
        i = i + 1;
    }
    let side = 3 * cell_size + 2 * SPACING;
    let plan = SpritePlan { cell_size, side, tiles, correct_number: (correct_index + 1) as u8 };
    proof {
        let t = plan.tiles@;
        let c = correct_index as int;
        assert forall|i: int, j: int|
            0 <= i < 9 && 0 <= j < 9 && i != j implies #[trigger] t[i].angle != #[trigger] t[j].angle by {
            if i != c && j != c {
                let ki = if i < c { i } else { i - 1 };
                let kj = if j < c { j } else { j - 1 };
                assert(t[i].angle == pool@[ki]);
                assert(t[j].angle == pool@[kj]);
            } else if i != c {
                assert(incorrect_angles().contains(t[i].angle));
            } else {
                assert(incorrect_angles().contains(t[j].angle));
            }
        }
        assert forall|i: int| 0 <= i < 9 implies (#[trigger] t[i].angle == 0 <==> i == c) by {
            if i != c {
                assert(incorrect_angles().contains(t[i].angle));
            }
        }
    }
    plan
}

} // verus!

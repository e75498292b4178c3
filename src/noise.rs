//! Noise marks stamped over the sprite to hinder automated solvers.
use vstd::prelude::*;
use vstd::arithmetic::div_mod::{lemma_fundamental_div_mod, lemma_fundamental_div_mod_converse, lemma_mod_pos_bound};
use crate::random::random_in;

verus! {

/// The shape of one noise mark.
#[derive(Clone, Copy, Debug, PartialEq, Eq, Structural)]
pub enum NoisePattern {
    /// One pixel.
    Dots,
    /// A horizontal run of `size` pixels.
    Lines,
    /// A `size × size` block.
    Grid,
}

impl Default for NoisePattern {
    fn default() -> (r: Self)
        ensures
            r == NoisePattern::Grid,
    {
        NoisePattern::Grid
    }
}

/// How the noise pass marks the sprite.
#[derive(Clone, Copy, Debug)]
pub struct NoiseOptions {
    /// How many marks.
    pub count: u32,
    /// Extent of a mark in pixels.
    pub size: u32,
    /// Strength of the blur that follows the marks, in thousandths; 0 for none.
    pub blur_sigma_millis: u32,
    /// Opacity of each mark.
    pub alpha: u8,
    /// Lowest and highest value of an enabled colour channel.
    pub color_range: (u8, u8),
    pub shape: NoisePattern,
    pub red: bool,
    pub green: bool,
    pub blue: bool,
}

impl Default for NoiseOptions {
    fn default() -> (r: Self)
        ensures
            r.count == 2700,
            r.size == 2,
            r.blur_sigma_millis == 700,
            r.alpha == 100,
            r.color_range == (0u8, 255u8),
            r.shape == NoisePattern::Grid,
            r.red && r.green && r.blue,
    {
        NoiseOptions {
            count: 300 * 9,
            size: 2,
            blur_sigma_millis: 700,
            alpha: 100,
            color_range: (0, 255),
            shape: NoisePattern::Grid,
            red: true,
            green: true,
            blue: true,
        }
    }
}

/// One RGBA pixel.
pub type Rgba = (u8, u8, u8, u8);

/// An RGBA image, row by row.
pub struct RgbaCanvas {
    pub width: u32,
    pub height: u32,
    pub pixels: Vec<Rgba>,
}

impl RgbaCanvas {
    /// Whether there is exactly one pixel for each position.
    pub open spec fn wf(&self) -> bool {
        self.pixels@.len() == self.width as int * self.height as int
    }
}

/// Whether the mark of `shape` and `size` at `(x, y)` covers `(px, py)`.
pub open spec fn covers(shape: NoisePattern, size: u32, x: int, y: int, px: int, py: int) -> bool {
    match shape {
        NoisePattern::Dots => px == x && py == y,
        NoisePattern::Lines => py == y && x <= px < x + size,
        NoisePattern::Grid => x <= px < x + size && y <= py < y + size,
    }
}

/// Whether `c` is a colour that the noise pass may draw under `opts`: alpha
/// is the configured one, a disabled channel is 0, an enabled one lies in the
/// colour range.
pub open spec fn noise_color(opts: NoiseOptions, c: Rgba) -> bool {
    let (lo, hi) = opts.color_range;
    &&& c.3 == opts.alpha
    &&& if opts.red { lo <= c.0 <= hi } else { c.0 == 0 }
    &&& if opts.green { lo <= c.1 <= hi } else { c.1 == 0 }
    &&& if opts.blue { lo <= c.2 <= hi } else { c.2 == 0 }
}

proof fn lemma_pixel_index(p: int, x: int, y: int, w: int)
    requires
        w > 0,
        0 <= x < w,
        0 <= y,
        0 <= p,
    ensures
        (p == y * w + x) <==> (p % w == x && p / w == y),
{
    if p == y * w + x {
        lemma_fundamental_div_mod_converse(p, w, y, x);
    }
    if p % w == x && p / w == y {
        lemma_fundamental_div_mod(p, w);
        assert(p == w * (p / w) + p % w);
        assert(w * y == y * w) by (nonlinear_arith);
    }
}

proof fn lemma_index_in_bounds(x: int, y: int, w: int, h: int)
    requires
        0 <= x < w,
        0 <= y < h,
    ensures
        0 <= y * w + x < w * h,
{
    assert(y * w + x < w * h) by (nonlinear_arith)
        requires
            0 <= x < w,
            0 <= y < h,
    ;
    assert(0 <= y * w) by (nonlinear_arith)
        requires
            0 <= x < w,
            0 <= y,
    ;
}

/// Sets the pixel at `(x, y)` to `color`.
pub fn put_pixel(img: &mut RgbaCanvas, x: u32, y: u32, color: Rgba)
    requires
        old(img).wf(),
        x < old(img).width,
        y < old(img).height,
    ensures
        final(img).wf(),
        final(img).width == old(img).width,
        final(img).height == old(img).height,
        forall|p: int|
            0 <= p < final(img).pixels@.len() ==> #[trigger] final(img).pixels@[p] == if p
                % old(img).width as int == x && p / old(img).width as int == y {
                color
            } else {
                old(img).pixels@[p]
            },
{
    proof {
        lemma_index_in_bounds(x as int, y as int, img.width as int, img.height as int);
    }
    let w = img.width;
    let n = img.pixels.len();
    assert((y as int * w as int + x as int) < n);
    assert(0 <= y as int * w as int);
    let ghost before = img.pixels@;
    let index = y as usize * w as usize + x as usize;
    assert(index as int == y as int * w as int + x as int);
    img.pixels.set(index, color);
    assert(img.pixels@ == before.update(index as int, color));
    proof {
        assert forall|p: int| 0 <= p < img.pixels@.len() implies #[trigger] img.pixels@[p] == if p
            % img.width as int == x && p / img.width as int == y {
            color
        } else {
            old(img).pixels@[p]
        } by {
            lemma_pixel_index(p, x as int, y as int, w as int);
        }
    }
}

proof fn lemma_position_bounds(p: int, w: int, h: int)
    requires
        w > 0,
        0 <= p < w * h,
    ensures
        0 <= p % w < w,
        0 <= p / w < h,
{
    lemma_mod_pos_bound(p, w);
    lemma_fundamental_div_mod(p, w);
    let q = p / w;
    assert(0 <= q < h) by (nonlinear_arith)
        requires
            p == w * q + p % w,
            0 <= p % w < w,
            0 <= p < w * h,
            w > 0,
    ;
}

/// Sets the pixels of row `y` from column `x` on, `len` of them, clipped at
/// the right edge.
fn stamp_row(img: &mut RgbaCanvas, x: u32, y: u32, len: u32, color: Rgba)
    requires
        old(img).wf(),
        x < old(img).width,
        y < old(img).height,
    ensures
        final(img).wf(),
        final(img).width == old(img).width,
        final(img).height == old(img).height,
        forall|p: int|
            0 <= p < final(img).pixels@.len() ==> #[trigger] final(img).pixels@[p] == if p
                / old(img).width as int == y && x <= (p % old(img).width as int) < x + len {
                color
            } else {
                old(img).pixels@[p]
            },
{
    let w = img.width;
    let mut i: u32 = 0;
    while i < len && (x as u64) + (i as u64) < (w as u64)
        invariant
            img.wf(),
            img.width == w,
            w == old(img).width,
            img.height == old(img).height,
            x < w,
            y < img.height,
            i <= len,
            forall|p: int|
                0 <= p < img.pixels@.len() ==> #[trigger] img.pixels@[p] == if p / w as int == y && x
                    <= (p % w as int) < x + i {
                    color
                } else {
                    old(img).pixels@[p]
                },
        decreases len - i,
    {
        put_pixel(img, x + i, y, color);
        i = i + 1;
    }
    proof {
        assert forall|p: int| 0 <= p < img.pixels@.len() implies #[trigger] img.pixels@[p] == if p
            / w as int == y && x <= (p % w as int) < x + len {
            color
        } else {
            old(img).pixels@[p]
        } by {
            lemma_position_bounds(p, w as int, img.height as int);
        }
    }
}

/// Stamps one mark of `shape` and `size` with its corner at `(x, y)`,
/// clipped at the right and bottom edges.
pub fn stamp_mark(img: &mut RgbaCanvas, x: u32, y: u32, color: Rgba, shape: NoisePattern, size: u32)
    requires
        old(img).wf(),
        x < old(img).width,
        y < old(img).height,
    ensures
        final(img).wf(),
        final(img).width == old(img).width,
        final(img).height == old(img).height,
        forall|p: int|
            0 <= p < final(img).pixels@.len() ==> #[trigger] final(img).pixels@[p] == if covers(
                shape,
                size,
                x as int,
                y as int,
                p % old(img).width as int,
                p / old(img).width as int,
            ) {
                color
            } else {
                old(img).pixels@[p]
            },
{
    match shape {
        NoisePattern::Dots => {
            put_pixel(img, x, y, color);
        },
        NoisePattern::Lines => {
            stamp_row(img, x, y, size, color);
        },
        NoisePattern::Grid => {
            let w = img.width;
            let h = img.height;
            let mut dy: u32 = 0;
            while dy < size && (y as u64) + (dy as u64) < (h as u64)
                invariant
                    img.wf(),
                    img.width == w,
                    img.height == h,
                    w == old(img).width,
                    h == old(img).height,
                    x < w,
                    y < h,
                    dy <= size,
                    forall|p: int|
                        0 <= p < img.pixels@.len() ==> #[trigger] img.pixels@[p] == if y <= (p
                            / w as int) < y + dy && x <= (p % w as int) < x + size {
                            color
                        } else {
                            old(img).pixels@[p]
                        },
                decreases size - dy,
            {
                stamp_row(img, x, y + dy, size, color);
                dy = dy + 1;
            }
            proof {
                assert forall|p: int| 0 <= p < img.pixels@.len() implies #[trigger] img.pixels@[p]
                    == if covers(shape, size, x as int, y as int, p % w as int, p / w as int) {
                    color
                } else {
                    old(img).pixels@[p]
                } by {
                    lemma_position_bounds(p, w as int, h as int);
                }
            }
        },
    }
}

/// One noise mark: its corner and its colour.
pub type NoiseMark = (u32, u32, Rgba);

/// The pixels after stamping `marks` in order (a later mark covers an
/// earlier one) on an image of width `width`.
pub open spec fn stamped(pixels: Seq<Rgba>, width: u32, marks: Seq<NoiseMark>, shape: NoisePattern, size: u32) -> Seq<Rgba>
    decreases marks.len(),
{
    if marks.len() == 0 {
        pixels
    } else {
        let prev = stamped(pixels, width, marks.drop_last(), shape, size);
        let m = marks.last();
        Seq::new(
            prev.len(),
            |p: int|
                if covers(shape, size, m.0 as int, m.1 as int, p % width as int, p / width as int) {
                    m.2
                } else {
                    prev[p]
                },
        )
    }
}

/// Whether every mark lies on the image and has a colour `opts` allows.
pub open spec fn marks_allowed(marks: Seq<NoiseMark>, width: u32, height: u32, opts: NoiseOptions) -> bool {
    forall|i: int|
        0 <= i < marks.len() ==> (#[trigger] marks[i]).0 < width && marks[i].1 < height && noise_color(
            opts,
            marks[i].2,
        )
}

proof fn lemma_stamped_len(pixels: Seq<Rgba>, width: u32, marks: Seq<NoiseMark>, shape: NoisePattern, size: u32)
    ensures
        stamped(pixels, width, marks, shape, size).len() == pixels.len(),
    decreases marks.len(),
{
    if marks.len() > 0 {
        lemma_stamped_len(pixels, width, marks.drop_last(), shape, size);
    }
}

/// Stamps `marks` in order, each of `shape` and `size`.
pub fn stamp_marks(img: &mut RgbaCanvas, marks: &Vec<NoiseMark>, shape: NoisePattern, size: u32)
    requires
        old(img).wf(),
        forall|i: int|
            0 <= i < marks@.len() ==> (#[trigger] marks@[i]).0 < old(img).width && marks@[i].1
                < old(img).height,
    ensures
        final(img).wf(),
        final(img).width == old(img).width,
        final(img).height == old(img).height,
        final(img).pixels@ == stamped(old(img).pixels@, old(img).width, marks@, shape, size),
{
    let mut i: usize = 0;
    assert(marks@.subrange(0, 0) =~= Seq::<NoiseMark>::empty());
    while i < marks.len()
        invariant
            img.wf(),
            img.width == old(img).width,
            img.height == old(img).height,
            i <= marks@.len(),
            forall|k: int|
                0 <= k < marks@.len() ==> (#[trigger] marks@[k]).0 < old(img).width && marks@[k].1
                    < old(img).height,
            img.pixels@ == stamped(old(img).pixels@, old(img).width, marks@.subrange(0, i as int), shape, size),
        decreases marks@.len() - i,
    {
        let (x, y, color) = marks[i];
        let ghost prev = img.pixels@;
        stamp_mark(img, x, y, color, shape, size);
        proof {
            let next = marks@.subrange(0, i + 1);
            assert(next.drop_last() =~= marks@.subrange(0, i as int));
            assert(next.last() == marks@[i as int]);
            lemma_stamped_len(old(img).pixels@, old(img).width, marks@.subrange(0, i as int), shape, size);
            assert(img.pixels@ =~= stamped(old(img).pixels@, old(img).width, next, shape, size));
        }
        i = i + 1;
    }
    assert(marks@.subrange(0, marks@.len() as int) =~= marks@);
}

/// Stamps `opts.count` marks of `opts.shape` and `opts.size`, each at a
/// uniformly random position on the image and in a random colour that `opts`
/// allows. An empty image is left as it is. The blur that may follow is not
/// part of this pass.
pub fn watermark_with_noise(img: &mut RgbaCanvas, opts: NoiseOptions)
    requires
        old(img).wf(),
        opts.color_range.0 <= opts.color_range.1,
    ensures
        final(img).wf(),
        final(img).width == old(img).width,
        final(img).height == old(img).height,
        old(img).width == 0 || old(img).height == 0 ==> final(img).pixels@ == old(img).pixels@,
        old(img).width > 0 && old(img).height > 0 ==> exists|marks: Seq<NoiseMark>|
            marks.len() == opts.count && marks_allowed(marks, old(img).width, old(img).height, opts)
                && final(img).pixels@ == #[trigger] stamped(
                old(img).pixels@,
                old(img).width,
                marks,
                opts.shape,
                opts.size,
            ),
{
    let w = img.width;
    let h = img.height;
    if w == 0 || h == 0 {
        return;
    }
    let lo = opts.color_range.0 as u32;
    let hi = opts.color_range.1 as u32;
    let mut marks: Vec<NoiseMark> = Vec::new();
    let mut k: u32 = 0;
    while k < opts.count
        invariant
            w > 0 && h > 0,
            lo == opts.color_range.0,
            hi == opts.color_range.1,
            lo <= hi,
            k <= opts.count,
            marks@.len() == k,
            marks_allowed(marks@, w, h, opts),
        decreases opts.count - k,
    {
        let x = random_in(0, w - 1);
        let y = random_in(0, h - 1);
        let r: u8 = if opts.red { random_in(lo, hi) as u8 } else { 0 };
        let g: u8 = if opts.green { random_in(lo, hi) as u8 } else { 0 };
        let b: u8 = if opts.blue { random_in(lo, hi) as u8 } else { 0 };
        let color: Rgba = (r, g, b, opts.alpha);
        assert(noise_color(opts, color));
        marks.push((x, y, color));
        k = k + 1;
    }
    stamp_marks(img, &marks, opts.shape, opts.size);
}

} // verus!

use vstd::prelude::*;
use crate::lcg::{Lcg, lcg_output, lcg_state_after};
use crate::raster::put_pixel;

verus! {

/// Seed of the star field's generator: the same field every run.
pub const STAR_SEED: u64 = 42;

/// `r / 2^32` of the way along `0 .. n`, rounded down: always below `n` when `n > 0`.
pub open spec fn scale_draw(r: u32, n: usize) -> usize {
    ((r as int * n as int) / 0x1_0000_0000) as usize
}

/// A bright background pixel; `level` is the raw draw that sets its brightness.
#[derive(Clone, Copy, Debug, PartialEq, Eq, Structural)]
pub struct StarPixel {
    pub x: usize,
    pub y: usize,
    pub level: u32,
}

/// Star `k` of a field on a `width * height` image: it takes the generator's
/// draws `3k + 1`, `3k + 2` and `3k + 3` from the seed for its column, row and
/// brightness.
pub open spec fn star_spec(seed: u64, k: int, width: usize, height: usize) -> StarPixel {
    StarPixel {
        x: scale_draw(lcg_output(lcg_state_after(seed, (3 * k + 1) as nat)), width),
        y: scale_draw(lcg_output(lcg_state_after(seed, (3 * k + 2) as nat)), height),
        level: lcg_output(lcg_state_after(seed, (3 * k + 3) as nat)),
    }
}

/// The background of a frame: a fixed set of stars on a `width * height` image.
pub struct Sky {
    pub stars: Vec<StarPixel>,
    pub width: usize,
    pub height: usize,
}

/// The row-filled image with rows colored by `rows`, with the first `n` stars
/// drawn over it in order, each in its color from `colors`.
pub open spec fn sky_image(rows: Seq<u32>, w: int, h: int, stars: Seq<StarPixel>, colors: Seq<u32>, n: nat) -> Seq<u32>
    decreases n,
{
    if n == 0 {
        Seq::new((w * h) as nat, |i: int| rows[i / w])
    } else {
        let k = n - 1;
        put_pixel(sky_image(rows, w, h, stars, colors, k as nat), w, h, stars[k].x as int, stars[k].y as int, colors[k])
    }
}

/// The image has one pixel per cell of the grid.
pub proof fn lemma_sky_image_len(rows: Seq<u32>, w: int, h: int, stars: Seq<StarPixel>, colors: Seq<u32>, n: nat)
    requires
        w >= 0,
        h >= 0,
    ensures
        sky_image(rows, w, h, stars, colors, n).len() == w * h,
    decreases n,
{
    assert(w * h >= 0) by (nonlinear_arith)
        requires w >= 0, h >= 0;
    if n > 0 {
        lemma_sky_image_len(rows, w, h, stars, colors, (n - 1) as nat);
        let x = stars[n - 1].x as int;
        let y = stars[n - 1].y as int;
        if 0 <= x < w && 0 <= y < h {
            assert(y * w + x < w * h) by (nonlinear_arith)
                requires 0 <= x < w, 0 <= y < h;
        }
    }
}

fn scale(r: u32, n: usize) -> (v: usize)
    ensures
        v == scale_draw(r, n),
        n > 0 ==> v < n,
{
    proof {
        assert(r as int * n as int <= 0xFFFF_FFFF * 0xFFFF_FFFF_FFFF_FFFF) by (nonlinear_arith)
            requires r <= 0xFFFF_FFFF, n <= 0xFFFF_FFFF_FFFF_FFFF;
    }
    let p: u128 = (r as u128) * (n as u128);
    let q: u128 = p / 0x1_0000_0000u128;
    proof {
        assert(q <= n) by (nonlinear_arith)
            requires q == p / 0x1_0000_0000, p == r * n, r < 0x1_0000_0000, n >= 0;
        if n > 0 {
            assert(q < n) by (nonlinear_arith)
                requires q == p / 0x1_0000_0000, p == r * n, r < 0x1_0000_0000, n > 0;
        }
    }
    q as usize
}

impl Sky {
    /// A field of `count` stars placed by the generator seeded with `STAR_SEED`.
    pub fn new(width: usize, height: usize, count: usize) -> (s: Sky)
        ensures
            s.width == width,
            s.height == height,
            s.stars@.len() == count,
            forall|k: int| 0 <= k < count ==> #[trigger] s.stars@[k] == star_spec(STAR_SEED, k, width, height),
            width > 0 && height > 0 ==> forall|k: int|
                0 <= k < count ==> #[trigger] s.stars@[k].x < width && s.stars@[k].y < height,
    {
        let mut rng = Lcg::new(STAR_SEED);
        let mut stars: Vec<StarPixel> = Vec::new();
        let mut i: usize = 0;
        while i < count
            invariant
                i <= count,
                stars@.len() == i,
                rng.state == lcg_state_after(STAR_SEED, (3 * i) as nat),
                forall|k: int| 0 <= k < i ==> #[trigger] stars@[k] == star_spec(STAR_SEED, k, width, height),
                width > 0 && height > 0 ==> forall|k: int|
                    0 <= k < i ==> #[trigger] stars@[k].x < width && stars@[k].y < height,
            decreases count - i,
        {
            let x = scale(rng.next_u32(), width);
            let y = scale(rng.next_u32(), height);
            let level = rng.next_u32();
            proof {
                assert(lcg_state_after(STAR_SEED, (3 * i + 1) as nat) == crate::lcg::lcg_step(
                    lcg_state_after(STAR_SEED, (3 * i) as nat),
                ));
                assert(lcg_state_after(STAR_SEED, (3 * i + 2) as nat) == crate::lcg::lcg_step(
                    lcg_state_after(STAR_SEED, (3 * i + 1) as nat),
                ));
                assert(lcg_state_after(STAR_SEED, (3 * i + 3) as nat) == crate::lcg::lcg_step(
                    lcg_state_after(STAR_SEED, (3 * i + 2) as nat),
                ));
            }
            stars.push(StarPixel { x, y, level });
            i = i + 1;
        }
        Sky { stars, width, height }
    }

    /// Repaints `buffer`: row `y` takes the color `rows[y]`, then each star in
    /// turn that lies inside the image takes its color from `colors`.
    pub fn paint(&self, buffer: &mut Vec<u32>, rows: &Vec<u32>, colors: &Vec<u32>)
        requires
            old(buffer)@.len() == self.width * self.height,
            rows@.len() == self.height,
            colors@.len() == self.stars@.len(),
        ensures
            final(buffer)@ == sky_image(
                rows@,
                self.width as int,
                self.height as int,
                self.stars@,
                colors@,
                self.stars@.len(),
            ),
    {
        let w = self.width;
        let h = self.height;
        let len = buffer.len();
        let ghost n = (w * h) as int;
        let mut y: usize = 0;
        while y < h
            invariant
                y <= h,
                w == self.width,
                h == self.height,
                n == w * h,
                len == n,
                buffer@.len() == n,
                rows@.len() == h,
                forall|i: int| 0 <= i < y * w ==> #[trigger] buffer@[i] == rows@[i / w as int],
            decreases h - y,
        {
            let row = rows[y];
            let mut x: usize = 0;
            while x < w
                invariant
                    y < h,
                    x <= w,
                    w == self.width,
                    h == self.height,
                    n == w * h,
                    len == n,
                    buffer@.len() == n,
                    rows@.len() == h,
                    row == rows@[y as int],
                    forall|i: int| 0 <= i < y * w + x ==> #[trigger] buffer@[i] == rows@[i / w as int],
                decreases w - x,
            {
                proof {
                    assert(y * w + x < w * h) by (nonlinear_arith)
                        requires x < w, y < h;
                    assert((y * w + x) / (w as int) == y) by (nonlinear_arith)
                        requires x < w;
                }
                buffer.set(y * w + x, row);
                x = x + 1;
            }
            proof {
                assert(y * w + w == (y + 1) * w) by (nonlinear_arith);
            }
            y = y + 1;
        }
        proof {
            assert(y * w == n) by (nonlinear_arith)
                requires y == h, n == w * h;
            assert(buffer@ =~= sky_image(rows@, w as int, h as int, self.stars@, colors@, 0));
        }
        let mut k: usize = 0;
        while k < self.stars.len()
            invariant
                k <= self.stars@.len(),
                w == self.width,
                h == self.height,
                buffer@.len() == n,
                n == w * h,
                len == n,
                colors@.len() == self.stars@.len(),
                buffer@ == sky_image(rows@, w as int, h as int, self.stars@, colors@, k as nat),
            decreases self.stars@.len() - k,
        {
            let star = self.stars[k];
            if star.x < w && star.y < h {
                proof {
                    assert(star.y * w + star.x < w * h) by (nonlinear_arith)
                        requires star.x < w, star.y < h;
                }
                buffer.set(star.y * w + star.x, colors[k]);
            }
            k = k + 1;
        }
    }
}

} // verus!

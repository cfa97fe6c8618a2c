use vstd::prelude::*;

verus! {

/// Sub-pixel steps per pixel of screen coordinates given in fixed point.
pub const SUBPIXEL: i64 = 256;

/// Largest magnitude of a fixed-point triangle vertex coordinate.
pub const COORD_LIMIT: i64 = 0x1000_0000;

/// Largest magnitude of a fixed-point coordinate that the edge function takes.
pub const EDGE_LIMIT: i64 = 0x2000_0000;

/// A point on screen in fixed point: `SUBPIXEL` units per pixel, `+y` downwards.
#[derive(Clone, Copy, Debug, PartialEq, Eq, Structural)]
pub struct ScreenPoint {
    pub x: i64,
    pub y: i64,
}

impl ScreenPoint {
    /// Both coordinates are within `COORD_LIMIT` of 0.
    pub open spec fn in_limit(&self) -> bool {
        -COORD_LIMIT <= self.x <= COORD_LIMIT && -COORD_LIMIT <= self.y <= COORD_LIMIT
    }

    /// Both coordinates are within `EDGE_LIMIT` of 0.
    pub open spec fn in_edge_limit(&self) -> bool {
        -EDGE_LIMIT <= self.x <= EDGE_LIMIT && -EDGE_LIMIT <= self.y <= EDGE_LIMIT
    }
}

/// A pixel inside a triangle, with the three edge-function values at its center.
#[derive(Clone, Copy, Debug, PartialEq, Eq, Structural)]
pub struct Fragment {
    pub x: usize,
    pub y: usize,
    pub w0: i64,
    pub w1: i64,
    pub w2: i64,
}

/// The pixels a triangle covers, and its doubled signed area.
pub struct Coverage {
    pub area: i64,
    pub fragments: Vec<Fragment>,
}

/// The 2D edge function: twice the signed area of the triangle `(a, b, c)`,
/// positive when `c` lies to one side of the line through `a` and `b`,
/// negative on the other, zero on it.
pub open spec fn edge_spec(a: ScreenPoint, b: ScreenPoint, c: ScreenPoint) -> int {
    (c.x - a.x) * (b.y - a.y) - (c.y - a.y) * (b.x - a.x)
}

/// The center of pixel `(x, y)` in fixed point.
pub open spec fn pixel_center(x: int, y: int) -> ScreenPoint {
    ScreenPoint { x: (x * SUBPIXEL + SUBPIXEL / 2) as i64, y: (y * SUBPIXEL + SUBPIXEL / 2) as i64 }
}

/// The least of three numbers.
pub open spec fn min3(a: int, b: int, c: int) -> int {
    if a <= b && a <= c {
        a
    } else if b <= c {
        b
    } else {
        c
    }
}

/// The greatest of three numbers.
pub open spec fn max3(a: int, b: int, c: int) -> int {
    if a >= b && a >= c {
        a
    } else if b >= c {
        b
    } else {
        c
    }
}

/// The first pixel column (or row) of a bounding box whose least coordinate is `m`:
/// `floor(m)` in pixels, at least 0.
pub open spec fn box_lo(m: int) -> int {
    if m < 0 {
        0
    } else {
        m / SUBPIXEL as int
    }
}

/// The last pixel column (or row) of a bounding box whose greatest coordinate
/// is `m`: `ceil(m)` in pixels, at most `size - 1`.
pub open spec fn box_hi(m: int, size: int) -> int {
    let c = (m + SUBPIXEL - 1) / SUBPIXEL as int;
    if c < size - 1 {
        c
    } else {
        size - 1
    }
}

/// The clamped pixel bounding box of the triangle `(a, b, c)` on a `w * h` image.
pub open spec fn lo_x(a: ScreenPoint, b: ScreenPoint, c: ScreenPoint) -> int {
    box_lo(min3(a.x as int, b.x as int, c.x as int))
}

pub open spec fn hi_x(a: ScreenPoint, b: ScreenPoint, c: ScreenPoint, w: int) -> int {
    box_hi(max3(a.x as int, b.x as int, c.x as int), w)
}

pub open spec fn lo_y(a: ScreenPoint, b: ScreenPoint, c: ScreenPoint) -> int {
    box_lo(min3(a.y as int, b.y as int, c.y as int))
}

pub open spec fn hi_y(a: ScreenPoint, b: ScreenPoint, c: ScreenPoint, h: int) -> int {
    box_hi(max3(a.y as int, b.y as int, c.y as int), h)
}

/// The triangle is rasterized at all: its clamped bounding box spans more than
/// one pixel in each direction, and its area is not zero.
pub open spec fn rasterized(a: ScreenPoint, b: ScreenPoint, c: ScreenPoint, w: int, h: int) -> bool {
    &&& lo_x(a, b, c) < hi_x(a, b, c, w)
    &&& lo_y(a, b, c) < hi_y(a, b, c, h)
    &&& edge_spec(a, b, c) != 0
}

/// Pixel `(x, y)` has its center strictly inside the triangle: the three edge
/// functions there are all positive or all negative.
pub open spec fn center_inside(a: ScreenPoint, b: ScreenPoint, c: ScreenPoint, x: int, y: int) -> bool {
    let p = pixel_center(x, y);
    let w0 = edge_spec(b, c, p);
    let w1 = edge_spec(c, a, p);
    let w2 = edge_spec(a, b, p);
    (w0 < 0 && w1 < 0 && w2 < 0) || (w0 > 0 && w1 > 0 && w2 > 0)
}

/// The fragment of pixel `(x, y)`.
pub open spec fn fragment_at(a: ScreenPoint, b: ScreenPoint, c: ScreenPoint, x: int, y: int) -> Fragment {
    let p = pixel_center(x, y);
    Fragment {
        x: x as usize,
        y: y as usize,
        w0: edge_spec(b, c, p) as i64,
        w1: edge_spec(c, a, p) as i64,
        w2: edge_spec(a, b, p) as i64,
    }
}

/// The fragments among the first `k` pixels of the bounding box, taken row by
/// row from its top-left corner.
pub open spec fn fragments_upto(a: ScreenPoint, b: ScreenPoint, c: ScreenPoint, w: int, k: nat) -> Seq<Fragment>
    decreases k,
{
    if k == 0 {
        Seq::empty()
    } else {
        let bw = hi_x(a, b, c, w) - lo_x(a, b, c) + 1;
        let i = k - 1;
        let x = lo_x(a, b, c) + i % bw;
        let y = lo_y(a, b, c) + i / bw;
        let prev = fragments_upto(a, b, c, w, (k - 1) as nat);
        if center_inside(a, b, c, x, y) {
            prev.push(fragment_at(a, b, c, x, y))
        } else {
            prev
        }
    }
}

/// All the fragments of the triangle, row by row, left to right in each row.
pub open spec fn triangle_fragments(a: ScreenPoint, b: ScreenPoint, c: ScreenPoint, w: int, h: int) -> Seq<Fragment> {
    if rasterized(a, b, c, w, h) {
        let bw = hi_x(a, b, c, w) - lo_x(a, b, c) + 1;
        let bh = hi_y(a, b, c, h) - lo_y(a, b, c) + 1;
        fragments_upto(a, b, c, w, (bw * bh) as nat)
    } else {
        Seq::empty()
    }
}

proof fn lemma_fragments_upto_inside(a: ScreenPoint, b: ScreenPoint, c: ScreenPoint, w: int, h: int, k: nat)
    requires
        rasterized(a, b, c, w, h),
        w <= usize::MAX,
        h <= usize::MAX,
        k <= (hi_x(a, b, c, w) - lo_x(a, b, c) + 1) * (hi_y(a, b, c, h) - lo_y(a, b, c) + 1),
    ensures
        forall|j: int|
            0 <= j < fragments_upto(a, b, c, w, k).len() ==> {
                let f = #[trigger] fragments_upto(a, b, c, w, k)[j];
                &&& lo_x(a, b, c) <= f.x <= hi_x(a, b, c, w)
                &&& lo_y(a, b, c) <= f.y <= hi_y(a, b, c, h)
                &&& center_inside(a, b, c, f.x as int, f.y as int)
                &&& f == fragment_at(a, b, c, f.x as int, f.y as int)
            },
    decreases k,
{
    if k > 0 {
        lemma_fragments_upto_inside(a, b, c, w, h, (k - 1) as nat);
        let bw = hi_x(a, b, c, w) - lo_x(a, b, c) + 1;
        let bh = hi_y(a, b, c, h) - lo_y(a, b, c) + 1;
        let i = k - 1;
        assert(0 <= i % bw < bw && 0 <= i / bw < bh) by (nonlinear_arith)
            requires 0 <= i < bw * bh, bw > 0, bh > 0;
        let x = lo_x(a, b, c) + i % bw;
        let y = lo_y(a, b, c) + i / bw;
        let prev = fragments_upto(a, b, c, w, (k - 1) as nat);
        let cur = fragments_upto(a, b, c, w, k);
        assert forall|j: int| 0 <= j < cur.len() implies {
            let f = #[trigger] cur[j];
            &&& lo_x(a, b, c) <= f.x <= hi_x(a, b, c, w)
            &&& lo_y(a, b, c) <= f.y <= hi_y(a, b, c, h)
            &&& center_inside(a, b, c, f.x as int, f.y as int)
            &&& f == fragment_at(a, b, c, f.x as int, f.y as int)
        } by {
            if j < prev.len() {
                assert(cur[j] == prev[j]);
            } else {
                assert(cur[j] == fragment_at(a, b, c, x, y));
                assert(cur[j].x as int == x && cur[j].y as int == y);
            }
        }
    }
}

/// Every fragment of a triangle is a pixel of the image whose center lies
/// strictly inside the triangle, with the edge values at that center.
pub proof fn lemma_fragments_inside(a: ScreenPoint, b: ScreenPoint, c: ScreenPoint, w: int, h: int)
    requires
        0 <= w <= usize::MAX,
        0 <= h <= usize::MAX,
    ensures
        forall|j: int|
            0 <= j < triangle_fragments(a, b, c, w, h).len() ==> {
                let f = #[trigger] triangle_fragments(a, b, c, w, h)[j];
                &&& f.x < w
                &&& f.y < h
                &&& center_inside(a, b, c, f.x as int, f.y as int)
                &&& f == fragment_at(a, b, c, f.x as int, f.y as int)
            },
{
    if rasterized(a, b, c, w, h) {
        let bw = hi_x(a, b, c, w) - lo_x(a, b, c) + 1;
        let bh = hi_y(a, b, c, h) - lo_y(a, b, c) + 1;
        lemma_fragments_upto_inside(a, b, c, w, h, (bw * bh) as nat);
    }
}

/// The edge function of `(a, b, c)`.
pub fn edge(a: ScreenPoint, b: ScreenPoint, c: ScreenPoint) -> (r: i64)
    requires
        a.in_edge_limit(),
        b.in_edge_limit(),
        c.in_edge_limit(),
    ensures
        r == edge_spec(a, b, c),
{
    let p = c.x - a.x;
    let q = b.y - a.y;
    let s = c.y - a.y;
    let t = b.x - a.x;
    proof {
        let l = 2 * EDGE_LIMIT as int;
        assert(-l * l <= p * q <= l * l) by (nonlinear_arith)
            requires -l <= p <= l, -l <= q <= l;
        assert(-l * l <= s * t <= l * l) by (nonlinear_arith)
            requires -l <= s <= l, -l <= t <= l;
    }
    p * q - s * t
}

fn min3_exec(a: i64, b: i64, c: i64) -> (r: i64)
    ensures
        r == min3(a as int, b as int, c as int),
{
    if a <= b && a <= c {
        a
    } else if b <= c {
        b
    } else {
        c
    }
}

fn max3_exec(a: i64, b: i64, c: i64) -> (r: i64)
    ensures
        r == max3(a as int, b as int, c as int),
{
    if a >= b && a >= c {
        a
    } else if b >= c {
        b
    } else {
        c
    }
}

/// The pixel span `[lo, hi]` of the coordinates `m0, m1, m2` clamped to
/// `0 .. size - 1`, or `None` when it is empty or one pixel long.
fn pixel_span(m0: i64, m1: i64, m2: i64, size: usize) -> (r: Option<(i64, i64)>)
    requires
        -COORD_LIMIT <= m0 <= COORD_LIMIT,
        -COORD_LIMIT <= m1 <= COORD_LIMIT,
        -COORD_LIMIT <= m2 <= COORD_LIMIT,
    ensures
        r is Some <==> box_lo(min3(m0 as int, m1 as int, m2 as int)) < box_hi(max3(m0 as int, m1 as int, m2 as int), size as int),
        r matches Some((lo, hi)) ==> lo == box_lo(min3(m0 as int, m1 as int, m2 as int)) && hi == box_hi(
            max3(m0 as int, m1 as int, m2 as int),
            size as int,
        ) && 0 <= lo && hi < size && hi <= COORD_LIMIT / SUBPIXEL + 1,
{
    let lo_m = min3_exec(m0, m1, m2);
    let hi_m = max3_exec(m0, m1, m2);
    let lo: i64 = if lo_m < 0 { 0 } else { lo_m / SUBPIXEL };
    if hi_m <= 0 || size == 0 {
        proof {
            if hi_m <= 0 {
                let v = hi_m + SUBPIXEL - 1;
                assert(v / 256 <= 0) by (nonlinear_arith)
                    requires v <= 255;
            }
        }
        return None;
    }
    let c = (hi_m + SUBPIXEL - 1) / SUBPIXEL;
    let last: u64 = (size - 1) as u64;
    let hi: i64 = if (c as u64) < last { c } else { last as i64 };
    if lo < hi {
        Some((lo, hi))
    } else {
        None
    }
}

/// The pixels whose centers lie strictly inside the triangle `(a, b, c)`, on a
/// `width * height` image, and the triangle's doubled signed area.
/// A triangle of zero area, or whose clamped bounding box is a single pixel
/// wide or high, covers nothing.
pub fn rasterize_triangle(a: ScreenPoint, b: ScreenPoint, c: ScreenPoint, width: usize, height: usize) -> (r: Coverage)
    requires
        a.in_limit(),
        b.in_limit(),
        c.in_limit(),
    ensures
        r.area == edge_spec(a, b, c),
        r.fragments@ == triangle_fragments(a, b, c, width as int, height as int),
{
    let area = edge(a, b, c);
    let mut fragments: Vec<Fragment> = Vec::new();
    let xs = pixel_span(a.x, b.x, c.x, width);
    let ys = pixel_span(a.y, b.y, c.y, height);
    let (x_lo, x_hi) = match xs {
        Some(s) => s,
        None => {
            return Coverage { area, fragments };
        },
    };
    let (y_lo, y_hi) = match ys {
        Some(s) => s,
        None => {
            return Coverage { area, fragments };
        },
    };
    if area == 0 {
        return Coverage { area, fragments };
    }
    let ghost bw = x_hi - x_lo + 1;
    assert((y_lo - y_lo) * bw == 0) by (nonlinear_arith);
    let mut y = y_lo;
    while y <= y_hi
        invariant
            y_lo <= y <= y_hi + 1,
            0 <= x_lo < x_hi,
            0 <= y_lo < y_hi,
            bw == x_hi - x_lo + 1,
            x_lo == lo_x(a, b, c),
            x_hi == hi_x(a, b, c, width as int),
            y_lo == lo_y(a, b, c),
            y_hi == hi_y(a, b, c, height as int),
            x_hi <= COORD_LIMIT / SUBPIXEL + 1,
            y_hi <= COORD_LIMIT / SUBPIXEL + 1,
            a.in_limit(),
            b.in_limit(),
            c.in_limit(),
            fragments@ == fragments_upto(a, b, c, width as int, ((y - y_lo) * bw) as nat),
        decreases y_hi + 1 - y,
    {
        assert((y - y_lo) * bw + (x_lo - x_lo) == (y - y_lo) * bw);
        let mut x = x_lo;
        while x <= x_hi
            invariant
                y_lo <= y <= y_hi,
                x_lo <= x <= x_hi + 1,
                0 <= x_lo < x_hi,
                0 <= y_lo < y_hi,
                bw == x_hi - x_lo + 1,
                x_lo == lo_x(a, b, c),
                x_hi == hi_x(a, b, c, width as int),
                y_lo == lo_y(a, b, c),
                x_hi <= COORD_LIMIT / SUBPIXEL + 1,
                y_hi <= COORD_LIMIT / SUBPIXEL + 1,
                a.in_limit(),
                b.in_limit(),
                c.in_limit(),
                fragments@ == fragments_upto(a, b, c, width as int, ((y - y_lo) * bw + (x - x_lo)) as nat),
            decreases x_hi + 1 - x,
        {
            let p = ScreenPoint { x: x * SUBPIXEL + SUBPIXEL / 2, y: y * SUBPIXEL + SUBPIXEL / 2 };
            let w0 = edge(b, c, p);
            let w1 = edge(c, a, p);
            let w2 = edge(a, b, p);
            proof {
                let k = (y - y_lo) * bw + (x - x_lo);
                assert(k >= 0) by (nonlinear_arith)
                    requires k == (y - y_lo) * bw + (x - x_lo), y >= y_lo, bw > 0, x >= x_lo;
                assert(k % bw == x - x_lo && k / bw == y - y_lo) by (nonlinear_arith)
                    requires k == (y - y_lo) * bw + (x - x_lo), 0 <= x - x_lo < bw, y >= y_lo;
                assert(p == pixel_center(x as int, y as int));
            }
            if (w0 < 0 && w1 < 0 && w2 < 0) || (w0 > 0 && w1 > 0 && w2 > 0) {
                fragments.push(Fragment { x: x as usize, y: y as usize, w0, w1, w2 });
            }
            x = x + 1;
        }
        proof {
            assert((y - y_lo) * bw + bw == (y + 1 - y_lo) * bw) by (nonlinear_arith);
        }
        y = y + 1;
    }
    proof {
        assert(rasterized(a, b, c, width as int, height as int));
        let bh = y_hi - y_lo + 1;
        assert((y - y_lo) * bw == bw * bh) by (nonlinear_arith)
            requires y == y_hi + 1, bh == y_hi - y_lo + 1;
    }
    Coverage { area, fragments }
}

} // verus!

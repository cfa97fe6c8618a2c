use vstd::prelude::*;
use crate::color::{Rgb8, blue_of, green_of, pack_spec, red_of, sat_add};
use crate::sky::{Sky, sky_image, star_spec, STAR_SEED};

verus! {

/// The depth that every cell of the depth buffer holds at the start of a frame:
/// farther than any fragment.
pub const DEPTH_CLEAR: u32 = 0xFFFF_FFFF;

/// `buf` with pixel `(x, y)` of a `w`-wide, `h`-high image set to `c`; `buf`
/// itself when the pixel lies outside the image.
pub open spec fn put_pixel(buf: Seq<u32>, w: int, h: int, x: int, y: int, c: u32) -> Seq<u32> {
    if 0 <= x < w && 0 <= y < h {
        buf.update(y * w + x, c)
    } else {
        buf
    }
}

/// `buf` with each pixel of `pts` that lies inside the image set to `c`.
pub open spec fn put_pixels(buf: Seq<u32>, w: int, h: int, pts: Seq<(int, int)>, c: u32) -> Seq<u32>
    decreases pts.len(),
{
    if pts.len() == 0 {
        buf
    } else {
        put_pixel(put_pixels(buf, w, h, pts.drop_last(), c), w, h, pts.last().0, pts.last().1, c)
    }
}

/// One step of Bresenham's walk: the error term `err` decides whether `x`
/// moves by `sx`, `y` by `sy`, or both.
pub open spec fn bresenham_next(x: int, y: int, err: int, dx: int, dy: int, sx: int, sy: int) -> (int, int, int) {
    let e2 = 2 * err;
    let (x2, err2) = if e2 >= dy { (x + sx, err + dy) } else { (x, err) };
    let (y3, err3) = if e2 <= dx { (y + sy, err2 + dx) } else { (y, err2) };
    (x2, y3, err3)
}

/// The points Bresenham's walk visits from `(x, y)` towards `(x1, y1)`, for at
/// most `fuel` further steps; the walk stops on reaching `(x1, y1)`.
pub open spec fn bresenham_walk(
    x: int,
    y: int,
    err: int,
    x1: int,
    y1: int,
    dx: int,
    dy: int,
    sx: int,
    sy: int,
    fuel: nat,
) -> Seq<(int, int)>
    decreases fuel,
{
    if (x == x1 && y == y1) || fuel == 0 {
        seq![(x, y)]
    } else {
        let (nx, ny, nerr) = bresenham_next(x, y, err, dx, dy, sx, sy);
        seq![(x, y)] + bresenham_walk(nx, ny, nerr, x1, y1, dx, dy, sx, sy, (fuel - 1) as nat)
    }
}

/// The absolute value of `v`.
pub open spec fn abs_int(v: int) -> int {
    if v < 0 {
        -v
    } else {
        v
    }
}

/// The unit step that leads from `a` towards `b` (`-1` when they are equal).
pub open spec fn step_toward(a: int, b: int) -> int {
    if a < b {
        1
    } else {
        -1
    }
}

/// The pixels of the integer line from `(x0, y0)` to `(x1, y1)`, in drawing order.
pub open spec fn line_points(x0: int, y0: int, x1: int, y1: int) -> Seq<(int, int)> {
    let dx = abs_int(x1 - x0);
    let dy = -abs_int(y1 - y0);
    bresenham_walk(x0, y0, dx + dy, x1, y1, dx, dy, step_toward(x0, x1), step_toward(y0, y1), (dx - dy) as nat)
}

proof fn lemma_walk_reaches_end(
    x0: int,
    y0: int,
    x: int,
    y: int,
    err: int,
    x1: int,
    y1: int,
    dx: int,
    dy: int,
    sx: int,
    sy: int,
    u: int,
    v: int,
    fuel: nat,
)
    requires
        dx == abs_int(x1 - x0),
        dy == -abs_int(y1 - y0),
        sx == step_toward(x0, x1),
        sy == step_toward(y0, y1),
        0 <= u <= dx,
        0 <= v <= -dy,
        x == (if sx == 1 { x0 + u } else { x0 - u }),
        y == (if sy == 1 { y0 + v } else { y0 - v }),
        err == dx + dy + u * dy + v * dx,
        fuel >= (dx - u) + (-dy - v),
    ensures
        bresenham_walk(x, y, err, x1, y1, dx, dy, sx, sy, fuel).last() == (x1, y1),
    decreases fuel,
{
    if x == x1 && y == y1 {
    } else if fuel == 0 {
        assert(u == dx && v == -dy);
    } else {
        let e2 = 2 * err;
        if u == dx && v < -dy {
            assert(err <= dy) by (nonlinear_arith)
                requires err == dx + dy + u * dy + v * dx, u == dx, v <= -dy - 1, dx >= 0, dy <= 0;
        }
        if v == -dy && u < dx {
            assert(err >= dx) by (nonlinear_arith)
                requires err == dx + dy + u * dy + v * dx, v == -dy, u <= dx - 1, dx >= 0, dy <= 0;
        }
        let nu = if e2 >= dy { u + 1 } else { u };
        let nv = if e2 <= dx { v + 1 } else { v };
        let (nx, ny, nerr) = bresenham_next(x, y, err, dx, dy, sx, sy);
        assert(nerr == dx + dy + nu * dy + nv * dx) by (nonlinear_arith)
            requires
                err == dx + dy + u * dy + v * dx,
                nu == u || nu == u + 1,
                nv == v || nv == v + 1,
                nerr == err + (if nu == u + 1 { dy } else { 0 }) + (if nv == v + 1 { dx } else { 0 });
        let rest = bresenham_walk(nx, ny, nerr, x1, y1, dx, dy, sx, sy, (fuel - 1) as nat);
        lemma_walk_reaches_end(x0, y0, nx, ny, nerr, x1, y1, dx, dy, sx, sy, nu, nv, (fuel - 1) as nat);
        assert((seq![(x, y)] + rest).last() == rest.last());
    }
}

/// The line starts at its first end point and stops at its second.
pub proof fn lemma_line_endpoints(x0: int, y0: int, x1: int, y1: int)
    ensures
        line_points(x0, y0, x1, y1).len() >= 1,
        line_points(x0, y0, x1, y1)[0] == (x0, y0),
        line_points(x0, y0, x1, y1).last() == (x1, y1),
{
    let dx = abs_int(x1 - x0);
    let dy = -abs_int(y1 - y0);
    assert(dx + dy == dx + dy + 0 * dy + 0 * dx);
    lemma_walk_reaches_end(x0, y0, x0, y0, dx + dy, x1, y1, dx, dy, step_toward(x0, x1), step_toward(y0, y1), 0, 0,
        (dx - dy) as nat);
}

proof fn lemma_horizontal_walk(x: int, y: int, x1: int, dx: int, fuel: nat)
    requires
        x <= x1,
        dx >= x1 - x,
        dx > 0,
        fuel >= x1 - x,
    ensures
        bresenham_walk(x, y, dx, x1, y, dx, 0, 1, -1, fuel) =~= Seq::new((x1 - x + 1) as nat, |i: int| (x + i, y)),
    decreases fuel,
{
    if x < x1 {
        lemma_horizontal_walk(x + 1, y, x1, dx, (fuel - 1) as nat);
    }
}

/// A horizontal line from left to right is the run of pixels `(x0, y)` to
/// `(x1, y)`, one per column, in order.
pub proof fn lemma_horizontal_line(x0: int, x1: int, y: int)
    requires
        x0 <= x1,
    ensures
        line_points(x0, y, x1, y) =~= Seq::new((x1 - x0 + 1) as nat, |i: int| (x0 + i, y)),
{
    if x0 < x1 {
        lemma_horizontal_walk(x0, y, x1, x1 - x0, (x1 - x0) as nat);
    }
}

/// The color and depth buffers after a fragment of depth `d` and color `c`
/// meets the depth test at pixel `(x, y)`: it is written where it lies inside
/// the image and is strictly nearer than what the depth buffer holds there.
pub open spec fn depth_write(
    color: Seq<u32>,
    depth: Seq<u32>,
    w: int,
    h: int,
    x: int,
    y: int,
    d: u32,
    c: u32,
) -> (Seq<u32>, Seq<u32>) {
    if 0 <= x < w && 0 <= y < h && d < depth[y * w + x] {
        (color.update(y * w + x, c), depth.update(y * w + x, d))
    } else {
        (color, depth)
    }
}

/// Of two fragments at one pixel, the nearer one is what the buffers hold
/// afterwards, whichever of the two is drawn first, as long as the nearer one
/// passes the depth test against the buffers as they were.
pub proof fn lemma_nearer_fragment_wins(
    color: Seq<u32>,
    depth: Seq<u32>,
    w: int,
    h: int,
    x: int,
    y: int,
    near: u32,
    near_color: u32,
    far: u32,
    far_color: u32,
)
    requires
        color.len() == w * h,
        depth.len() == w * h,
        0 <= x < w,
        0 <= y < h,
        near < far,
        near < depth[y * w + x],
    ensures
        ({
            let (c1, d1) = depth_write(color, depth, w, h, x, y, near, near_color);
            let (c2, d2) = depth_write(color, depth, w, h, x, y, far, far_color);
            let near_first = depth_write(c1, d1, w, h, x, y, far, far_color);
            let far_first = depth_write(c2, d2, w, h, x, y, near, near_color);
            &&& near_first == far_first
            &&& near_first.0[y * w + x] == near_color
            &&& near_first.1[y * w + x] == near
        }),
{
    assert(0 <= y * w + x < w * h) by (nonlinear_arith)
        requires 0 <= x < w, 0 <= y < h;
    let i = y * w + x;
    let (c1, d1) = depth_write(color, depth, w, h, x, y, near, near_color);
    let (c2, d2) = depth_write(color, depth, w, h, x, y, far, far_color);
    if far < depth[i] {
        assert(depth_write(c2, d2, w, h, x, y, near, near_color).0 =~= c1);
        assert(depth_write(c2, d2, w, h, x, y, near, near_color).1 =~= d1);
    }
}

/// The packed color `base` brightened channel by channel by `overlay`, each
/// channel saturating at 255.
pub open spec fn blend_packed(base: u32, overlay: u32) -> u32 {
    pack_spec(
        sat_add(red_of(base), red_of(overlay)),
        sat_add(green_of(base), green_of(overlay)),
        sat_add(blue_of(base), blue_of(overlay)),
    )
}

/// The first row of the horizontal band across the middle of an image `h`
/// rows high: the band has `h / 10` rows on each side of row `h / 2`.
pub open spec fn band_start(h: int) -> int {
    h / 2 - h / 10
}

/// The row just past the band.
pub open spec fn band_end(h: int) -> int {
    h / 2 + h / 10
}

/// A fragment to be depth-tested at pixel `(x, y)`.
#[derive(Clone, Copy, Debug, PartialEq, Eq, Structural)]
pub struct DepthFragment {
    pub x: usize,
    pub y: usize,
    pub depth: u32,
    pub color: u32,
}

/// The color and depth buffers after each of `frags` meets the depth test in turn.
pub open spec fn depth_write_all(
    color: Seq<u32>,
    depth: Seq<u32>,
    w: int,
    h: int,
    frags: Seq<DepthFragment>,
) -> (Seq<u32>, Seq<u32>)
    decreases frags.len(),
{
    if frags.len() == 0 {
        (color, depth)
    } else {
        let (c, d) = depth_write_all(color, depth, w, h, frags.drop_last());
        let f = frags.last();
        depth_write(c, d, w, h, f.x as int, f.y as int, f.depth, f.color)
    }
}

proof fn lemma_pixel_index_injective(w: int, x1: int, y1: int, x2: int, y2: int)
    requires
        0 <= x1 < w,
        0 <= x2 < w,
        0 <= y1,
        0 <= y2,
        y1 * w + x1 == y2 * w + x2,
    ensures
        x1 == x2 && y1 == y2,
{
    if y1 < y2 {
        assert(y1 * w + x1 < y2 * w + x2) by (nonlinear_arith)
            requires 0 <= x1 < w, 0 <= x2, y1 < y2;
    } else if y2 < y1 {
        assert(y2 * w + x2 < y1 * w + x1) by (nonlinear_arith)
            requires 0 <= x2 < w, 0 <= x1, y2 < y1;
    }
}

proof fn lemma_write_all_len(color: Seq<u32>, depth: Seq<u32>, w: int, h: int, frags: Seq<DepthFragment>)
    requires
        color.len() == w * h,
        depth.len() == w * h,
    ensures
        depth_write_all(color, depth, w, h, frags).0.len() == w * h,
        depth_write_all(color, depth, w, h, frags).1.len() == w * h,
    decreases frags.len(),
{
    if frags.len() > 0 {
        lemma_write_all_len(color, depth, w, h, frags.drop_last());
        let (c, d) = depth_write_all(color, depth, w, h, frags.drop_last());
        let f = frags.last();
        lemma_depth_write_monotone(c, d, w, h, f.x as int, f.y as int, f.depth, f.color);
    }
}

/// The depth at a pixel stays above `bound` while the buffer and every
/// fragment at that pixel are above it.
proof fn lemma_write_all_depth_above(
    color: Seq<u32>,
    depth: Seq<u32>,
    w: int,
    h: int,
    frags: Seq<DepthFragment>,
    x: int,
    y: int,
    bound: u32,
)
    requires
        color.len() == w * h,
        depth.len() == w * h,
        0 <= x < w,
        0 <= y < h,
        depth[y * w + x] > bound,
        forall|j: int| 0 <= j < frags.len() && frags[j].x == x && frags[j].y == y ==> #[trigger] frags[j].depth > bound,
    ensures
        depth_write_all(color, depth, w, h, frags).1[y * w + x] > bound,
    decreases frags.len(),
{
    if frags.len() > 0 {
        let pre = frags.drop_last();
        assert forall|j: int| 0 <= j < pre.len() && pre[j].x == x && pre[j].y == y implies #[trigger] pre[j].depth > bound by {
            assert(pre[j] == frags[j]);
        }
        lemma_write_all_depth_above(color, depth, w, h, pre, x, y, bound);
        lemma_write_all_len(color, depth, w, h, pre);
        let (c, d) = depth_write_all(color, depth, w, h, pre);
        let f = frags.last();
        assert(depth_write_all(color, depth, w, h, frags) == depth_write(c, d, w, h, f.x as int, f.y as int, f.depth,
            f.color));
        assert(0 <= y * w + x < w * h) by (nonlinear_arith)
            requires 0 <= x < w, 0 <= y < h;
        let q = f.y * w + f.x;
        if 0 <= f.x < w && 0 <= f.y < h && f.depth < d[q] {
            assert(0 <= q < w * h) by (nonlinear_arith)
                requires 0 <= f.x < w, 0 <= f.y < h, q == f.y * w + f.x;
            if q == y * w + x {
                lemma_pixel_index_injective(w, f.x as int, f.y as int, x, y);
                assert(frags[frags.len() - 1] == f);
                assert(f.depth > bound);
            } else {
                assert(d.update(q, f.depth)[y * w + x] == d[y * w + x]);
            }
        }
    }
}

/// Among fragments drawn in any order, one that is strictly nearer than
/// every other fragment at its pixel, and than what the depth buffer held
/// there, is what that pixel shows in the end.
pub proof fn lemma_nearest_fragment_shown(
    color: Seq<u32>,
    depth: Seq<u32>,
    w: int,
    h: int,
    frags: Seq<DepthFragment>,
    i: int,
)
    requires
        color.len() == w * h,
        depth.len() == w * h,
        0 <= i < frags.len(),
        frags[i].x < w,
        frags[i].y < h,
        frags[i].depth < depth[frags[i].y * w + frags[i].x],
        forall|j: int|
            0 <= j < frags.len() && j != i && frags[j].x == frags[i].x && frags[j].y == frags[i].y
                ==> #[trigger] frags[j].depth > frags[i].depth,
    ensures
        depth_write_all(color, depth, w, h, frags).0[frags[i].y * w + frags[i].x] == frags[i].color,
        depth_write_all(color, depth, w, h, frags).1[frags[i].y * w + frags[i].x] == frags[i].depth,
    decreases frags.len(),
{
    let fi = frags[i];
    let (x, y) = (fi.x as int, fi.y as int);
    let p = y * w + x;
    assert(0 <= p < w * h) by (nonlinear_arith)
        requires 0 <= x < w, 0 <= y < h, p == y * w + x;
    let pre = frags.drop_last();
    lemma_write_all_len(color, depth, w, h, pre);
    let (c, d) = depth_write_all(color, depth, w, h, pre);
    let f = frags.last();
    assert(depth_write_all(color, depth, w, h, frags) == depth_write(c, d, w, h, f.x as int, f.y as int, f.depth,
        f.color));
    if i == frags.len() - 1 {
        assert forall|j: int| 0 <= j < pre.len() && pre[j].x == x && pre[j].y == y implies #[trigger] pre[j].depth > fi.depth by {
            assert(pre[j] == frags[j]);
        }
        lemma_write_all_depth_above(color, depth, w, h, pre, x, y, fi.depth);
        assert(f == fi);
        assert(d[p] > fi.depth);
    } else {
        assert(pre[i] == fi);
        assert forall|j: int|
            0 <= j < pre.len() && j != i && pre[j].x == pre[i].x && pre[j].y == pre[i].y implies #[trigger] pre[j].depth
                > pre[i].depth by {
            assert(pre[j] == frags[j]);
        }
        lemma_nearest_fragment_shown(color, depth, w, h, pre, i);
        assert(frags[frags.len() - 1] == f);
        let q = f.y * w + f.x;
        if 0 <= f.x < w && 0 <= f.y < h && f.depth < d[q] {
            assert(0 <= q < w * h) by (nonlinear_arith)
                requires 0 <= f.x < w, 0 <= f.y < h, q == f.y * w + f.x;
            if q == p {
                lemma_pixel_index_injective(w, f.x as int, f.y as int, x, y);
                assert(frags[frags.len() - 1].depth > fi.depth);
            } else {
                assert(d.update(q, f.depth)[p] == d[p]);
                assert(c.update(q, f.color)[p] == c[p]);
            }
        }
    }
}

/// A fragment never makes any cell of the depth buffer farther, and changes at
/// most the cell of its own pixel.
pub proof fn lemma_depth_write_monotone(
    color: Seq<u32>,
    depth: Seq<u32>,
    w: int,
    h: int,
    x: int,
    y: int,
    d: u32,
    c: u32,
)
    requires
        color.len() == w * h,
        depth.len() == w * h,
    ensures
        ({
            let (c2, d2) = depth_write(color, depth, w, h, x, y, d, c);
            &&& c2.len() == color.len()
            &&& d2.len() == depth.len()
            &&& forall|i: int| 0 <= i < depth.len() ==> #[trigger] d2[i] <= depth[i]
            &&& forall|i: int| 0 <= i < depth.len() && i != y * w + x ==> #[trigger] d2[i] == depth[i] && c2[i] == color[i]
        }),
{
    if 0 <= x < w && 0 <= y < h {
        assert(0 <= y * w + x < w * h) by (nonlinear_arith)
            requires 0 <= x < w, 0 <= y < h;
    }
}

/// A color buffer and a depth buffer of `width * height` pixels, row-major,
/// and the star field painted under each frame.
pub struct Renderer {
    pub width: usize,
    pub height: usize,
    pub color: Vec<u32>,
    pub depth: Vec<u32>,
    pub sky: Sky,
}

impl Renderer {
    /// Both buffers hold one cell per pixel, and the star field has the buffers' size.
    pub open spec fn wf(&self) -> bool {
        &&& self.color@.len() == self.width * self.height
        &&& self.depth@.len() == self.width * self.height
        &&& self.sky.width == self.width
        &&& self.sky.height == self.height
    }

    /// Buffers of `width * height` pixels, color all 0 (black) and depth all
    /// `DEPTH_CLEAR`, with a field of `star_count` stars.
    pub fn new(width: usize, height: usize, star_count: usize) -> (r: Renderer)
        requires
            width * height <= usize::MAX,
        ensures
            r.wf(),
            r.width == width,
            r.height == height,
            forall|i: int| 0 <= i < width * height ==> r.color@[i] == 0 && r.depth@[i] == DEPTH_CLEAR,
            r.sky.stars@.len() == star_count,
            forall|k: int| 0 <= k < star_count ==> #[trigger] r.sky.stars@[k] == star_spec(STAR_SEED, k, width, height),
    {
        let n = width * height;
        let mut color: Vec<u32> = Vec::new();
        let mut depth: Vec<u32> = Vec::new();
        let mut i: usize = 0;
        while i < n
            invariant
                i <= n,
                color@.len() == i,
                depth@.len() == i,
                forall|j: int| 0 <= j < i ==> color@[j] == 0 && depth@[j] == DEPTH_CLEAR,
            decreases n - i,
        {
            color.push(0);
            depth.push(DEPTH_CLEAR);
            i = i + 1;
        }
        let sky = Sky::new(width, height, star_count);
        Renderer { width, height, color, depth, sky }
    }

    /// Starts a frame: every depth cell is reset to `DEPTH_CLEAR`, and the color
    /// buffer is repainted with row `y` in `rows[y]` and then each star of the
    /// field in its color from `star_colors`.
    pub fn begin_frame(&mut self, rows: &Vec<u32>, star_colors: &Vec<u32>)
        requires
            old(self).wf(),
            rows@.len() == old(self).height,
            star_colors@.len() == old(self).sky.stars@.len(),
        ensures
            final(self).wf(),
            final(self).width == old(self).width,
            final(self).height == old(self).height,
            final(self).sky == old(self).sky,
            forall|i: int| 0 <= i < final(self).depth@.len() ==> final(self).depth@[i] == DEPTH_CLEAR,
            final(self).color@ == sky_image(
                rows@,
                old(self).width as int,
                old(self).height as int,
                old(self).sky.stars@,
                star_colors@,
                old(self).sky.stars@.len(),
            ),
    {
        self.clear_depth();
        self.sky.paint(&mut self.color, rows, star_colors);
        proof {
            crate::sky::lemma_sky_image_len(
                rows@,
                self.width as int,
                self.height as int,
                self.sky.stars@,
                star_colors@,
                self.sky.stars@.len(),
            );
        }
    }

    /// Brightens the band of rows `band_start(height) .. band_end(height)`:
    /// each pixel of the band's row `i` is blended additively with `overlays[i]`.
    pub fn draw_ecliptic_band(&mut self, overlays: &Vec<u32>)
        requires
            old(self).wf(),
            overlays@.len() == band_end(old(self).height as int) - band_start(old(self).height as int),
        ensures
            final(self).wf(),
            final(self).width == old(self).width,
            final(self).height == old(self).height,
            final(self).sky == old(self).sky,
            final(self).depth@ == old(self).depth@,
            final(self).color@.len() == old(self).color@.len(),
            forall|i: int|
                0 <= i < final(self).color@.len() ==> #[trigger] final(self).color@[i] == {
                    let row = i / old(self).width as int;
                    if band_start(old(self).height as int) <= row < band_end(old(self).height as int) {
                        blend_packed(old(self).color@[i], overlays@[row - band_start(old(self).height as int)])
                    } else {
                        old(self).color@[i]
                    }
                },
    {
        let w = self.width;
        let h = self.height;
        let len = self.color.len();
        let band = h / 10;
        let center = h / 2;
        let start = center - band;
        let end = center + band;
        assert(len > 0 ==> w > 0) by (nonlinear_arith)
            requires len == w * h;
        let mut y: usize = start;
        while y < end
            invariant
                start <= y <= end,
                start == band_start(h as int),
                end == band_end(h as int),
                end <= h,
                w == self.width,
                h == self.height,
                len == w * h,
                len > 0 ==> w > 0,
                overlays@.len() == end - start,
                self.wf(),
                self.sky == old(self).sky,
                self.depth@ == old(self).depth@,
                self.color@.len() == old(self).color@.len(),
                self.width == old(self).width,
                self.height == old(self).height,
                forall|i: int|
                    0 <= i < self.color@.len() ==> #[trigger] self.color@[i] == {
                        let row = i / w as int;
                        if start <= row < y {
                            blend_packed(old(self).color@[i], overlays@[row - start])
                        } else {
                            old(self).color@[i]
                        }
                    },
            decreases end - y,
        {
            let overlay = Rgb8::from_u32(overlays[y - start]);
            proof {
                assert forall|i: int| 0 <= i < self.color@.len() implies !(i / w as int == y && #[trigger] (i % (w as int)) < 0) by {
                    if w > 0 {
                        vstd::arithmetic::div_mod::lemma_mod_pos_bound(i, w as int);
                    }
                }
            }
            let mut x: usize = 0;
            while x < w
                invariant
                    start <= y < end,
                    x <= w,
                    end <= h,
                    w == self.width,
                    h == self.height,
                    len == w * h,
                    len > 0 ==> w > 0,
                    overlays@.len() == end - start,
                    overlay.r == red_of(overlays@[y - start]),
                    overlay.g == green_of(overlays@[y - start]),
                    overlay.b == blue_of(overlays@[y - start]),
                    self.wf(),
                    self.sky == old(self).sky,
                    self.depth@ == old(self).depth@,
                    self.color@.len() == old(self).color@.len(),
                    self.width == old(self).width,
                    self.height == old(self).height,
                    forall|i: int|
                        0 <= i < self.color@.len() ==> #[trigger] self.color@[i] == {
                            let row = i / w as int;
                            if start <= row < y || (row == y && (i % (w as int)) < x) {
                                blend_packed(old(self).color@[i], overlays@[row - start])
                            } else {
                                old(self).color@[i]
                            }
                        },
                decreases w - x,
            {
                proof {
                    assert(y * w + x < w * h) by (nonlinear_arith)
                        requires x < w, y < h;
                    assert((y * w + x) / (w as int) == y && (y * w + x) % (w as int) == x) by (nonlinear_arith)
                        requires x < w;
                }
                let idx = y * w + x;
                let base = Rgb8::from_u32(self.color[idx]);
                let blended = base.blend_additive(overlay).to_u32();
                self.color.set(idx, blended);
                proof {
                    assert forall|i: int| 0 <= i < self.color@.len() && i != idx && i / w as int == y && #[trigger] (i % (w
                        as int)) == x implies false by {
                        vstd::arithmetic::div_mod::lemma_fundamental_div_mod(i, w as int);
                        assert((w as int) * (y as int) == (y as int) * (w as int)) by (nonlinear_arith);
                    }
                }
                x = x + 1;
            }
            proof {
                assert forall|i: int| 0 <= i < self.color@.len() && i / w as int == y implies #[trigger] (i % (w as int)) < w by {
                    vstd::arithmetic::div_mod::lemma_mod_pos_bound(i, w as int);
                }
            }
            y = y + 1;
        }
    }

    /// Sets every cell of the depth buffer to `DEPTH_CLEAR`.
    pub fn clear_depth(&mut self)
        requires
            old(self).wf(),
        ensures
            final(self).wf(),
            final(self).width == old(self).width,
            final(self).height == old(self).height,
            final(self).color@ == old(self).color@,
            final(self).sky == old(self).sky,
            forall|i: int| 0 <= i < final(self).depth@.len() ==> final(self).depth@[i] == DEPTH_CLEAR,
    {
        let n = self.depth.len();
        let mut i: usize = 0;
        while i < n
            invariant
                i <= n,
                n == self.depth@.len(),
                self.wf(),
                self.width == old(self).width,
                self.height == old(self).height,
                self.color@ == old(self).color@,
                self.sky == old(self).sky,
                forall|j: int| 0 <= j < i ==> self.depth@[j] == DEPTH_CLEAR,
            decreases n - i,
        {
            self.depth.set(i, DEPTH_CLEAR);
            i = i + 1;
        }
    }

    /// Depth-tests and writes each of `frags` in turn.
    pub fn write_fragments(&mut self, frags: &Vec<DepthFragment>)
        requires
            old(self).wf(),
        ensures
            final(self).wf(),
            final(self).width == old(self).width,
            final(self).height == old(self).height,
            final(self).sky == old(self).sky,
            (final(self).color@, final(self).depth@) == depth_write_all(
                old(self).color@,
                old(self).depth@,
                old(self).width as int,
                old(self).height as int,
                frags@,
            ),
    {
        let mut k: usize = 0;
        while k < frags.len()
            invariant
                k <= frags@.len(),
                self.wf(),
                self.width == old(self).width,
                self.height == old(self).height,
                self.sky == old(self).sky,
                (self.color@, self.depth@) == depth_write_all(
                    old(self).color@,
                    old(self).depth@,
                    old(self).width as int,
                    old(self).height as int,
                    frags@.subrange(0, k as int),
                ),
            decreases frags@.len() - k,
        {
            let f = frags[k];
            self.write_fragment(f.x, f.y, f.depth, f.color);
            proof {
                let next = frags@.subrange(0, k as int + 1);
                assert(next.drop_last() =~= frags@.subrange(0, k as int));
                assert(next.last() == f);
            }
            k = k + 1;
        }
        proof {
            assert(frags@.subrange(0, k as int) =~= frags@);
        }
    }

    /// Writes a fragment of depth `depth` and color `color` at pixel `(x, y)`
    /// when it lies inside the buffer and is strictly nearer than the depth
    /// stored there; returns whether it was written.
    pub fn write_fragment(&mut self, x: usize, y: usize, depth: u32, color: u32) -> (written: bool)
        requires
            old(self).wf(),
        ensures
            final(self).wf(),
            final(self).width == old(self).width,
            final(self).height == old(self).height,
            final(self).sky == old(self).sky,
            (final(self).color@, final(self).depth@) == depth_write(
                old(self).color@,
                old(self).depth@,
                old(self).width as int,
                old(self).height as int,
                x as int,
                y as int,
                depth,
                color,
            ),
            written == (x < old(self).width && y < old(self).height && depth < old(self).depth@[y * old(self).width + x]),
    {
        if x >= self.width || y >= self.height {
            return false;
        }
        let len = self.depth.len();
        proof {
            assert(y * self.width + x < self.width * self.height) by (nonlinear_arith)
                requires
                    x < self.width,
                    y < self.height,
            ;
        }
        let idx = y * self.width + x;
        if depth >= self.depth[idx] {
            return false;
        }
        self.depth.set(idx, depth);
        self.color.set(idx, color);
        true
    }

    /// Draws the line from `(x0, y0)` to `(x1, y1)` with Bresenham's algorithm,
    /// writing `color` to each pixel of it that lies inside the buffer, with no
    /// depth test.
    pub fn draw_line(&mut self, x0: i32, y0: i32, x1: i32, y1: i32, color: u32)
        requires
            old(self).wf(),
        ensures
            final(self).wf(),
            final(self).width == old(self).width,
            final(self).height == old(self).height,
            final(self).depth@ == old(self).depth@,
            final(self).color@ == put_pixels(
                old(self).color@,
                old(self).width as int,
                old(self).height as int,
                line_points(x0 as int, y0 as int, x1 as int, y1 as int),
                color,
            ),
    {
        let ex = x1 as i64;
        let ey = y1 as i64;
        let mut x = x0 as i64;
        let mut y = y0 as i64;
        let dx: i64 = if ex >= x { ex - x } else { x - ex };
        let dy: i64 = if ey >= y { y - ey } else { ey - y };
        let sx: i64 = if x < ex { 1 } else { -1 };
        let sy: i64 = if y < ey { 1 } else { -1 };
        let mut err: i64 = dx + dy;
        let ghost w = self.width as int;
        let ghost h = self.height as int;
        let ghost all = line_points(x0 as int, y0 as int, x1 as int, y1 as int);
        let ghost start = self.color@;
        let mut fuel: u64 = (dx - dy) as u64;
        let ghost total = fuel as int;
        let ghost drawn: Seq<(int, int)> = Seq::empty();
        loop
            invariant_except_break
                drawn + bresenham_walk(x as int, y as int, err as int, x1 as int, y1 as int, dx as int, dy as int,
                    sx as int, sy as int, fuel as nat) == all,
            invariant
                self.wf(),
                self.width == w,
                self.height == h,
                self.depth@ == old(self).depth@,
                start == old(self).color@,
                ex == x1,
                ey == y1,
                0 <= dx <= 0x1_0000_0000,
                -0x1_0000_0000 <= dy <= 0,
                sx == step_toward(x0 as int, x1 as int),
                sy == step_toward(y0 as int, y1 as int),
                dx == abs_int(x1 - x0),
                dy == -abs_int(y1 - y0),
                3 * dy <= 2 * err <= 3 * dx,
                total == dx - dy,
                fuel <= total,
                abs_int(x - x0) <= total - fuel,
                abs_int(y - y0) <= total - fuel,
                self.color@ == put_pixels(start, w, h, drawn, color),
            ensures
                drawn == all,
            decreases fuel,
        {
            let ghost rest = bresenham_walk(x as int, y as int, err as int, x1 as int, y1 as int, dx as int,
                dy as int, sx as int, sy as int, fuel as nat);
            if x >= 0 && y >= 0 && (x as u64) < (self.width as u64) && (y as u64) < (self.height as u64) {
                let len = self.color.len();
                let xu = x as usize;
                let yu = y as usize;
                proof {
                    assert(yu * self.width + xu < self.width * self.height) by (nonlinear_arith)
                        requires
                            xu < self.width,
                            yu < self.height,
                    ;
                }
                self.color.set(yu * self.width + xu, color);
            }
            proof {
                let d2 = drawn.push((x as int, y as int));
                assert(d2.drop_last() == drawn);
                drawn = d2;
            }
            if (x == ex && y == ey) || fuel == 0 {
                proof {
                    assert(rest == seq![(x as int, y as int)]);
                    assert(drawn == all);
                }
                break;
            }
            let e2 = 2 * err;
            if e2 >= dy {
                err = err + dy;
                x = x + sx;
            }
            if e2 <= dx {
                err = err + dx;
                y = y + sy;
            }
            fuel = fuel - 1;
            proof {
                assert(rest == seq![rest[0]] + bresenham_walk(x as int, y as int, err as int, x1 as int,
                    y1 as int, dx as int, dy as int, sx as int, sy as int, fuel as nat));
                assert(drawn + bresenham_walk(x as int, y as int, err as int, x1 as int, y1 as int, dx as int,
                    dy as int, sx as int, sy as int, fuel as nat) =~= all);
            }
        }
    }
}

} // verus!

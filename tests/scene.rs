use softraster::coverage::{rasterize_triangle, ScreenPoint, SUBPIXEL};
use softraster::mesh::Mesh;
use softraster::raster::{Renderer, DEPTH_CLEAR};

const SIZE: usize = 100;

fn sphere_points(segments: usize, rings: usize) -> Vec<[f32; 3]> {
    let mut points = Vec::new();
    for y in 0..=rings {
        let theta = y as f32 / rings as f32 * std::f32::consts::PI;
        for x in 0..=segments {
            let phi = x as f32 / segments as f32 * std::f32::consts::TAU;
            points.push([phi.cos() * theta.sin(), theta.cos(), phi.sin() * theta.sin()]);
        }
    }
    points
}

/// Camera at (0, 0, -5) looking at the origin, 60 degree vertical field of
/// view, near 0.1, far 100: screen position and normalized depth.
fn project(p: [f32; 3]) -> Option<(f32, f32, f32, f32)> {
    let f = 1.0 / (std::f32::consts::PI / 6.0).tan();
    let (near, far) = (0.1f32, 100.0f32);
    let xv = -p[0];
    let yv = p[1];
    let zv = -(p[2] + 5.0);
    let cx = f * xv;
    let cy = f * yv;
    let cz = (far + near) / (near - far) * zv + 2.0 * far * near / (near - far);
    let cw = -zv;
    if cw.abs() < 0.001 {
        return None;
    }
    let inv_w = 1.0 / cw;
    let (nx, ny, nz) = (cx * inv_w, cy * inv_w, cz * inv_w);
    if !(-1.0..=1.0).contains(&nz) {
        return None;
    }
    let sx = (nx * 0.5 + 0.5) * (SIZE as f32 - 1.0);
    let sy = (1.0 - (ny * 0.5 + 0.5)) * (SIZE as f32 - 1.0);
    Some((sx, sy, nz, inv_w))
}

fn depth_key(depth: f32) -> u32 {
    let bits = depth.to_bits();
    if bits & 0x8000_0000 != 0 {
        !bits
    } else {
        bits | 0x8000_0000
    }
}

fn fixed(x: f32) -> i64 {
    (x * SUBPIXEL as f32).round() as i64
}

/// Pixel centers that fall exactly on an edge shared by two triangles belong
/// to neither, so the sphere's central row and column may stay open: those are
/// the holes allowed inside the disc.
#[test]
fn unit_sphere_silhouette_is_a_centered_disc() {
    let topology = Mesh::uv_sphere(28, 18);
    let points = sphere_points(28, 18);
    assert_eq!(points.len(), topology.vertex_count);
    let projected: Vec<_> = points.iter().map(|&p| project(p)).collect();
    let mut r = Renderer::new(SIZE, SIZE, 0);
    let camera = [0.0f32, 0.0, -5.0];
    for t in &topology.indices {
        let (Some(a), Some(b), Some(c)) = (projected[t[0]], projected[t[1]], projected[t[2]]) else {
            continue;
        };
        let (p0, p1, p2) = (points[t[0]], points[t[1]], points[t[2]]);
        let e1 = [p1[0] - p0[0], p1[1] - p0[1], p1[2] - p0[2]];
        let e2 = [p2[0] - p0[0], p2[1] - p0[1], p2[2] - p0[2]];
        let n = [
            e1[1] * e2[2] - e1[2] * e2[1],
            e1[2] * e2[0] - e1[0] * e2[2],
            e1[0] * e2[1] - e1[1] * e2[0],
        ];
        let view = [camera[0] - p0[0], camera[1] - p0[1], camera[2] - p0[2]];
        if n[0] * view[0] + n[1] * view[1] + n[2] * view[2] <= 0.0 {
            continue;
        }
        let cov = rasterize_triangle(
            ScreenPoint { x: fixed(a.0), y: fixed(a.1) },
            ScreenPoint { x: fixed(b.0), y: fixed(b.1) },
            ScreenPoint { x: fixed(c.0), y: fixed(c.1) },
            SIZE,
            SIZE,
        );
        let area = cov.area as f32;
        for frag in &cov.fragments {
            let (w0, w1, w2) = (frag.w0 as f32 / area, frag.w1 as f32 / area, frag.w2 as f32 / area);
            let w_sum = a.3 * w0 + b.3 * w1 + c.3 * w2;
            if w_sum <= 0.0 {
                continue;
            }
            let ndc = (a.2 * a.3 * w0 + b.2 * b.3 * w1 + c.2 * c.3 * w2) / w_sum;
            r.write_fragment(frag.x, frag.y, depth_key(ndc * 0.5 + 0.5), 0x00FF_FFFF);
        }
    }
    let center = (SIZE as f32 - 1.0) / 2.0;
    let mut covered = 0;
    let mut holes = 0;
    for y in 0..SIZE {
        for x in 0..SIZE {
            let d = ((x as f32 + 0.5 - center - 0.5).powi(2) + (y as f32 + 0.5 - center - 0.5).powi(2)).sqrt();
            let hit = r.depth[y * SIZE + x] != DEPTH_CLEAR;
            assert_eq!(hit, r.color[y * SIZE + x] == 0x00FF_FFFF);
            if d > 19.0 {
                assert!(!hit, "pixel ({x}, {y}) outside the silhouette is covered");
            }
            if d < 15.0 && !hit {
                holes += 1;
            }
            if hit {
                covered += 1;
            }
        }
    }
    let map: String = (28..72)
        .map(|y| {
            (28..72)
                .map(|x| if r.depth[y * SIZE + x] != DEPTH_CLEAR { '#' } else { '.' })
                .collect::<String>()
                + "\n"
        })
        .collect();
    assert!(holes <= 80, "{map}\n{holes} holes");
    assert!(covered > 700 && covered < 1200, "{map}\ncovered {covered}");
}

use softraster::color::Rgb8;
use softraster::coverage::{edge, rasterize_triangle, ScreenPoint, SUBPIXEL};
use softraster::lcg::Lcg;
use softraster::mesh::{FaceError, Mesh};
use softraster::obj::{parse_obj_line, ObjError, ObjLine};
use softraster::raster::{DepthFragment, Renderer, DEPTH_CLEAR};
use softraster::sky::{Sky, STAR_SEED};

const WHITE: u32 = 0x00FF_FFFF;

fn pt(x: i64, y: i64) -> ScreenPoint {
    ScreenPoint { x: x * SUBPIXEL, y: y * SUBPIXEL }
}

#[test]
fn lcg_new_keeps_seed() {
    let rng = Lcg::new(7);
    assert_eq!(rng.state, 7);
}

#[test]
fn lcg_draws_upper_bits_of_each_state() {
    let mut rng = Lcg::new(42);
    assert_eq!(rng.next_u32(), 2104627054);
    assert_eq!(rng.state, 0x7d72_0f6e_9086_dd63);
    assert_eq!(rng.next_u32(), 2013331137);
    assert_eq!(rng.next_u32(), 2406144595);
}

#[test]
fn lcg_wraps_at_u64_max() {
    let mut rng = Lcg::new(u64::MAX);
    let expected = u64::MAX.wrapping_mul(6364136223846793005).wrapping_add(1);
    rng.next_u32();
    assert_eq!(rng.state, expected);
}

#[test]
fn color_packs_as_rrggbb() {
    assert_eq!(Rgb8::new(0x12, 0x34, 0x56).to_u32(), 0x0012_3456);
    assert_eq!(Rgb8::new(255, 255, 255).to_u32(), WHITE);
    assert_eq!(Rgb8::new(0, 0, 0).to_u32(), 0);
}

#[test]
fn color_unpack_ignores_top_byte() {
    let c = Rgb8::from_u32(0xAB12_3456);
    assert_eq!(c, Rgb8::new(0x12, 0x34, 0x56));
}

#[test]
fn color_round_trip_every_level() {
    for v in 0..=255u8 {
        let c = Rgb8::new(v, 255 - v, v / 2);
        assert_eq!(Rgb8::from_u32(c.to_u32()), c);
    }
    assert_eq!(Rgb8::from_u32(0xFF01_0203).to_u32(), 0x0001_0203);
}

#[test]
fn color_blend_saturates() {
    let a = Rgb8::new(200, 10, 0);
    let b = Rgb8::new(100, 20, 0);
    assert_eq!(a.blend_additive(b), Rgb8::new(255, 30, 0));
}

#[test]
fn uv_sphere_counts() {
    let m = Mesh::uv_sphere(28, 18);
    assert_eq!(m.vertex_count, 29 * 19);
    assert_eq!(m.triangle_count(), 2 * 28 * 18);
    assert_eq!(m.indices[0], [0, 29, 1]);
    assert_eq!(m.indices[1], [1, 29, 30]);
    for t in &m.indices {
        assert!(t.iter().all(|&i| i < m.vertex_count));
    }
}

#[test]
fn uv_sphere_small() {
    let m = Mesh::uv_sphere(3, 2);
    assert_eq!(m.vertex_count, 12);
    assert_eq!(m.indices.len(), 12);
    assert_eq!(m.indices[10], [6, 10, 7]);
    assert_eq!(m.indices[11], [7, 10, 11]);
}

#[test]
fn uv_sphere_degenerate_has_no_triangles() {
    let m = Mesh::uv_sphere(0, 5);
    assert_eq!(m.vertex_count, 6);
    assert_eq!(m.indices.len(), 0);
}

#[test]
fn ring_counts_and_winding() {
    let m = Mesh::ring(72);
    assert_eq!(m.vertex_count, 4 * 73);
    assert_eq!(m.indices.len(), 4 * 72);
    assert_eq!(m.indices[0], [0, 4, 1]);
    assert_eq!(m.indices[1], [1, 4, 5]);
    assert_eq!(m.indices[2], [2, 3, 6]);
    assert_eq!(m.indices[3], [3, 7, 6]);
    let last = m.indices[m.indices.len() - 1];
    assert_eq!(last, [287, 291, 290]);
    for t in &m.indices {
        assert!(t.iter().all(|&i| i < m.vertex_count));
    }
}

#[test]
fn faces_fan_triangulate() {
    let faces = vec![vec![0, 1, 2, 3, 4], vec![1, 2], vec![4, 3, 2]];
    let m = Mesh::from_faces(5, &faces).unwrap();
    assert_eq!(m.vertex_count, 5);
    assert_eq!(m.indices, vec![[0, 1, 2], [0, 2, 3], [0, 3, 4], [4, 3, 2]]);
}

#[test]
fn assemble_skips_triangles_with_rejected_vertices() {
    let faces = vec![vec![0, 1, 2], vec![1, 2, 3], vec![2, 3, 4], vec![0, 2, 4]];
    let m = Mesh::from_faces(5, &faces).unwrap();
    let accepted = vec![true, true, true, false, true];
    assert_eq!(m.assemble(&accepted), vec![[0, 1, 2], [0, 2, 4]]);
    assert_eq!(m.assemble(&vec![true; 5]).len(), 4);
    assert!(m.assemble(&vec![false; 5]).is_empty());
}

#[test]
fn faces_out_of_range_fail() {
    let faces = vec![vec![0, 1, 2], vec![0, 1, 5]];
    assert_eq!(Mesh::from_faces(5, &faces).err(), Some(FaceError::IndexOutOfRange));
}

#[test]
fn obj_vertex_and_other_lines() {
    assert!(matches!(parse_obj_line(&b"v 1.0 2.0 3.0".to_vec()), Ok(ObjLine::Vertex)));
    assert!(matches!(parse_obj_line(&b"vn 0 1 0".to_vec()), Ok(ObjLine::Other)));
    assert!(matches!(parse_obj_line(&b"# comment".to_vec()), Ok(ObjLine::Other)));
    assert!(matches!(parse_obj_line(&Vec::new()), Ok(ObjLine::Other)));
}

#[test]
fn obj_face_line_indices() {
    match parse_obj_line(&b"f 1/2/3 2//7 3 4".to_vec()) {
        Ok(ObjLine::Face(f)) => assert_eq!(f, vec![0, 1, 2, 3]),
        _ => panic!("expected a face"),
    }
    match parse_obj_line(&b"f\t+3  2\r".to_vec()) {
        Ok(ObjLine::Face(f)) => assert_eq!(f, vec![2, 1]),
        _ => panic!("expected a face"),
    }
}

#[test]
fn obj_bad_face_tokens_fail() {
    assert_eq!(parse_obj_line(&b"f 0 1 2".to_vec()).err(), Some(ObjError::BadIndex));
    assert_eq!(parse_obj_line(&b"f a 1 2".to_vec()).err(), Some(ObjError::BadIndex));
    assert_eq!(parse_obj_line(&b"f 1 -2 3".to_vec()).err(), Some(ObjError::BadIndex));
    assert_eq!(parse_obj_line(&b"f /1 2 3".to_vec()).err(), Some(ObjError::BadIndex));
    assert_eq!(
        parse_obj_line(&b"f 99999999999999999999999 1 2".to_vec()).err(),
        Some(ObjError::BadIndex)
    );
}

#[test]
fn draw_line_horizontal_sets_exactly_its_row() {
    let mut r = Renderer::new(10, 10, 0);
    r.draw_line(0, 0, 9, 0, WHITE);
    for y in 0..10 {
        for x in 0..10 {
            let expected = if y == 0 { WHITE } else { 0 };
            assert_eq!(r.color[y * 10 + x], expected);
        }
    }
}

#[test]
fn draw_line_diagonal_and_reverse() {
    let mut r = Renderer::new(5, 5, 0);
    r.draw_line(4, 4, 0, 0, 7);
    for y in 0..5 {
        for x in 0..5 {
            assert_eq!(r.color[y * 5 + x], if x == y { 7 } else { 0 });
        }
    }
}

#[test]
fn draw_line_steep_reaches_end() {
    let mut r = Renderer::new(4, 8, 0);
    r.draw_line(0, 0, 1, 7, 3);
    let set: Vec<usize> = (0..32).filter(|&i| r.color[i] == 3).collect();
    assert_eq!(set.len(), 8);
    assert_eq!(r.color[7 * 4 + 1], 3);
    assert_eq!(r.color[0], 3);
}

#[test]
fn draw_line_clips_outside() {
    let mut r = Renderer::new(4, 4, 0);
    r.draw_line(-3, 1, 6, 1, 9);
    for x in 0..4 {
        assert_eq!(r.color[4 + x], 9);
    }
    assert_eq!(r.color.iter().filter(|&&c| c == 9).count(), 4);
    r.draw_line(-10, -10, -2, -5, 1);
    assert_eq!(r.color.iter().filter(|&&c| c == 1).count(), 0);
}

#[test]
fn nearer_fragment_wins_in_either_order() {
    let mut a = Renderer::new(3, 3, 0);
    assert!(a.write_fragment(1, 1, 100, 0xAA));
    assert!(!a.write_fragment(1, 1, 200, 0xBB));
    let mut b = Renderer::new(3, 3, 0);
    assert!(b.write_fragment(1, 1, 200, 0xBB));
    assert!(b.write_fragment(1, 1, 100, 0xAA));
    assert_eq!(a.color, b.color);
    assert_eq!(a.depth, b.depth);
    assert_eq!(a.color[4], 0xAA);
    assert_eq!(a.depth[4], 100);
}

#[test]
fn nearest_of_many_fragments_shown_in_any_order() {
    let frags = vec![
        DepthFragment { x: 0, y: 0, depth: 30, color: 3 },
        DepthFragment { x: 0, y: 0, depth: 10, color: 1 },
        DepthFragment { x: 1, y: 0, depth: 5, color: 9 },
        DepthFragment { x: 0, y: 0, depth: 20, color: 2 },
    ];
    let mut orders = vec![frags.clone()];
    let mut reversed = frags.clone();
    reversed.reverse();
    orders.push(reversed);
    orders.push(vec![frags[3], frags[0], frags[2], frags[1]]);
    for order in orders {
        let mut r = Renderer::new(2, 1, 0);
        r.write_fragments(&order);
        assert_eq!(r.color, vec![1, 9]);
        assert_eq!(r.depth, vec![10, 5]);
    }
}

#[test]
fn equal_depth_keeps_earlier_write() {
    let mut r = Renderer::new(2, 2, 0);
    assert!(r.write_fragment(0, 1, 50, 1));
    assert!(!r.write_fragment(0, 1, 50, 2));
    assert_eq!(r.color[2], 1);
}

#[test]
fn fragment_outside_is_dropped() {
    let mut r = Renderer::new(2, 2, 0);
    assert!(!r.write_fragment(2, 0, 1, 5));
    assert!(!r.write_fragment(0, 2, 1, 5));
    assert!(r.color.iter().all(|&c| c == 0));
    assert!(r.depth.iter().all(|&d| d == DEPTH_CLEAR));
}

#[test]
fn edge_function_sign_and_area() {
    let a = pt(0, 0);
    let b = pt(4, 0);
    let c = pt(0, 4);
    assert_eq!(edge(a, b, c), -16 * SUBPIXEL * SUBPIXEL);
    assert_eq!(edge(a, c, b), 16 * SUBPIXEL * SUBPIXEL);
    assert_eq!(edge(a, b, pt(2, 0)), 0);
}

#[test]
fn triangle_covers_pixels_with_centers_inside() {
    let cov = rasterize_triangle(pt(0, 0), pt(4, 0), pt(0, 4), 10, 10);
    assert_eq!(cov.area, -16 * SUBPIXEL * SUBPIXEL);
    let pixels: Vec<(usize, usize)> = cov.fragments.iter().map(|f| (f.x, f.y)).collect();
    assert_eq!(
        pixels,
        vec![(0, 0), (1, 0), (2, 0), (0, 1), (1, 1), (0, 2)]
    );
    for f in &cov.fragments {
        assert_eq!(f.w0 + f.w1 + f.w2, cov.area);
    }
}

#[test]
fn triangle_winding_does_not_matter() {
    let cw = rasterize_triangle(pt(0, 0), pt(0, 4), pt(4, 0), 10, 10);
    let ccw = rasterize_triangle(pt(0, 0), pt(4, 0), pt(0, 4), 10, 10);
    let a: Vec<(usize, usize)> = cw.fragments.iter().map(|f| (f.x, f.y)).collect();
    let b: Vec<(usize, usize)> = ccw.fragments.iter().map(|f| (f.x, f.y)).collect();
    assert_eq!(a, b);
    assert_eq!(cw.area, -ccw.area);
}

#[test]
fn triangle_degenerate_or_offscreen_covers_nothing() {
    assert!(rasterize_triangle(pt(0, 0), pt(2, 2), pt(4, 4), 10, 10).fragments.is_empty());
    assert!(rasterize_triangle(pt(-9, -9), pt(-5, -9), pt(-9, -5), 10, 10).fragments.is_empty());
    assert!(rasterize_triangle(pt(0, 0), pt(4, 0), pt(0, 4), 0, 10).fragments.is_empty());
}

#[test]
fn triangle_clipped_to_buffer() {
    let cov = rasterize_triangle(pt(-20, -20), pt(40, -20), pt(-20, 40), 4, 3);
    assert_eq!(cov.fragments.len(), 12);
    assert!(cov.fragments.iter().all(|f| f.x < 4 && f.y < 3));
}

#[test]
fn overlapping_triangles_nearer_visible_regardless_of_order() {
    let near = rasterize_triangle(pt(0, 0), pt(8, 0), pt(0, 8), 10, 10);
    let far = rasterize_triangle(pt(0, 0), pt(10, 0), pt(0, 10), 10, 10);
    let draw = |first: &Vec<softraster::coverage::Fragment>, fd: u32, fc: u32,
                second: &Vec<softraster::coverage::Fragment>, sd: u32, sc: u32| {
        let mut r = Renderer::new(10, 10, 0);
        for f in first {
            r.write_fragment(f.x, f.y, fd, fc);
        }
        for f in second {
            r.write_fragment(f.x, f.y, sd, sc);
        }
        r.color
    };
    let a = draw(&near.fragments, 10, 1, &far.fragments, 20, 2);
    let b = draw(&far.fragments, 20, 2, &near.fragments, 10, 1);
    assert_eq!(a, b);
    for f in &near.fragments {
        assert_eq!(a[f.y * 10 + f.x], 1);
    }
    assert!(a.iter().any(|&c| c == 2));
}

#[test]
fn sky_stars_are_seeded_and_inside() {
    let s = Sky::new(960, 540, 420);
    assert_eq!(s.stars.len(), 420);
    assert_eq!(s.stars[0].x, 470);
    assert_eq!(s.stars[0].y, 253);
    assert_eq!(s.stars[0].level, 2406144595);
    assert!(s.stars.iter().all(|p| p.x < 960 && p.y < 540));
    let again = Sky::new(960, 540, 420);
    assert_eq!(s.stars, again.stars);
    assert_eq!(STAR_SEED, 42);
}

#[test]
fn begin_frame_paints_rows_and_stars() {
    let mut r = Renderer::new(4, 3, 2);
    r.write_fragment(1, 1, 5, 9);
    let rows = vec![10, 20, 30];
    let stars = vec![0xF0, 0xF1];
    r.begin_frame(&rows, &stars);
    assert!(r.depth.iter().all(|&d| d == DEPTH_CLEAR));
    let mut expected: Vec<u32> = (0..12).map(|i| rows[i / 4]).collect();
    for (k, s) in r.sky.stars.iter().enumerate() {
        expected[s.y * 4 + s.x] = stars[k];
    }
    assert_eq!(r.color, expected);
}

#[test]
fn ecliptic_band_brightens_middle_rows() {
    let mut r = Renderer::new(2, 20, 0);
    let rows: Vec<u32> = vec![0x0010_1010; 20];
    r.begin_frame(&rows, &Vec::new());
    let overlays: Vec<u32> = vec![0x0001_0203, 0x00FF_0000, 0x0000_0001, 0x0000_0002];
    r.draw_ecliptic_band(&overlays);
    for y in 0..20 {
        for x in 0..2 {
            let expected = match y {
                8 => 0x0011_1213,
                9 => 0x00FF_1010,
                10 => 0x0010_1011,
                11 => 0x0010_1012,
                _ => 0x0010_1010,
            };
            assert_eq!(r.color[y * 2 + x], expected);
        }
    }
}

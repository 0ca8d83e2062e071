use soft_renderer::color::Color;
use soft_renderer::framebuffer::Framebuffer;
use soft_renderer::geometry::Fx;
use soft_renderer::geometry::Point2;
use soft_renderer::geometry::Vertex3;
use soft_renderer::pipeline::fit_to_viewport;
use soft_renderer::pipeline::scene_bounds;
use soft_renderer::pipeline::sequential_indices;
use soft_renderer::pipeline::to_screen_coords;
use soft_renderer::pipeline::triangle_indices;
use soft_renderer::pipeline::view_transform;
use soft_renderer::framebuffer::edge_weights;

fn units(u: i64) -> Fx {
    Fx::from_units(u)
}

fn vx(x: i64, y: i64, z: i64) -> Vertex3 {
    Vertex3::new(units(x), units(y), units(z))
}

#[test]
fn color_new_channels() {
    let c = Color::new(3, 4, 250);
    assert_eq!(c.r, 3);
    assert_eq!(c.g, 4);
    assert_eq!(c.b, 250);
    assert_eq!(Color::black(), Color::new(0, 0, 0));
    assert_eq!(Color::white(), Color::new(255, 255, 255));
}

#[test]
fn framebuffer_starts_as_background() {
    let bg = Color::new(20, 20, 40);
    let fb = Framebuffer::new(4, 3, bg);
    assert_eq!(fb.width(), 4);
    assert_eq!(fb.height(), 3);
    assert_eq!(fb.bg_color(), bg);
    for y in 0..3usize {
        for x in 0..4usize {
            assert_eq!(fb.get_pixel(x, y), bg);
        }
    }
}

#[test]
fn draw_pixel_in_bounds_writes() {
    let bg = Color::black();
    let red = Color::new(255, 0, 0);
    let mut fb = Framebuffer::new(4, 3, bg);
    fb.draw_pixel(2, 1, red);
    assert_eq!(fb.get_pixel(2, 1), red);
    assert_eq!(fb.get_pixel(1, 1), bg);
    assert_eq!(fb.get_pixel(2, 0), bg);
}

#[test]
fn draw_pixel_out_of_bounds_is_noop() {
    let bg = Color::black();
    let red = Color::new(255, 0, 0);
    let mut fb = Framebuffer::new(4, 3, bg);
    fb.draw_pixel(-1, 0, red);
    fb.draw_pixel(0, -5, red);
    fb.draw_pixel(4, 0, red);
    fb.draw_pixel(0, 3, red);
    fb.draw_pixel(-2147483648, 2147483647, red);
    for y in 0..3usize {
        for x in 0..4usize {
            assert_eq!(fb.get_pixel(x, y), bg);
        }
    }
}

#[test]
fn fill_triangle_collinear_is_noop() {
    let bg = Color::black();
    let red = Color::new(255, 0, 0);
    let mut fb = Framebuffer::new(8, 8, bg);
    fb.fill_triangle(Point2::new(0, 0), Point2::new(2, 2), Point2::new(4, 4), red);
    for y in 0..8usize {
        for x in 0..8usize {
            assert_eq!(fb.get_pixel(x, y), bg);
        }
    }
}

#[test]
fn fill_triangle_coincident_is_noop() {
    let bg = Color::black();
    let red = Color::new(255, 0, 0);
    let mut fb = Framebuffer::new(8, 8, bg);
    fb.fill_triangle(Point2::new(1, 1), Point2::new(1, 1), Point2::new(1, 1), red);
    for y in 0..8usize {
        for x in 0..8usize {
            assert_eq!(fb.get_pixel(x, y), bg);
        }
    }
}

#[test]
fn fill_triangle_barycentric_coverage() {
    let bg = Color::black();
    let red = Color::new(255, 0, 0);
    let mut fb = Framebuffer::new(8, 8, bg);
    fb.fill_triangle(Point2::new(0, 0), Point2::new(4, 0), Point2::new(0, 4), red);
    // centers inside the triangle
    assert_eq!(fb.get_pixel(1, 1), red);
    assert_eq!(fb.get_pixel(2, 0), red);
    assert_eq!(fb.get_pixel(0, 0), red);
    // center (3.5, 3.5) lies outside the hypotenuse
    assert_eq!(fb.get_pixel(3, 3), bg);
    assert_eq!(fb.get_pixel(7, 7), bg);
    assert_eq!(fb.get_pixel(5, 0), bg);
}

#[test]
fn fill_triangle_off_surface_is_clipped() {
    let bg = Color::black();
    let red = Color::new(255, 0, 0);
    let mut fb = Framebuffer::new(4, 4, bg);
    // spans negative coordinates; only the on-surface covered part lands
    fb.fill_triangle(Point2::new(-2, -2), Point2::new(3, -2), Point2::new(-2, 3), red);
    // center (0.5, 0.5) lies exactly on the hypotenuse x + y = 1
    assert_eq!(fb.get_pixel(0, 0), red);
    assert_eq!(fb.get_pixel(1, 1), bg);
    assert_eq!(fb.get_pixel(3, 3), bg);
}

#[test]
fn fill_triangle_shared_edge_covered_by_both() {
    let bg = Color::black();
    let red = Color::new(255, 0, 0);
    let blue = Color::new(0, 0, 255);
    // the diagonal from (0,0) to (4,4) is an edge of both triangles,
    // and the center (1.5, 1.5) lies exactly on it
    let mut fb = Framebuffer::new(8, 8, bg);
    fb.fill_triangle(Point2::new(0, 0), Point2::new(4, 0), Point2::new(4, 4), red);
    assert_eq!(fb.get_pixel(1, 1), red);
    let mut fb2 = Framebuffer::new(8, 8, bg);
    fb2.fill_triangle(Point2::new(0, 0), Point2::new(4, 4), Point2::new(0, 4), blue);
    assert_eq!(fb2.get_pixel(1, 1), blue);
}

#[test]
fn fill_triangle_leaves_other_pixels() {
    let bg = Color::black();
    let red = Color::new(255, 0, 0);
    let blue = Color::new(0, 0, 255);
    let mut fb = Framebuffer::new(16, 16, bg);
    fb.fill_triangle(Point2::new(0, 0), Point2::new(4, 0), Point2::new(0, 4), red);
    fb.fill_triangle(Point2::new(10, 10), Point2::new(14, 10), Point2::new(10, 14), blue);
    assert_eq!(fb.get_pixel(1, 1), red);
    assert_eq!(fb.get_pixel(11, 11), blue);
    assert_eq!(fb.get_pixel(7, 7), bg);
}

#[test]
fn clear_resets_after_fill() {
    let bg = Color::new(1, 2, 3);
    let red = Color::new(255, 0, 0);
    let mut fb = Framebuffer::new(8, 8, bg);
    fb.fill_triangle(Point2::new(0, 0), Point2::new(7, 0), Point2::new(0, 7), red);
    assert_eq!(fb.get_pixel(1, 1), red);
    fb.clear();
    for y in 0..8usize {
        for x in 0..8usize {
            assert_eq!(fb.get_pixel(x, y), bg);
        }
    }
}

#[test]
fn edge_weights_partition_of_unity() {
    let p0 = Point2::new(0, 0);
    let p1 = Point2::new(4, 0);
    let p2 = Point2::new(0, 4);
    // denominator: (y1-y2)(x0-x2) + (x2-x1)(y0-y2) = 16
    for y in -2i32..6 {
        for x in -2i32..6 {
            let (w0, w1, w2) = edge_weights(p0, p1, p2, x, y);
            assert_eq!(w0 + w1 + w2, 32);
        }
    }
    let q0 = Point2::new(10, 2);
    let q1 = Point2::new(3, 7);
    let q2 = Point2::new(-5, -1);
    let d: i64 = (7 - (-1)) * (10 - (-5)) + ((-5) - 3) * (2 - (-1));
    let (w0, w1, w2) = edge_weights(q0, q1, q2, 1, 1);
    assert_eq!(w0 + w1 + w2, 2 * d);
}

#[test]
fn fit_to_viewport_scale_and_offset() {
    let mn = vx(-1, -1, -1);
    let mx = vx(1, 1, 1);
    let fit = fit_to_viewport(mn, mx, 800, 600);
    // scale = (600 * 0.85) / 2 = 255.0
    assert_eq!(fit.scale.raw, 255_000);
    assert_eq!(fit.center.x.raw, 0);
    assert_eq!(fit.center.y.raw, 0);
    assert_eq!(fit.center.z.raw, 0);
    // center at origin: the offset is exactly the half-viewport
    assert_eq!(fit.offset_x.raw, 400_000);
    assert_eq!(fit.offset_y.raw, 300_000);
}

#[test]
fn degenerate_scene_scale_fallback() {
    let verts = vec![vx(5, 5, 5)];
    let bounds = scene_bounds(&verts);
    let (mn, mx) = bounds.expect("one vertex has bounds");
    assert_eq!(mn.x.raw, 5000);
    assert_eq!(mx.x.raw, 5000);
    assert_eq!(mn, mx);
    let fit = fit_to_viewport(mn, mx, 800, 600);
    assert_eq!(fit.scale.raw, 1000);
}

#[test]
fn scene_bounds_empty_is_none() {
    let verts: Vec<Vertex3> = Vec::new();
    assert!(scene_bounds(&verts).is_none());
}

#[test]
fn scene_bounds_component_wise() {
    let verts = vec![vx(1, 5, -3), vx(-2, 7, 0), vx(4, -1, -1)];
    let (mn, mx) = scene_bounds(&verts).expect("bounds");
    assert_eq!(mn.x.raw, -2000);
    assert_eq!(mn.y.raw, -1000);
    assert_eq!(mn.z.raw, -3000);
    assert_eq!(mx.x.raw, 4000);
    assert_eq!(mx.y.raw, 7000);
    assert_eq!(mx.z.raw, 0);
}

#[test]
fn triangle_indices_drops_partial() {
    let indices: Vec<usize> = vec![9, 1, 2, 3, 4, 5, 6];
    let tris = triangle_indices(&indices);
    assert_eq!(tris.len(), 2);
    assert_eq!(tris[0], (9, 1, 2));
    assert_eq!(tris[1], (3, 4, 5));
}

#[test]
fn triangle_indices_exact_multiple() {
    let indices: Vec<usize> = vec![0, 1, 2, 2, 1, 3];
    let tris = triangle_indices(&indices);
    assert_eq!(tris.len(), 2);
    assert_eq!(tris[1], (2, 1, 3));
}

#[test]
fn sequential_indices_count_up() {
    let v = sequential_indices(5);
    assert_eq!(v, vec![0, 1, 2, 3, 4]);
}

#[test]
fn view_transform_deterministic() {
    let v = vx(3, -2, 9);
    let center = vx(1, 1, 1);
    let a = view_transform(v, center);
    let b = view_transform(v, center);
    assert_eq!(a, b);
}

#[test]
fn view_transform_exact_value() {
    let v = vx(1, 0, 0);
    let center = vx(0, 0, 0);
    let r = view_transform(v, center);
    // yaw: x = cos * 1.0 = 0.707, z = -sin * 1.0 = 0.707
    // pitch: y = -sin30 * 0.707 = -0.3535 (truncated), z = cos30 * 0.707
    assert_eq!(r.x.raw, 707);
    assert_eq!(r.y.raw, -353);
    assert_eq!(r.z.raw, 612);
}

#[test]
fn view_transform_center_maps_to_origin() {
    let c = vx(4, -7, 2);
    let r = view_transform(c, c);
    assert_eq!(r.x.raw, 0);
    assert_eq!(r.y.raw, 0);
    assert_eq!(r.z.raw, 0);
}

#[test]
fn to_screen_coords_scale_offset_and_flip() {
    let v = vx(1, 1, 0);
    let scale = Fx::from_milli(2000);
    let ox = Fx::from_milli(400_000);
    let oy = Fx::from_milli(300_000);
    let p = to_screen_coords(v, scale, ox, oy);
    // x = 1.0 * 2.0 + 400.0 = 402; y = 1.0 * -2.0 + 300.0 = 298
    assert_eq!(p.x, 402);
    assert_eq!(p.y, 298);
}

#[test]
fn to_screen_coords_truncates_toward_zero() {
    let v = vx(1, 1, 0);
    let scale = Fx::from_milli(1500);
    let ox = Fx::from_milli(0);
    let oy = Fx::from_milli(0);
    let p = to_screen_coords(v, scale, ox, oy);
    // 1.5 truncates to 1, -1.5 truncates to -1
    assert_eq!(p.x, 1);
    assert_eq!(p.y, -1);
}

#[test]
fn fx_times_rounds_toward_zero() {
    let a = Fx::from_milli(1500);
    let b = Fx::from_milli(-1500);
    assert_eq!(a.times(b).raw, -2250);
    assert_eq!(a.times(a).raw, 2250);
    assert_eq!(Fx::from_milli(1).times(Fx::from_milli(1)).raw, 0);
}

#[test]
fn fx_field_arithmetic() {
    let a = Fx::from_units(2);
    let b = Fx::from_milli(500);
    assert_eq!(a.plus(b).raw, 2500);
    assert_eq!(a.minus(b).raw, 1500);
    assert_eq!(b.neg().raw, -500);
    assert_eq!(a.min_of(b).raw, 500);
    assert_eq!(a.max_of(b).raw, 2000);
}

#[test]
fn fx_midpoint_truncates_toward_zero() {
    assert_eq!(Fx::from_milli(3).midpoint(Fx::from_milli(0)).raw, 1);
    assert_eq!(Fx::from_milli(-3).midpoint(Fx::from_milli(0)).raw, -1);
    assert_eq!(Fx::from_milli(2).midpoint(Fx::from_milli(4)).raw, 3);
}

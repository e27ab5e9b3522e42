use rasterizer::edge_function;
use rasterizer::Framebuffer;
use rasterizer::Point;
use rasterizer::Triangle;

fn pt(x: i64, y: i64) -> Point {
    Point { x, y }
}

#[test]
fn edge_function_signs() {
    // (0, 10) lies on the negative side of the directed line (0,0) -> (10,0).
    assert!(!edge_function(&pt(0, 0), &pt(10, 0), &pt(0, 10)));
    // After swapping the order, the same point lies on the accepted side.
    assert!(edge_function(&pt(0, 0), &pt(0, 10), &pt(10, 0)));
    // A point exactly on the line is accepted by the >= 0 rule.
    assert!(edge_function(&pt(0, 0), &pt(10, 0), &pt(5, 0)));
}

#[test]
fn winding_normalization_swaps_clockwise_order() {
    let t = Triangle::new(pt(0, 0), pt(10, 0), pt(0, 10), 0xFF0000);
    assert_eq!(t.v0, pt(0, 0));
    assert_eq!(t.v1, pt(0, 10));
    assert_eq!(t.v2, pt(10, 0));
    assert_eq!(t.c, 0xFF0000);
    assert!(edge_function(&t.v0, &t.v1, &t.v2));
}

#[test]
fn winding_normalization_keeps_correct_order() {
    let t = Triangle::new(pt(0, 0), pt(0, 10), pt(10, 0), 7);
    assert_eq!(t.v0, pt(0, 0));
    assert_eq!(t.v1, pt(0, 10));
    assert_eq!(t.v2, pt(10, 0));
    assert!(edge_function(&t.v0, &t.v1, &t.v2));
}

#[test]
fn vertices_test_inside_their_own_triangle() {
    let t = Triangle::new(pt(3, 1), pt(12, 4), pt(5, 11), 1);
    for v in [t.v0, t.v1, t.v2] {
        let inside = edge_function(&t.v0, &t.v1, &v)
            && edge_function(&t.v1, &t.v2, &v)
            && edge_function(&t.v2, &t.v0, &v);
        assert!(inside);
    }
}

#[test]
fn line_endpoints_always_painted() {
    let mut fb = Framebuffer::new(20, 20);
    fb.draw_line(&pt(2, 3), &pt(7, 11), 0xABCDEF);
    assert_eq!(fb.get_pixel(2, 3), Some(0xABCDEF));
    assert_eq!(fb.get_pixel(7, 11), Some(0xABCDEF));
    // A single-pixel line paints its one point.
    fb.draw_line(&pt(15, 15), &pt(15, 15), 5);
    assert_eq!(fb.get_pixel(15, 15), Some(5));
}

#[test]
fn horizontal_line_paints_every_pixel_between() {
    let mut fb = Framebuffer::new(10, 10);
    fb.draw_line(&pt(1, 4), &pt(8, 4), 9);
    for x in 1..=8 {
        assert_eq!(fb.get_pixel(x, 4), Some(9));
    }
    assert_eq!(fb.get_pixel(0, 4), Some(0));
    assert_eq!(fb.get_pixel(9, 4), Some(0));
}

#[test]
fn pixel_addressing_is_row_major() {
    let mut fb = Framebuffer::new(7, 5);
    assert_eq!(fb.get_index(3, 2), 7 * 2 + 3);
    fb.set_point(&pt(3, 2), 11);
    assert_eq!(fb.data[17], 11);
}

#[test]
fn out_of_bounds_writes_are_skipped() {
    let mut fb = Framebuffer::new(8, 8);
    assert!(!fb.set_point(&pt(-1, 5), 3));
    assert!(!fb.set_point(&pt(5, 8), 3));
    assert!(fb.set_point(&pt(5, 5), 3));
    assert_eq!(fb.get_pixel(5, 5), Some(3));
    assert_eq!(fb.get_pixel(-1, 5), None);
    let zeros = fb.data.iter().filter(|&&p| p == 0).count();
    assert_eq!(zeros, 63);
}

#[test]
fn fill_stays_within_bounding_box() {
    let mut fb = Framebuffer::new(10, 10);
    let t = Triangle::new(pt(2, 2), pt(6, 2), pt(2, 6), 4);
    fb.fill_triangle(&t);
    for y in 0..10 {
        for x in 0..10 {
            let boxed = (2..6).contains(&x) && (2..6).contains(&y);
            if !boxed {
                assert_eq!(fb.get_pixel(x, y), Some(0));
            }
        }
    }
    // And the fill did paint something inside the box.
    assert_eq!(fb.get_pixel(3, 3), Some(4));
}

#[test]
fn rendering_twice_reproduces_the_same_buffer() {
    let triangles = vec![
        Triangle::new(pt(0, 0), pt(10, 0), pt(0, 10), 0xFF0000),
        Triangle::new(pt(3, 3), pt(12, 5), pt(5, 12), 0x00FF00),
    ];
    let mut fb = Framebuffer::new(16, 16);
    fb.render(&triangles);
    let first = fb.data.clone();
    fb.render(&triangles);
    assert_eq!(fb.data, first);
}

#[test]
fn scenario_simple_triangle_in_large_buffer() {
    let mut fb = Framebuffer::new(800, 800);
    let t = Triangle::new(pt(0, 0), pt(10, 0), pt(0, 10), 0xFF0000);
    fb.draw_triangle(&t);
    assert_eq!(fb.get_pixel(1, 1), Some(0xFF0000));
    assert_eq!(fb.get_pixel(5, 9), Some(0x000000));
}

#[test]
fn scenario_degenerate_triangle_touches_one_point_at_most() {
    let mut fb = Framebuffer::new(32, 32);
    let t = Triangle::new(pt(0, 0), pt(0, 0), pt(0, 0), 0xBEEF);
    fb.draw_triangle(&t);
    assert_eq!(fb.get_pixel(0, 0), Some(0xBEEF));
    let untouched = fb.data.iter().skip(1).all(|&p| p == 0);
    assert!(untouched);
}

#[test]
fn scenario_shared_edge_last_triangle_wins() {
    let mut fb = Framebuffer::new(16, 16);
    let first = Triangle::new(pt(0, 0), pt(10, 0), pt(0, 10), 0xFF0000);
    let second = Triangle::new(pt(10, 0), pt(10, 10), pt(0, 10), 0x0000FF);
    fb.draw_triangle(&first);
    // (5, 5) lies exactly on the shared edge from (10, 0) to (0, 10).
    assert_eq!(fb.get_pixel(5, 5), Some(0xFF0000));
    fb.draw_triangle(&second);
    assert_eq!(fb.get_pixel(5, 5), Some(0x0000FF));
}

#[test]
fn scenario_partly_off_buffer_triangle_renders_in_bounds_part() {
    let mut fb = Framebuffer::new(20, 20);
    let t = Triangle::new(pt(-5, -5), pt(10, 0), pt(0, 10), 0x123456);
    fb.draw_triangle(&t);
    // The in-bounds vertices are painted; pixels far from the triangle stay
    // zero; nothing crashes on the off-buffer part.
    assert_eq!(fb.get_pixel(10, 0), Some(0x123456));
    assert_eq!(fb.get_pixel(0, 10), Some(0x123456));
    assert_eq!(fb.get_pixel(19, 19), Some(0));
}

#[test]
fn repeated_line_is_idempotent() {
    let mut fb = Framebuffer::new(12, 12);
    fb.draw_line(&pt(0, 0), &pt(11, 7), 6);
    let first = fb.data.clone();
    fb.draw_line(&pt(0, 0), &pt(11, 7), 6);
    assert_eq!(fb.data, first);
}

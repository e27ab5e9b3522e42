use rasterizer::input::get_triangle;
use rasterizer::input::try_get_triangle;
use rasterizer::Point;

fn args(coords: [&str; 6]) -> Vec<String> {
    let mut v = vec!["prog".to_string()];
    for c in coords {
        v.push(c.to_string());
    }
    v
}

#[test]
fn get_triangle_parses_and_normalizes() {
    let a = args(["0", "0", "10", "0", "0", "10"]);
    let t = get_triangle(&a);
    assert_eq!(t.c, 0xFFFFFF);
    assert_eq!(t.v0, Point { x: 0, y: 0 });
    assert_eq!(t.v1, Point { x: 0, y: 10 });
    assert_eq!(t.v2, Point { x: 10, y: 0 });
}

#[test]
fn get_triangle_keeps_counter_clockwise_order() {
    let a = args(["0", "0", "0", "10", "10", "0"]);
    let t = get_triangle(&a);
    assert_eq!(t.v0, Point { x: 0, y: 0 });
    assert_eq!(t.v1, Point { x: 0, y: 10 });
    assert_eq!(t.v2, Point { x: 10, y: 0 });
}

#[test]
fn get_triangle_reads_negative_coordinates() {
    let a = args(["-3", "-4", "5", "-4", "-3", "6"]);
    let t = get_triangle(&a);
    assert_eq!(t.v0, Point { x: -3, y: -4 });
    assert_eq!(t.v1, Point { x: -3, y: 6 });
    assert_eq!(t.v2, Point { x: 5, y: -4 });
}

#[test]
fn try_get_triangle_rejects_short_argument_lists() {
    let a = vec!["prog".to_string(), "1".to_string(), "2".to_string()];
    assert!(try_get_triangle(&a).is_none());
}

#[test]
fn try_get_triangle_rejects_non_numeric_arguments() {
    let a = args(["0", "0", "ten", "0", "0", "10"]);
    assert!(try_get_triangle(&a).is_none());
}

#[test]
fn try_get_triangle_rejects_out_of_range_coordinates() {
    let a = args(["0", "0", "99999999", "0", "0", "10"]);
    assert!(try_get_triangle(&a).is_none());
}

#[test]
fn try_get_triangle_accepts_valid_arguments() {
    let a = args(["0", "0", "10", "0", "0", "10"]);
    let t = try_get_triangle(&a).unwrap();
    assert_eq!(t, get_triangle(&a));
}

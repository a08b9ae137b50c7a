use glowfield::canvas::Canvas;
use glowfield::field::{Point, PointField};
use glowfield::render::{
    map_range, nearest_distance, render, shade_pixel, snapshot, RAMP_INPUT_MAX, RAMP_OUTPUT_MAX,
    WHITE,
};

fn still(x: u32, y: u32) -> Point {
    Point::new(x, y, 0, 0)
}

fn painted(points: &[Point], width: u32, height: u32) -> Canvas {
    let mut canvas = Canvas::new(width, height).unwrap();
    render(points, &mut canvas);
    canvas
}

#[test]
fn ramp_constants_are_the_fixed_ones() {
    assert_eq!(RAMP_INPUT_MAX, 50);
    assert_eq!(RAMP_OUTPUT_MAX, 255);
    assert_eq!(WHITE, 255);
}

#[test]
fn map_range_at_the_ends_of_the_ramp() {
    assert_eq!(map_range(0), 0);
    assert_eq!(map_range(50), 255);
}

#[test]
fn map_range_rounds_down_on_the_ramp() {
    assert_eq!(map_range(1), 5);
    assert_eq!(map_range(5), 25);
    assert_eq!(map_range(9), 45);
    assert_eq!(map_range(10), 51);
    assert_eq!(map_range(25), 127);
    assert_eq!(map_range(49), 249);
    for value in 0u8..=50 {
        assert_eq!(map_range(value) as f64, (value as f64 * 255.0 / 50.0).floor());
    }
}

#[test]
fn map_range_keeps_the_low_byte_past_the_ramp() {
    assert_eq!(map_range(51), 4);
    assert_eq!(map_range(60), 50);
    assert_eq!(map_range(100), 254);
    assert_eq!(map_range(101), 3);
    assert_eq!(map_range(255), 20);
    for value in 51u8..=255 {
        let line = value as u32 * 255 / 50;
        assert_eq!(map_range(value) as u32, line % 256);
    }
}

#[test]
fn snapshot_lists_the_positions_in_order() {
    let points = [Point::new(1, 2, 3, 4), Point::new(5, 6, 7, 8), Point::new(0, 0, 99, 99)];
    assert_eq!(snapshot(&points), vec![(1, 2), (5, 6), (0, 0)]);
    assert_eq!(snapshot(&[]), Vec::<(u32, u32)>::new());
}

#[test]
fn nearest_distance_is_the_least_of_all() {
    let positions = [(0, 0), (9, 9), (4, 0)];
    assert_eq!(nearest_distance(&positions, &(0, 0)), 0);
    assert_eq!(nearest_distance(&positions, &(3, 4)), 4);
    assert_eq!(nearest_distance(&positions, &(9, 8)), 1);
    assert_eq!(nearest_distance(&positions, &(7, 4)), 5);
    assert_eq!(nearest_distance(&[(40, 30)], &(0, 0)), 50);
}

#[test]
fn nearest_distance_does_not_depend_on_the_order() {
    let one = [(0, 0), (9, 9), (4, 0), (2, 7)];
    let other = [(2, 7), (4, 0), (9, 9), (0, 0)];
    for x in 0..12 {
        for y in 0..12 {
            assert_eq!(nearest_distance(&one, &(x, y)), nearest_distance(&other, &(x, y)));
        }
    }
}

#[test]
fn shade_pixel_is_white_with_the_ramp_in_alpha() {
    assert_eq!(shade_pixel(&[(0, 0)], &(0, 0)), [255, 255, 255, 0]);
    assert_eq!(shade_pixel(&[(0, 0)], &(3, 4)), [255, 255, 255, 25]);
    assert_eq!(shade_pixel(&[(0, 0)], &(30, 40)), [255, 255, 255, 255]);
    assert_eq!(shade_pixel(&[(0, 0)], &(60, 0)), [255, 255, 255, 50]);
}

#[test]
fn single_point_at_the_origin() {
    let canvas = painted(&[still(0, 0)], 10, 10);
    assert_eq!(canvas.pixel(0, 0), Some([255, 255, 255, 0]));
    assert_eq!(canvas.pixel(3, 4), Some([255, 255, 255, 25]));
    assert_eq!(canvas.pixel(9, 9), Some([255, 255, 255, 61]));
}

#[test]
fn two_points_equally_near() {
    let canvas = painted(&[still(0, 0), still(9, 9)], 10, 10);
    assert_eq!(canvas.pixel(9, 0), Some([255, 255, 255, 45]));
    assert_eq!(canvas.pixel(0, 9), Some([255, 255, 255, 45]));
    assert_eq!(canvas.pixel(0, 0), Some([255, 255, 255, 0]));
    assert_eq!(canvas.pixel(9, 9), Some([255, 255, 255, 0]));
    assert_eq!(canvas.pixel(8, 9), Some([255, 255, 255, 5]));
    let swapped = painted(&[still(9, 9), still(0, 0)], 10, 10);
    assert_eq!(canvas.as_bytes(), swapped.as_bytes());
}

#[test]
fn render_twice_gives_the_same_bytes() {
    let points = [still(3, 3), still(17, 5), Point::new(8, 19, 99, 99)];
    let mut canvas = Canvas::new(24, 20).unwrap();
    render(&points, &mut canvas);
    let first: Vec<u8> = canvas.as_bytes().to_vec();
    render(&points, &mut canvas);
    assert_eq!(canvas.as_bytes(), first.as_slice());
    let fresh = painted(&points, 24, 20);
    assert_eq!(fresh.as_bytes(), first.as_slice());
}

#[test]
fn render_leaves_nothing_of_the_frame_before() {
    let points = [still(2, 1)];
    let mut canvas = Canvas::new(6, 4).unwrap();
    for index in 0..24usize {
        canvas.put(index, [1, 2, 3, 4]);
    }
    render(&points, &mut canvas);
    let fresh = painted(&points, 6, 4);
    assert_eq!(canvas.as_bytes(), fresh.as_bytes());
    assert_eq!(canvas.width(), 6);
    assert_eq!(canvas.height(), 4);
}

#[test]
fn render_does_not_touch_the_points() {
    let points = vec![Point::new(3, 3, 99, 99), Point::new(1, 8, 80, 0)];
    let field = PointField::from_points(points.clone());
    let mut canvas = Canvas::new(10, 10).unwrap();
    render(field.points(), &mut canvas);
    assert_eq!(field.points(), points.as_slice());
}

#[test]
fn render_agrees_with_the_least_of_all_distances() {
    let places: [(u32, u32); 5] = [(3, 3), (17, 5), (8, 19), (30, 30), (17, 5)];
    let points: Vec<Point> = places.iter().map(|p| still(p.0, p.1)).collect();
    let (width, height) = (40u32, 33u32);
    let canvas = painted(&points, width, height);
    let bytes = canvas.as_bytes();
    assert_eq!(bytes.len(), (width * height * 4) as usize);
    for (index, pixel) in bytes.chunks_exact(4).enumerate() {
        let x = (index % width as usize) as f64;
        let y = (index / width as usize) as f64;
        let mut list: Vec<u32> = places
            .iter()
            .map(|p| ((p.0 as f64 - x).powi(2) + (p.1 as f64 - y).powi(2)).sqrt() as u32)
            .collect();
        list.sort();
        let least = list[0];
        assert!(least <= 50);
        let alpha = (least as f64 * 255.0 / 50.0) as u8;
        assert_eq!(pixel, [255, 255, 255, alpha].as_slice(), "pixel {}", index);
    }
}

#[test]
fn render_paints_every_pixel_white() {
    let canvas = painted(&[still(100, 7)], 31, 9);
    assert_eq!(canvas.as_bytes().len(), 31 * 9 * 4);
    for pixel in canvas.as_bytes().chunks_exact(4) {
        assert_eq!(pixel[..3], [255, 255, 255]);
    }
}

#[test]
fn render_is_dark_under_every_point() {
    let field = PointField::initialize(50, 40, 40);
    let mut canvas = Canvas::new(40, 40).unwrap();
    render(field.points(), &mut canvas);
    for point in field.points() {
        assert_eq!(canvas.pixel(point.x, point.y), Some([255, 255, 255, 0]));
    }
}

#[test]
fn render_keeps_the_low_byte_far_from_every_point() {
    let canvas = painted(&[still(0, 0)], 600, 1);
    assert_eq!(canvas.pixel(50, 0), Some([255, 255, 255, 255]));
    assert_eq!(canvas.pixel(51, 0), Some([255, 255, 255, 4]));
    assert_eq!(canvas.pixel(60, 0), Some([255, 255, 255, 50]));
    assert_eq!(canvas.pixel(255, 0), Some([255, 255, 255, 20]));
    assert_eq!(canvas.pixel(256, 0), Some([255, 255, 255, 0]));
    assert_eq!(canvas.pixel(259, 0), Some([255, 255, 255, 15]));
    assert_eq!(canvas.pixel(562, 0), Some([255, 255, 255, 255]));
}

#[test]
fn render_with_points_off_the_canvas() {
    let canvas = painted(&[still(13, 4), still(1000, 1000)], 10, 10);
    assert_eq!(canvas.pixel(9, 4), Some([255, 255, 255, 20]));
    assert_eq!(canvas.pixel(9, 0), Some([255, 255, 255, 25]));
    let far = painted(&[still(u32::MAX, u32::MAX)], 2, 2);
    // The diagonal to the far corner of the grid is 6074000998 pixels. Its
    // low byte is 102, which the ramp takes to 520, of which 8 is left.
    assert_eq!(far.pixel(0, 0), Some([255, 255, 255, 8]));
}

#[test]
fn render_on_a_canvas_without_pixels() {
    let mut canvas = Canvas::new(0, 0).unwrap();
    render(&[still(1, 1)], &mut canvas);
    assert!(canvas.as_bytes().is_empty());
    let mut flat = Canvas::new(5, 0).unwrap();
    render(&[still(1, 1)], &mut flat);
    assert!(flat.as_bytes().is_empty());
}

#[test]
fn render_follows_the_points_as_they_move() {
    let mut field = PointField::from_points(vec![Point::new(0, 0, 80, 40)]);
    let mut canvas = Canvas::new(8, 8).unwrap();
    render(field.points(), &mut canvas);
    assert_eq!(canvas.pixel(0, 0), Some([255, 255, 255, 0]));
    assert_eq!(canvas.pixel(3, 0), Some([255, 255, 255, 15]));
    for _ in 0..3 {
        field.advance();
    }
    render(field.points(), &mut canvas);
    assert_eq!(canvas.pixel(3, 0), Some([255, 255, 255, 0]));
    assert_eq!(canvas.pixel(0, 0), Some([255, 255, 255, 15]));
    assert_eq!(canvas.pixel(3, 4), Some([255, 255, 255, 20]));
}

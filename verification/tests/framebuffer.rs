use rsquake::bezier::BezierCurve;
use rsquake::framebuffer::Framebuffer;
use rsquake::palette::Palette;
use rsquake::vertex::Vertex;

/// A palette whose entry `i` is `(i, i/2, 255 - i)`, so lookups are easy
/// to predict and no two entries collide.
fn test_palette() -> Palette {
    let mut bytes = Vec::new();
    for i in 0..256u32 {
        bytes.push(i as u8);
        bytes.push((i / 2) as u8);
        bytes.push((255 - i) as u8);
    }
    Palette::new(&bytes).unwrap()
}

fn test_framebuffer(w: usize, h: usize) -> Framebuffer {
    Framebuffer::new(w, h, test_palette())
}

#[test]
fn create_framebuffer() {
    let h = 20;
    let w = 16;

    let mut fb = test_framebuffer(w, h);
    for i in 0..w {
        for j in 0..h {
            fb.set(i, j, 20);
        }
    }

    assert_eq!(fb.get(w - 1, h - 1), 20);
}

#[test]
fn to_bytes() {
    let w = 200;
    let sz = w * w * 4;
    let palette_index = 4;

    let mut fb = test_framebuffer(w, w);
    fb.fill(palette_index);
    let p = fb.palette.get(palette_index);
    fb.swap_buffers();
    let bytes = fb.color_buffer();
    assert_eq!(bytes.len(), sz);
    for b in bytes.chunks(4) {
        assert_eq!(b[0], p.r);
        assert_eq!(b[1], p.g);
        assert_eq!(b[2], p.b);
        assert_eq!(b[3], 0);
    }
}

#[test]
fn test_set() {
    let w = 20;
    let h = 16;
    let mut fb = test_framebuffer(w, h);

    for y in 0..h {
        for x in 0..w {
            fb.set(x, y, 3);
        }
    }

    for p in fb.pixels() {
        assert_eq!(*p, 3);
    }
}

#[test]
fn new_framebuffer_is_zeroed() {
    let fb = test_framebuffer(7, 5);
    assert_eq!(fb.width(), 7);
    assert_eq!(fb.height(), 5);
    assert_eq!(fb.pixels().len(), 35);
    assert_eq!(fb.color_buffer().len(), 140);
    assert!(fb.pixels().iter().all(|p| *p == 0));
}

#[test]
fn swap_buffers_translates_each_pixel() {
    let mut fb = test_framebuffer(3, 1);
    fb.set(0, 0, 0);
    fb.set(1, 0, 10);
    fb.set(2, 0, 255);
    fb.swap_buffers();
    let bytes = fb.color_buffer();
    // entry i of the test palette is (i, i/2, 255 - i)
    assert_eq!(&bytes[0..4], &[0, 0, 255, 0]);
    assert_eq!(&bytes[4..8], &[10, 5, 245, 0]);
    assert_eq!(&bytes[8..12], &[255, 127, 0, 0]);
}

#[test]
fn swap_buffers_twice_is_identical() {
    let mut fb = test_framebuffer(9, 6);
    fb.rect(1, 1, 4, 2, 13);
    fb.line(0, 0, 8, 4, 200);
    fb.swap_buffers();
    let first: Vec<u8> = fb.color_buffer().to_vec();
    fb.swap_buffers();
    let second: Vec<u8> = fb.color_buffer().to_vec();
    assert_eq!(first, second);
}

#[test]
fn rect_paints_both_edges_inclusive() {
    let mut fb = test_framebuffer(6, 6);
    fb.rect(1, 2, 2, 1, 9);
    // width + 1 = 3 columns and height + 1 = 2 rows are painted
    for y in 0..6 {
        for x in 0..6 {
            let expected = (1..=3).contains(&x) && (2..=3).contains(&y);
            assert_eq!(fb.get(x, y) == 9, expected, "at ({}, {})", x, y);
        }
    }
}

#[test]
fn line_follows_bresenham_rows() {
    let mut fb = test_framebuffer(6, 6);
    fb.line(0, 0, 5, 3, 9);
    let painted = [(0, 0), (1, 1), (2, 1), (3, 2), (4, 2)];
    for y in 0..6 {
        for x in 0..6 {
            let expected = painted.contains(&(x, y));
            assert_eq!(fb.get(x, y) == 9, expected, "at ({}, {})", x, y);
        }
    }
}

#[test]
fn bre_line_matches_line() {
    let mut a = test_framebuffer(8, 8);
    let mut b = test_framebuffer(8, 8);
    a.line(1, 2, 7, 5, 4);
    b.bre_line(1, 2, 7, 5, 4);
    assert_eq!(a.pixels(), b.pixels());
}

#[test]
fn horizontal_line_stays_on_its_row() {
    let mut fb = test_framebuffer(6, 3);
    fb.line(1, 1, 5, 1, 8);
    for x in 1..5 {
        assert_eq!(fb.get(x, 1), 8);
    }
    assert_eq!(fb.get(5, 1), 0);
    assert_eq!(fb.get(0, 1), 0);
    assert_eq!(fb.get(2, 0), 0);
    assert_eq!(fb.get(2, 2), 0);
}

#[test]
fn triangle_inside_and_outside() {
    let mut fb = test_framebuffer(8, 8);
    let v1 = Vertex::new(0, 0);
    let v2 = Vertex::new(4, 0);
    let v3 = Vertex::new(0, 4);
    fb.triangle(v1, v2, v3, 6);
    // interior point is painted, exterior point is not
    assert_eq!(fb.get(1, 1), 6);
    assert_eq!(fb.get(3, 3), 0);
    // the exact painted set follows the edge test: x + y <= 4
    for y in 0..8 {
        for x in 0..8 {
            let expected = x + y <= 4;
            assert_eq!(fb.get(x, y) == 6, expected, "at ({}, {})", x, y);
        }
    }
}

#[test]
fn degenerate_triangle_paints_nothing() {
    let mut fb = test_framebuffer(8, 8);
    fb.triangle(Vertex::new(0, 0), Vertex::new(2, 2), Vertex::new(4, 4), 6);
    assert!(fb.pixels().iter().all(|p| *p == 0));
}

#[test]
fn triangle_is_clipped_to_the_plane() {
    let mut fb = test_framebuffer(3, 3);
    fb.triangle(Vertex::new(0, 0), Vertex::new(6, 0), Vertex::new(0, 6), 6);
    // every on-plane pixel satisfies x + y <= 6 here, so all are painted
    assert!(fb.pixels().iter().all(|p| *p == 6));
}

#[test]
fn gradient_steps_through_the_palette() {
    let mut fb = test_framebuffer(4, 2);
    fb.draw_gradient(10, 14);
    for y in 0..2 {
        for x in 0..4 {
            assert_eq!(fb.get(x, y), 10 + x as u8);
        }
    }
}

#[test]
fn bezier_paints_both_endpoints() {
    let mut fb = test_framebuffer(8, 8);
    let curve = BezierCurve::new(Vertex::new(0, 0), Vertex::new(4, 0), Vertex::new(6, 6));
    fb.bezier(curve, 8, 3);
    assert_eq!(fb.get(0, 0), 3);
    assert_eq!(fb.get(6, 6), 3);
}

#[test]
fn bezier_curve_evaluates_endpoints_exactly() {
    let curve = BezierCurve::new(Vertex::new(1, 2), Vertex::new(9, 0), Vertex::new(5, 7));
    let first = curve.evaluate(0, 16);
    let last = curve.evaluate(16, 16);
    assert_eq!((first.x, first.y), (1, 2));
    assert_eq!((last.x, last.y), (5, 7));
}

#[test]
fn bezier_approximate_includes_endpoints() {
    let curve = BezierCurve::new(Vertex::new(0, 0), Vertex::new(2, 8), Vertex::new(8, 4));
    let pts = curve.approximate(4);
    assert_eq!(pts.len(), 5);
    assert_eq!((pts[0].x, pts[0].y), (0, 0));
    assert_eq!((pts[4].x, pts[4].y), (8, 4));
    // the midpoint of a quadratic curve: (start + 2 * control + end) / 4
    assert_eq!((pts[2].x, pts[2].y), (3, 5));
}

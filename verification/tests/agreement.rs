use kurbo::{CubicBez, Line, ParamCurve, ParamCurveNearest, PathSeg, QuadBez, Rect as KRect};
use outline_shaping::collision::segments_cross;
use outline_shaping::geometry::{Point, Rect, Segment};
use outline_shaping::proximity::{coarse_estimate, line_line_distance, point_segment_distance_sq};

/// A small generator of numbers that look random and are the same on
/// every run.
struct Numbers(u64);

impl Numbers {
    fn next(&mut self) -> u64 {
        self.0 = self.0.wrapping_mul(6364136223846793005).wrapping_add(1442695040888963407);
        self.0 >> 33
    }

    fn coordinate(&mut self, reach: i64) -> i64 {
        (self.next() % (2 * reach as u64 + 1)) as i64 - reach
    }

    fn point(&mut self, reach: i64) -> Point {
        Point { x: self.coordinate(reach), y: self.coordinate(reach) }
    }
}

fn k(p: Point) -> kurbo::Point {
    kurbo::Point::new(p.x as f64, p.y as f64)
}

fn between(cut: u128, exact: f64) -> bool {
    let slack = 1e-6 * (1.0 + exact.abs());
    (cut as f64) <= exact + slack && exact - slack < (cut + 1) as f64
}

#[test]
fn distance_from_a_point_to_a_line_agrees_with_kurbo() {
    let mut numbers = Numbers(1);
    for round in 0..3000 {
        let reach = if round % 2 == 0 { 8 } else { 5000 };
        let (p, a, b) = (numbers.point(reach), numbers.point(reach), numbers.point(reach));
        let ours = point_segment_distance_sq(&p, &a, &b);
        let theirs = Line::new(k(a), k(b)).nearest(k(p), 1.0).distance_sq;
        assert!(between(ours, theirs), "{:?} {:?} {:?}: {} against {}", p, a, b, ours, theirs);
    }
}

#[test]
fn distance_between_lines_agrees_with_kurbo() {
    let mut numbers = Numbers(2);
    for round in 0..3000 {
        let reach = if round % 2 == 0 { 8 } else { 5000 };
        let (a0, a1) = (numbers.point(reach), numbers.point(reach));
        let (b0, b1) = (numbers.point(reach), numbers.point(reach));
        let ours = line_line_distance(&a0, &a1, &b0, &b1);
        let l1 = Line::new(k(a0), k(a1));
        let l2 = Line::new(k(b0), k(b1));
        let theirs = l1
            .nearest(l2.p0, 1.0)
            .distance_sq
            .min(l1.nearest(l2.p1, 1.0).distance_sq)
            .min(l2.nearest(l1.p0, 1.0).distance_sq)
            .min(l2.nearest(l1.p1, 1.0).distance_sq)
            .sqrt();
        assert!(between(ours as u128, theirs), "{} against {}", ours, theirs);
    }
}

#[test]
fn crossing_of_edges_agrees_with_kurbo() {
    let mut numbers = Numbers(3);
    let mut crossings = 0;
    for _ in 0..5000 {
        let (a0, a1) = (numbers.point(6), numbers.point(6));
        let (b0, b1) = (numbers.point(6), numbers.point(6));
        let ours = segments_cross(&a0, &a1, &b0, &b1);
        let theirs =
            !PathSeg::Line(Line::new(k(a0), k(a1))).intersect_line(Line::new(k(b0), k(b1))).is_empty();
        assert_eq!(ours, theirs, "{:?} {:?} {:?} {:?}", a0, a1, b0, b1);
        if ours {
            crossings += 1;
        }
    }
    assert!(crossings > 500);
}

#[test]
fn samples_of_segments_agree_with_kurbo() {
    let mut numbers = Numbers(4);
    for _ in 0..1000 {
        let p: Vec<Point> = (0..4).map(|_| numbers.point(1000)).collect();
        let shapes = [
            (Segment::Line { p0: p[0], p1: p[1] }, PathSeg::Line(Line::new(k(p[0]), k(p[1])))),
            (
                Segment::Quad { p0: p[0], p1: p[1], p2: p[2] },
                PathSeg::Quad(QuadBez::new(k(p[0]), k(p[1]), k(p[2]))),
            ),
            (
                Segment::Cubic { p0: p[0], p1: p[1], p2: p[2], p3: p[3] },
                PathSeg::Cubic(CubicBez::new(k(p[0]), k(p[1]), k(p[2]), k(p[3]))),
            ),
        ];
        for (ours, theirs) in shapes {
            for half in 0..3u8 {
                let (x8, y8) = ours.sample8(half);
                let at = theirs.eval(half as f64 / 2.0);
                assert_eq!(x8 as f64, 8.0 * at.x);
                assert_eq!(y8 as f64, 8.0 * at.y);
            }
        }
    }
}

#[test]
fn coarse_estimate_agrees_with_kurbo() {
    let mut numbers = Numbers(5);
    for _ in 0..1000 {
        let p: Vec<Point> = (0..7).map(|_| numbers.point(1000)).collect();
        let ours = coarse_estimate(
            &Segment::Quad { p0: p[0], p1: p[1], p2: p[2] },
            &Segment::Cubic { p0: p[3], p1: p[4], p2: p[5], p3: p[6] },
        );
        let a = QuadBez::new(k(p[0]), k(p[1]), k(p[2]));
        let b = CubicBez::new(k(p[3]), k(p[4]), k(p[5]), k(p[6]));
        let mut theirs = f64::MAX;
        for s in [0.0, 0.5, 1.0] {
            for t in [0.0, 0.5, 1.0] {
                theirs = theirs.min(a.eval(s).distance(b.eval(t)));
            }
        }
        // Ours is the square of eight times the distance, and exact.
        let exact = (ours as f64).sqrt() / 8.0;
        assert!((exact - theirs).abs() < 1e-6 * (1.0 + theirs), "{} against {}", exact, theirs);
    }
}

#[test]
fn rectangles_agree_with_kurbo() {
    let mut numbers = Numbers(6);
    for _ in 0..3000 {
        let c: Vec<i64> = (0..8).map(|_| numbers.coordinate(20)).collect();
        let a = Rect::from_points(c[0], c[1], c[2], c[3]);
        let b = Rect::from_points(c[4], c[5], c[6], c[7]);
        let ka = KRect::from_points((c[0] as f64, c[1] as f64), (c[2] as f64, c[3] as f64));
        let kb = KRect::from_points((c[4] as f64, c[5] as f64), (c[6] as f64, c[7] as f64));
        assert_eq!((a.x0 as f64, a.y0 as f64, a.x1 as f64, a.y1 as f64), (ka.x0, ka.y0, ka.x1, ka.y1));
        let shared = a.intersect(&b);
        let kshared = ka.intersect(kb);
        assert_eq!(
            (shared.x0 as f64, shared.y0 as f64, shared.x1 as f64, shared.y1 as f64),
            (kshared.x0, kshared.y0, kshared.x1, kshared.y1)
        );
        assert_eq!(shared.has_no_area(), kshared.area() == 0.0);
    }
}

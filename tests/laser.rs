use laser_puzzle::laser::{normalize, reflect, trace, Hit, Normal, Vector, MAX_BOUNCES, MAX_DISTANCE};

fn v(x: i64, y: i64) -> Vector {
    Vector { x, y }
}

#[test]
fn reflection_keeps_length() {
    let d = v(3, -2);
    for n in [
        Normal::East,
        Normal::West,
        Normal::North,
        Normal::South,
        Normal::NorthEast,
        Normal::NorthWest,
        Normal::SouthEast,
        Normal::SouthWest,
    ] {
        let r = reflect(d, n);
        assert_eq!(r.x * r.x + r.y * r.y, d.x * d.x + d.y * d.y);
    }
}

#[test]
fn reflection_values() {
    assert_eq!(reflect(v(1, 0), Normal::West), v(-1, 0));
    assert_eq!(reflect(v(1, 0), Normal::NorthWest), v(0, 1));
    assert_eq!(reflect(v(1, 0), Normal::SouthWest), v(0, -1));
    assert_eq!(reflect(v(0, 1), Normal::South), v(0, -1));
    assert_eq!(reflect(v(2, 5), Normal::NorthEast), v(-5, -2));
}

#[test]
fn normalize_values() {
    assert_eq!(normalize(v(6, 0)), v(1, 0));
    assert_eq!(normalize(v(-4, 6)), v(-2, 3));
    assert_eq!(normalize(v(0, -7)), v(0, -1));
    assert_eq!(normalize(v(5, 5)), v(1, 1));
}

#[test]
fn trace_through_empty_grid() {
    let cast = |_o: Vector, _d: Vector| -> Option<Hit> { None };
    let path = trace(&cast, v(0, 0), v(1, 0));
    assert_eq!(path, vec![v(0, 0), v(MAX_DISTANCE, 0)]);
}

#[test]
fn trace_into_blocking_cell() {
    // A blocking cell whose near face is the line x == 4.
    let cast = |o: Vector, d: Vector| -> Option<Hit> {
        if d.x > 0 && o.x < 4 && o.y == 0 {
            Some(Hit { point: v(4, 0), normal: Normal::West })
        } else {
            None
        }
    };
    let path = trace(&cast, v(0, 0), v(3, 0));
    assert_eq!(path.len(), 3);
    assert_eq!(path[1], v(4, 0));
    let last = path[2];
    let before = path[1];
    let out = v(last.x - before.x, last.y - before.y);
    // the last segment runs back along -x
    assert!(out.x < 0 && out.y == 0);
    assert_eq!(path[2], v(3 - MAX_DISTANCE, 0));
}

#[test]
fn trace_off_a_mirror() {
    let cast = |o: Vector, d: Vector| -> Option<Hit> {
        if d == v(1, 0) && o.x < 2 {
            Some(Hit { point: v(2, 0), normal: Normal::NorthWest })
        } else {
            None
        }
    };
    let path = trace(&cast, v(0, 0), v(1, 0));
    assert_eq!(path, vec![v(0, 0), v(2, 0), v(2, 1 + MAX_DISTANCE)]);
}

#[test]
fn trapped_beam_stops_at_the_cap() {
    let cast = |_o: Vector, d: Vector| -> Option<Hit> {
        let normal = if d.x > 0 { Normal::West } else { Normal::East };
        Some(Hit { point: v(0, 0), normal })
    };
    let path = trace(&cast, v(0, 0), v(1, 0));
    assert_eq!(path.len(), MAX_BOUNCES + 1);
    assert_eq!(path[MAX_BOUNCES], v(0, 0));
}

use vstd::prelude::*;
use vstd::arithmetic::div_mod::{lemma_fundamental_div_mod, lemma_mod_multiples_basic, lemma_mod_self_0};

verus! {

/// How far the last, escaping segment of a beam reaches.
pub const MAX_DISTANCE: i64 = 1000;

/// The most bounces a beam makes before it counts as trapped.
pub const MAX_BOUNCES: usize = 100;

/// The largest absolute coordinate of a point or direction handed to the
/// engine.
pub const COORD_LIMIT: i64 = 1000000000;

/// A 2D vector (point or direction) on the integer lattice.
#[derive(Debug, PartialEq, Eq, Structural, Clone, Copy)]
pub struct Vector {
    pub x: i64,
    pub y: i64,
}

/// The outward normal of a struck face: axis-aligned for the faces of a
/// blocking cell, diagonal for the two faces of a mirror.
#[derive(Debug, PartialEq, Eq, Structural, Clone, Copy)]
pub enum Normal {
    East,
    West,
    North,
    South,
    NorthEast,
    NorthWest,
    SouthEast,
    SouthWest,
}

/// What the ray cast reports: the nearest struck point and the normal there.
#[derive(Debug, PartialEq, Eq, Structural, Clone, Copy)]
pub struct Hit {
    pub point: Vector,
    pub normal: Normal,
}

/// The normal as a lattice vector: unit length for an axis, `(±1, ±1)` for a
/// diagonal.
pub open spec fn normal_vec(n: Normal) -> (int, int) {
    match n {
        Normal::East => (1, 0),
        Normal::West => (-1, 0),
        Normal::North => (0, 1),
        Normal::South => (0, -1),
        Normal::NorthEast => (1, 1),
        Normal::NorthWest => (-1, 1),
        Normal::SouthEast => (1, -1),
        Normal::SouthWest => (-1, -1),
    }
}

pub open spec fn dot(a: (int, int), b: (int, int)) -> int {
    a.0 * b.0 + a.1 * b.1
}

pub open spec fn vec_of(v: Vector) -> (int, int) {
    (v.x as int, v.y as int)
}

/// The law of reflection `d - 2 (n . d) / (n . n) n`, exact on the lattice for
/// the eight normals.
pub open spec fn reflection(d: (int, int), n: (int, int)) -> (int, int) {
    let k = 2 * dot(n, d) / dot(n, n);
    (d.0 - k * n.0, d.1 - k * n.1)
}

pub open spec fn bounded(v: Vector) -> bool {
    -COORD_LIMIT <= v.x <= COORD_LIMIT && -COORD_LIMIT <= v.y <= COORD_LIMIT
}

/// Reflects a direction off a face with the given normal.
pub fn reflect(d: Vector, n: Normal) -> (r: Vector)
    requires
        bounded(d),
    ensures
        vec_of(r) == reflection(vec_of(d), normal_vec(n)),
        bounded(r),
{
    let r = match n {
        Normal::East | Normal::West => Vector { x: -d.x, y: d.y },
        Normal::North | Normal::South => Vector { x: d.x, y: -d.y },
        Normal::NorthEast | Normal::SouthWest => Vector { x: -d.y, y: -d.x },
        Normal::NorthWest | Normal::SouthEast => Vector { x: d.y, y: d.x },
    };
    proof {
        let dv = vec_of(d);
        let nv = normal_vec(n);
        assert(dot(nv, nv) == 1 || dot(nv, nv) == 2);
        if dot(nv, nv) == 2 {
            assert(2 * dot(nv, dv) / 2 == dot(nv, dv));
        }
    }
    r
}

/// Reflection keeps a direction's length: `|d'|^2 == |d|^2` for every
/// direction and each of the eight normals.
pub proof fn lemma_reflection_preserves_length(d: (int, int), n: Normal)
    ensures
        dot(reflection(d, normal_vec(n)), reflection(d, normal_vec(n))) == dot(d, d),
{
    let nv = normal_vec(n);
    let r = reflection(d, nv);
    if dot(nv, nv) == 2 {
        assert(2 * dot(nv, d) / 2 == dot(nv, d));
    }
    assert(dot(r, r) == dot(d, d)) by (nonlinear_arith)
        requires
            r == reflection(d, nv),
            nv.0 == 1 || nv.0 == -1 || nv.0 == 0,
            nv.1 == 1 || nv.1 == -1 || nv.1 == 0,
            dot(nv, nv) == 1 ==> 2 * dot(nv, d) / dot(nv, nv) == 2 * dot(nv, d),
            dot(nv, nv) == 2 ==> 2 * dot(nv, d) / dot(nv, nv) == dot(nv, d),
            dot(nv, nv) == 1 || dot(nv, nv) == 2,
    ;
}

/// Greatest common divisor, by Euclid's algorithm.
pub open spec fn gcd(a: nat, b: nat) -> nat
    decreases b,
{
    if b == 0 {
        a
    } else {
        gcd(b, a % b)
    }
}

proof fn lemma_gcd_divides(a: nat, b: nat)
    requires
        a > 0 || b > 0,
    ensures
        gcd(a, b) > 0,
        a % gcd(a, b) == 0,
        b % gcd(a, b) == 0,
    decreases b,
{
    if b == 0 {
        lemma_mod_self_0(a as int);
    } else {
        lemma_gcd_divides(b, a % b);
        let g = gcd(b, a % b) as int;
        let q = a as int / b as int;
        let r = a as int % b as int;
        lemma_fundamental_div_mod(a as int, b as int);
        lemma_fundamental_div_mod(b as int, g);
        lemma_fundamental_div_mod(r, g);
        let m = b as int / g;
        let k = r / g;
        assert(a == (m * q + k) * g) by (nonlinear_arith)
            requires
                a == b * q + r,
                b == g * m + 0,
                r == g * k + 0,
        ;
        lemma_mod_multiples_basic(m * q + k, g);
    }
}

fn gcd_u64(a: u64, b: u64) -> (r: u64)
    ensures
        r == gcd(a as nat, b as nat),
{
    let mut x = a;
    let mut y = b;
    while y != 0
        invariant
            gcd(x as nat, y as nat) == gcd(a as nat, b as nat),
        decreases y,
    {
        let t = x % y;
        x = y;
        y = t;
    }
    x
}

pub open spec fn abs(v: int) -> nat {
    if v < 0 {
        (-v) as nat
    } else {
        v as nat
    }
}

/// `v / g` with the sign of `v`.
pub open spec fn signed_div(v: int, g: nat) -> int {
    if v < 0 {
        -(abs(v) / g) as int
    } else {
        (abs(v) / g) as int
    }
}

/// The shortest lattice vector in the direction of `d`: both components
/// divided by their greatest common divisor.
pub open spec fn normalized(d: Vector) -> (int, int) {
    let g = gcd(abs(d.x as int), abs(d.y as int));
    (signed_div(d.x as int, g), signed_div(d.y as int, g))
}

/// Scales a nonzero direction down to the shortest lattice vector that
/// points the same way.
pub fn normalize(d: Vector) -> (r: Vector)
    requires
        bounded(d),
        d.x != 0 || d.y != 0,
    ensures
        vec_of(r) == normalized(d),
        bounded(r),
        r.x != 0 || r.y != 0,
        ({
            let g = gcd(abs(d.x as int), abs(d.y as int)) as int;
            g > 0 && r.x * g == d.x && r.y * g == d.y
        }),
{
    let ax: u64 = if d.x < 0 { (-d.x) as u64 } else { d.x as u64 };
    let ay: u64 = if d.y < 0 { (-d.y) as u64 } else { d.y as u64 };
    let g = gcd_u64(ax, ay);
    proof {
        lemma_gcd_divides(ax as nat, ay as nat);
        lemma_fundamental_div_mod(ax as int, g as int);
        lemma_fundamental_div_mod(ay as int, g as int);
    }
    let qx = ax / g;
    let qy = ay / g;
    assert(qx <= ax && qy <= ay) by (nonlinear_arith)
        requires
            g > 0,
            qx == ax / g,
            qy == ay / g,
    ;
    let rx: i64 = if d.x < 0 { -(qx as i64) } else { qx as i64 };
    let ry: i64 = if d.y < 0 { -(qy as i64) } else { qy as i64 };
    let r = Vector { x: rx, y: ry };
    assert(r.x * g == d.x && r.y * g == d.y) by (nonlinear_arith)
        requires
            ax == g * qx,
            ay == g * qy,
            d.x < 0 ==> ax == -d.x && rx == -qx,
            d.x >= 0 ==> ax == d.x && rx == qx,
            d.y < 0 ==> ay == -d.y && ry == -qy,
            d.y >= 0 ==> ay == d.y && ry == qy,
            r.x == rx,
            r.y == ry,
    ;
    r
}

/// Where the beam goes after striking `h` while travelling along `d`: it
/// leaves in the reflected direction, from one step past the struck point.
pub open spec fn bounce(d: (int, int), h: Hit) -> ((int, int), (int, int)) {
    let d2 = reflection(d, normal_vec(h.normal));
    ((h.point.x + d2.0, h.point.y + d2.1), d2)
}

/// The ray (origin, direction) that the beam follows after the given hits.
pub open spec fn ray_after(o: (int, int), d: (int, int), hits: Seq<Hit>) -> ((int, int), (int, int))
    decreases hits.len(),
{
    if hits.len() == 0 {
        (o, d)
    } else {
        let prev = ray_after(o, d, hits.drop_last());
        bounce(prev.1, hits.last())
    }
}

/// The polyline of a beam: the entry point, each struck point, and, when the
/// beam escaped, the point `MAX_DISTANCE` steps along its last ray.
pub open spec fn path_of(o: (int, int), d: (int, int), hits: Seq<Hit>) -> Seq<(int, int)> {
    let inner = seq![o] + hits.map_values(|h: Hit| vec_of(h.point));
    if hits.len() < MAX_BOUNCES {
        let last = ray_after(o, d, hits);
        inner.push(
            (last.0.0 + MAX_DISTANCE * last.1.0, last.0.1 + MAX_DISTANCE * last.1.1),
        )
    } else {
        inner
    }
}

pub open spec fn to_vector(p: (int, int)) -> Vector {
    Vector { x: p.0 as i64, y: p.1 as i64 }
}

/// `hits` is what `cast` reported along the beam that enters at `o` going
/// along `d`: each hit answers the cast of the ray before it, and, if there
/// were fewer than `MAX_BOUNCES`, the last ray's cast reported nothing.
pub open spec fn cast_answers<F: Fn(Vector, Vector) -> Option<Hit>>(
    cast: F,
    o: (int, int),
    d: (int, int),
    hits: Seq<Hit>,
) -> bool {
    &&& hits.len() <= MAX_BOUNCES
    &&& forall|i: int|
        0 <= i < hits.len() ==> {
            let ray = #[trigger] ray_after(o, d, hits.take(i));
            call_ensures(cast, (to_vector(ray.0), to_vector(ray.1)), Some(hits[i]))
        }
    &&& hits.len() < MAX_BOUNCES ==> {
        let ray = ray_after(o, d, hits);
        call_ensures(cast, (to_vector(ray.0), to_vector(ray.1)), None::<Hit>)
    }
}

/// The beam's polyline is the one that `hits`, the cast's answers, give.
pub open spec fn traced_by<F: Fn(Vector, Vector) -> Option<Hit>>(
    cast: F,
    o: (int, int),
    d: (int, int),
    hits: Seq<Hit>,
    points: Seq<Vector>,
) -> bool {
    &&& cast_answers(cast, o, d, hits)
    &&& points.map_values(|p: Vector| vec_of(p)) == path_of(o, d, hits)
}

/// The cast accepts every ray and reports only points within the limits.
pub open spec fn cast_ok<F: Fn(Vector, Vector) -> Option<Hit>>(cast: F) -> bool {
    &&& forall|o: Vector, d: Vector| call_requires(cast, (o, d))
    &&& forall|o: Vector, d: Vector, r: Option<Hit>|
        #[trigger] call_ensures(cast, (o, d), r) ==> (r matches Some(h) ==> bounded(h.point))
}

/// Traces the beam that enters at `origin` along `direction` (normalized
/// first): it asks `cast` for the nearest hit, reflects, and starts again one
/// step past the struck point, until a cast reports nothing (the beam then
/// escapes `MAX_DISTANCE` steps along its ray) or `MAX_BOUNCES` hits have
/// been made (the beam is trapped and the last point is the last hit).
pub fn trace<F: Fn(Vector, Vector) -> Option<Hit>>(cast: &F, origin: Vector, direction: Vector) -> (r:
    Vec<Vector>)
    requires
        cast_ok(*cast),
        bounded(origin),
        bounded(direction),
        direction.x != 0 || direction.y != 0,
    ensures
        exists|hits: Seq<Hit>|
            #[trigger] traced_by(*cast, vec_of(origin), normalized(direction), hits, r@),
        2 <= r@.len() <= MAX_BOUNCES + 1,
        r@[0] == origin,
{
    let dir0 = normalize(direction);
    let ghost o0 = vec_of(origin);
    let ghost d0 = normalized(direction);
    let ghost mut hits: Seq<Hit> = Seq::empty();
    let mut points: Vec<Vector> = Vec::new();
    points.push(origin);
    let mut o = origin;
    let mut d = dir0;
    let mut bounces: usize = 0;
    assert(points@.map_values(|p: Vector| vec_of(p)) =~= seq![o0] + hits.map_values(
        |h: Hit| vec_of(h.point),
    ));
    while bounces < MAX_BOUNCES
        invariant
            cast_ok(*cast),
            bounces == hits.len(),
            bounces <= MAX_BOUNCES,
            o0 == vec_of(origin),
            d0 == normalized(direction),
            ray_after(o0, d0, hits) == (vec_of(o), vec_of(d)),
            -2 * COORD_LIMIT <= o.x <= 2 * COORD_LIMIT,
            -2 * COORD_LIMIT <= o.y <= 2 * COORD_LIMIT,
            bounded(d),
            points@.map_values(|p: Vector| vec_of(p)) == seq![o0] + hits.map_values(
                |h: Hit| vec_of(h.point),
            ),
            points@[0] == origin,
            forall|i: int|
                0 <= i < hits.len() ==> {
                    let ray = #[trigger] ray_after(o0, d0, hits.take(i));
                    call_ensures(*cast, (to_vector(ray.0), to_vector(ray.1)), Some(hits[i]))
                },
        decreases MAX_BOUNCES - bounces,
    {
        let answer = cast(o, d);
        assert(to_vector(vec_of(o)) == o && to_vector(vec_of(d)) == d);
        match answer {
            None => {
                let end = Vector { x: o.x + d.x * MAX_DISTANCE, y: o.y + d.y * MAX_DISTANCE };
                let ghost before = points@.map_values(|p: Vector| vec_of(p));
                points.push(end);
                assert(points@.map_values(|p: Vector| vec_of(p)) =~= before.push(vec_of(end)));
                assert(points@.map_values(|p: Vector| vec_of(p)) =~= path_of(o0, d0, hits));
                assert(traced_by(*cast, o0, d0, hits, points@));
                return points;
            },
            Some(h) => {
                let ghost before = points@.map_values(|p: Vector| vec_of(p));
                let ghost old_hits = hits;
                points.push(h.point);
                let nd = reflect(d, h.normal);
                o = Vector { x: h.point.x + nd.x, y: h.point.y + nd.y };
                d = nd;
                proof {
                    hits = hits.push(h);
                    assert(hits.drop_last() =~= old_hits);
                    assert(hits.take(old_hits.len() as int) =~= old_hits);
                    assert forall|i: int| 0 <= i < old_hits.len() implies hits.take(i)
                        =~= old_hits.take(i) by {}
                    assert(hits.map_values(|h: Hit| vec_of(h.point)) =~= old_hits.map_values(
                        |h: Hit| vec_of(h.point),
                    ).push(vec_of(h.point)));
                    assert(points@.map_values(|p: Vector| vec_of(p)) =~= before.push(
                        vec_of(h.point),
                    ));
                }
                bounces = bounces + 1;
            },
        }
    }
    assert(points@.map_values(|p: Vector| vec_of(p)) =~= path_of(o0, d0, hits));
    assert(traced_by(*cast, o0, d0, hits, points@));
    points
}

} // verus!

//! The lattice layouts that instance templates place their instances on.
use vstd::prelude::*;
use vstd::arithmetic::div_mod::*;

verus! {

/// An instance offset from the template's origin, in whole units.
#[derive(Clone, Copy, Debug, PartialEq, Eq, Structural)]
pub struct LatticePoint {
    pub x: i64,
    pub y: i64,
    pub z: i64,
}

pub open spec fn pt(x: int, y: int, z: int) -> LatticePoint {
    LatticePoint { x: x as i64, y: y as i64, z: z as i64 }
}

/// How a template spreads its instances. Grid and cube sizes are counts of instances
/// along each axis; a circle is given by its reach, the radius rounded up, and its
/// limit, the largest squared distance from the origin that it keeps.
#[derive(Clone, Copy, Debug, PartialEq, Eq, Structural)]
pub enum InstanceTemplate {
    /// A grid in the plane x = 0: `y` columns along y, `z` rows along z.
    GridX(u32, u32),
    /// A grid in the plane y = 0: `x` columns along x, `z` rows along z.
    GridY(u32, u32),
    /// A grid in the plane z = 0: `x` columns along x, `y` rows along y.
    GridZ(u32, u32),
    /// A block of `x` by `y` by `z` instances.
    Cube(u32, u32, u32),
    LineX(u32),
    LineY(u32),
    LineZ(u32),
    /// The lattice points of the plane y = 0 within the circle.
    Circle { reach: i32, limit: i64 },
    Single,
}

/// Whether a point is one that a circle template keeps.
pub open spec fn in_disc(p: LatticePoint, reach: int, limit: int) -> bool {
    &&& -reach <= p.x <= reach
    &&& -reach <= p.z <= reach
    &&& p.y == 0
    &&& p.x * p.x + p.z * p.z <= limit
}

/// Row-major order on the plane y = 0: by x, then by z.
pub open spec fn lex_before(a: LatticePoint, b: LatticePoint) -> bool {
    a.x < b.x || (a.x == b.x && a.z < b.z)
}

/// `s` lists exactly the points of the circle, each once, in row-major order.
pub open spec fn is_disc_listing(s: Seq<LatticePoint>, reach: int, limit: int) -> bool {
    &&& forall|k: int| 0 <= k < s.len() ==> #[trigger] in_disc(s[k], reach, limit)
    &&& forall|p: LatticePoint| #[trigger] in_disc(p, reach, limit) ==> s.contains(p)
    &&& forall|i: int, j: int| 0 <= i < j < s.len() ==> lex_before(s[i], s[j])
}

/// The offsets of the grid, cube, line and single templates, in the order the
/// instances are made.
pub open spec fn spec_offsets(t: InstanceTemplate) -> Seq<LatticePoint> {
    match t {
        InstanceTemplate::GridX(a, b) => Seq::new((a * b) as nat, |n: int| pt(0, n % (a as int), n / (a as int))),
        InstanceTemplate::GridY(a, b) => Seq::new((a * b) as nat, |n: int| pt(n % (a as int), 0, n / (a as int))),
        InstanceTemplate::GridZ(a, b) => Seq::new((a * b) as nat, |n: int| pt(n % (a as int), n / (a as int), 0)),
        InstanceTemplate::Cube(x, y, z) => Seq::new(
            (x * y * z) as nat,
            |n: int| pt(n % (x as int), n / ((x * z) as int), (n / (x as int)) % (z as int)),
        ),
        InstanceTemplate::LineX(c) => Seq::new(c as nat, |n: int| pt(n, 0, 0)),
        InstanceTemplate::LineY(c) => Seq::new(c as nat, |n: int| pt(0, n, 0)),
        InstanceTemplate::LineZ(c) => Seq::new(c as nat, |n: int| pt(0, 0, n)),
        InstanceTemplate::Single => seq![pt(0, 0, 0)],
        InstanceTemplate::Circle { .. } => Seq::empty(),
    }
}

impl InstanceTemplate {
    /// The sizes a template can be laid out with: the instance count of a grid or a cube
    /// fits in 32 bits, and the squared distances of a circle fit in 32 signed bits.
    pub open spec fn wf(self) -> bool {
        match self {
            InstanceTemplate::GridX(a, b) => a * b <= u32::MAX,
            InstanceTemplate::GridY(a, b) => a * b <= u32::MAX,
            InstanceTemplate::GridZ(a, b) => a * b <= u32::MAX,
            InstanceTemplate::Cube(x, y, z) => x * y * z <= u32::MAX,
            InstanceTemplate::Circle { reach, .. } => reach <= 32767,
            _ => true,
        }
    }

    /// The instance offsets from the template's origin. Grids count along their first
    /// axis, then their second; a cube counts along x, then z, then y; a line counts
    /// along its axis; a circle lists its points row by row.
    pub fn offsets(&self) -> (r: Vec<LatticePoint>)
        requires
            self.wf(),
        ensures
            !(*self is Circle) ==> r@ == spec_offsets(*self),
            *self matches InstanceTemplate::Circle { reach, limit } ==> is_disc_listing(
                r@,
                reach as int,
                limit as int,
            ),
    {
        match *self {
            InstanceTemplate::GridX(a, b) => {
                let v = plane_grid(a, b, 0);
                assert(v@ =~= spec_offsets(*self));
                v
            },
            InstanceTemplate::GridY(a, b) => {
                let v = plane_grid(a, b, 1);
                assert(v@ =~= spec_offsets(*self));
                v
            },
            InstanceTemplate::GridZ(a, b) => {
                let v = plane_grid(a, b, 2);
                assert(v@ =~= spec_offsets(*self));
                v
            },
            InstanceTemplate::Cube(x, y, z) => cube_grid(x, y, z),
            InstanceTemplate::LineX(c) => {
                let v = line(c, 0);
                assert(v@ =~= spec_offsets(*self));
                v
            },
            InstanceTemplate::LineY(c) => {
                let v = line(c, 1);
                assert(v@ =~= spec_offsets(*self));
                v
            },
            InstanceTemplate::LineZ(c) => {
                let v = line(c, 2);
                assert(v@ =~= spec_offsets(*self));
                v
            },
            InstanceTemplate::Circle { reach, limit } => disc(reach, limit),
            InstanceTemplate::Single => {
                let mut v: Vec<LatticePoint> = Vec::new();
                v.push(LatticePoint { x: 0, y: 0, z: 0 });
                assert(v@ =~= spec_offsets(*self));
                v
            },
        }
    }
}

/// A point whose coordinates are `u` on the first free axis and `v` on the second,
/// where `axis` is the fixed axis (0 for x, 1 for y, 2 for z).
pub open spec fn plane_point(u: int, v: int, axis: u8) -> LatticePoint {
    if axis == 0 {
        pt(0, u, v)
    } else if axis == 1 {
        pt(u, 0, v)
    } else {
        pt(u, v, 0)
    }
}

fn plane_grid(a: u32, b: u32, axis: u8) -> (r: Vec<LatticePoint>)
    requires
        a * b <= u32::MAX,
        axis <= 2,
    ensures
        r@ == Seq::new((a * b) as nat, |n: int| plane_point(n % (a as int), n / (a as int), axis)),
{
    let total: u32 = a * b;
    let mut v: Vec<LatticePoint> = Vec::new();
    let mut n: u32 = 0;
    while n < total
        invariant
            n <= total,
            total == a * b,
            axis <= 2,
            v@.len() == n,
            forall|k: int| 0 <= k < n ==> v@[k] == plane_point(k % (a as int), k / (a as int), axis),
        decreases total - n,
    {
        assert(a > 0) by (nonlinear_arith)
            requires
                n < total,
                total == a * b,
        ;
        let u: i64 = (n % a) as i64;
        let w: i64 = (n / a) as i64;
        let p = if axis == 0 {
            LatticePoint { x: 0, y: u, z: w }
        } else if axis == 1 {
            LatticePoint { x: u, y: 0, z: w }
        } else {
            LatticePoint { x: u, y: w, z: 0 }
        };
        v.push(p);
        n = n + 1;
    }
    assert(v@ =~= Seq::new((a * b) as nat, |n: int| plane_point(n % (a as int), n / (a as int), axis)));
    v
}

fn cube_grid(x: u32, y: u32, z: u32) -> (r: Vec<LatticePoint>)
    requires
        x * y * z <= u32::MAX,
    ensures
        r@ == spec_offsets(InstanceTemplate::Cube(x, y, z)),
{
    let mut v: Vec<LatticePoint> = Vec::new();
    if y == 0 || x == 0 || z == 0 {
        assert(x * y * z == 0) by (nonlinear_arith)
            requires
                y == 0 || x == 0 || z == 0,
        ;
        assert(v@ =~= spec_offsets(InstanceTemplate::Cube(x, y, z)));
        return v;
    }
    assert(x * z <= x * y * z && x * y <= x * y * z) by (nonlinear_arith)
        requires
            y >= 1,
            z >= 1,
    ;
    let xy: u32 = x * y;
    let total: u32 = xy * z;
    let xz: u32 = x * z;
    assert(xz > 0) by (nonlinear_arith)
        requires
            x > 0,
            z > 0,
            xz == x * z,
    ;
    let mut n: u32 = 0;
    while n < total
        invariant
            n <= total,
            total == x * y * z,
            xz == x * z,
            xz > 0,
            x > 0,
            z > 0,
            v@.len() == n,
            forall|k: int|
                0 <= k < n ==> v@[k] == pt(
                    k % (x as int),
                    k / ((x * z) as int),
                    (k / (x as int)) % (z as int),
                ),
        decreases total - n,
    {
        let p = LatticePoint { x: (n % x) as i64, y: (n / xz) as i64, z: ((n / x) % z) as i64 };
        v.push(p);
        n = n + 1;
    }
    assert(v@ =~= spec_offsets(InstanceTemplate::Cube(x, y, z)));
    v
}

/// A point at `n` along the axis `axis` (0 for x, 1 for y, 2 for z).
pub open spec fn axis_point(n: int, axis: u8) -> LatticePoint {
    if axis == 0 {
        pt(n, 0, 0)
    } else if axis == 1 {
        pt(0, n, 0)
    } else {
        pt(0, 0, n)
    }
}

fn line(count: u32, axis: u8) -> (r: Vec<LatticePoint>)
    requires
        axis <= 2,
    ensures
        r@ == Seq::new(count as nat, |n: int| axis_point(n, axis)),
{
    let mut v: Vec<LatticePoint> = Vec::new();
    let mut n: u32 = 0;
    while n < count
        invariant
            n <= count,
            axis <= 2,
            v@.len() == n,
            forall|k: int| 0 <= k < n ==> v@[k] == axis_point(k, axis),
        decreases count - n,
    {
        let c: i64 = n as i64;
        let p = if axis == 0 {
            LatticePoint { x: c, y: 0, z: 0 }
        } else if axis == 1 {
            LatticePoint { x: 0, y: c, z: 0 }
        } else {
            LatticePoint { x: 0, y: 0, z: c }
        };
        v.push(p);
        n = n + 1;
    }
    assert(v@ =~= Seq::new(count as nat, |n: int| axis_point(n, axis)));
    v
}

/// The points before `c` in row-major order within the circle are exactly those of `s`,
/// each once, in order.
pub open spec fn lists_disc_before(s: Seq<LatticePoint>, reach: int, limit: int, c: LatticePoint) -> bool {
    &&& forall|k: int|
        0 <= k < s.len() ==> #[trigger] in_disc(s[k], reach, limit) && lex_before(s[k], c)
    &&& forall|p: LatticePoint|
        #[trigger] in_disc(p, reach, limit) && lex_before(p, c) ==> s.contains(p)
    &&& forall|i: int, j: int| 0 <= i < j < s.len() ==> lex_before(s[i], s[j])
}

#[verifier::spinoff_prover]
fn disc(reach: i32, limit: i64) -> (r: Vec<LatticePoint>)
    requires
        reach <= 32767,
    ensures
        is_disc_listing(r@, reach as int, limit as int),
{
    let mut v: Vec<LatticePoint> = Vec::new();
    if reach < 0 {
        assert forall|p: LatticePoint| #[trigger] in_disc(p, reach as int, limit as int) implies v@.contains(
            p,
        ) by {}
        return v;
    }
    let r: i64 = reach as i64;
    let mut x: i64 = -r;
    while x <= r
        invariant
            0 <= r <= 32767,
            r == reach,
            -r <= x <= r + 1,
            lists_disc_before(v@, r as int, limit as int, pt(x as int, 0, -r)),
        decreases r + 1 - x,
    {
        let mut z: i64 = -r;
        while z <= r
            invariant
                0 <= r <= 32767,
                r == reach,
                -r <= x <= r,
                -r <= z <= r + 1,
                lists_disc_before(v@, r as int, limit as int, pt(x as int, 0, z as int)),
            decreases r + 1 - z,
        {
            assert(x * x <= 32767 * 32767 && z * z <= 32767 * 32767) by (nonlinear_arith)
                requires
                    -32767 <= x <= 32767,
                    -32767 <= z <= 32767,
            ;
            assert(x * x >= 0 && z * z >= 0) by (nonlinear_arith);
            let d: i64 = x * x + z * z;
            let ghost before = v@;
            let ghost c = pt(x as int, 0, z as int);
            let ghost next = pt(x as int, 0, z + 1);
            if d <= limit {
                v.push(LatticePoint { x, y: 0, z });
                assert(v@[v@.len() - 1] == c);
                assert forall|p: LatticePoint|
                    (#[trigger] in_disc(p, r as int, limit as int) && lex_before(p, next)) implies v@.contains(p) by {
                    if lex_before(p, c) {
                        assert(before.contains(p));
                        let k = choose|k: int| 0 <= k < before.len() && before[k] == p;
                        assert(v@[k] == p);
                    } else {
                        assert(p == c);
                        assert(v@[v@.len() - 1] == p);
                    }
                }
                assert forall|k: int| 0 <= k < v@.len() implies (#[trigger] in_disc(v@[k], r as int, limit as int)
                    && lex_before(v@[k], next)) by {
                    if k < before.len() {
                        assert(v@[k] == before[k]);
                        assert(in_disc(before[k], r as int, limit as int));
                    }
                }
                assert forall|i: int, j: int| 0 <= i < j < v@.len() implies lex_before(v@[i], v@[j]) by {
                    if j < before.len() {
                        assert(v@[i] == before[i] && v@[j] == before[j]);
                    } else {
                        assert(v@[i] == before[i]);
                        assert(in_disc(before[i], r as int, limit as int));
                    }
                }
            } else {
                assert forall|p: LatticePoint|
                    (#[trigger] in_disc(p, r as int, limit as int) && lex_before(p, next)) implies v@.contains(p) by {
                    if !lex_before(p, c) {
                        assert(p == c);
                    }
                }
            }
            z = z + 1;
        }
        let ghost row_end = pt(x as int, 0, r + 1);
        assert(pt(x as int, 0, z as int) == row_end);
        let ghost next_row = pt(x + 1, 0, -r);
        assert forall|p: LatticePoint|
            (#[trigger] in_disc(p, r as int, limit as int) && lex_before(p, next_row)) implies v@.contains(p) by {
            assert(lex_before(p, row_end));
        }
        assert forall|k: int| 0 <= k < v@.len() implies (#[trigger] in_disc(v@[k], r as int, limit as int)
            && lex_before(v@[k], next_row)) by {
            assert(in_disc(v@[k], r as int, limit as int));
            assert(lex_before(v@[k], row_end));
        }
        x = x + 1;
    }
    assert forall|p: LatticePoint| #[trigger] in_disc(p, reach as int, limit as int) implies v@.contains(p) by {
        assert(lex_before(p, pt(r + 1, 0, -r)));
    }
    v
}

/// Two sequences ordered strictly in row-major order that hold the same points are the
/// same sequence.
proof fn sorted_listings_agree(s: Seq<LatticePoint>, t: Seq<LatticePoint>)
    requires
        forall|i: int, j: int| 0 <= i < j < s.len() ==> lex_before(s[i], s[j]),
        forall|i: int, j: int| 0 <= i < j < t.len() ==> lex_before(t[i], t[j]),
        forall|p: LatticePoint| s.contains(p) <==> t.contains(p),
    ensures
        s == t,
    decreases s.len(),
{
    if s.len() == 0 {
        if t.len() > 0 {
            assert(t.contains(t[0]));
        }
        assert(s =~= t);
    } else {
        assert(s.contains(s[0]));
        let j = choose|j: int| 0 <= j < t.len() && t[j] == s[0];
        assert(t.contains(t[0]));
        let i = choose|i: int| 0 <= i < s.len() && s[i] == t[0];
        if j > 0 {
            assert(lex_before(t[0], t[j]));
            if i > 0 {
                assert(lex_before(s[0], s[i]));
            }
        }
        assert(s[0] == t[0]);
        let s1 = s.drop_first();
        let t1 = t.drop_first();
        assert forall|p: LatticePoint| s1.contains(p) <==> t1.contains(p) by {
            if s1.contains(p) {
                let a = choose|a: int| 0 <= a < s1.len() && s1[a] == p;
                assert(s[a + 1] == p);
                assert(lex_before(s[0], s[a + 1]));
                assert(s.contains(p));
                let b = choose|b: int| 0 <= b < t.len() && t[b] == p;
                if b == 0 {
                    assert(false);
                }
                assert(t1[b - 1] == p);
            }
            if t1.contains(p) {
                let a = choose|a: int| 0 <= a < t1.len() && t1[a] == p;
                assert(t[a + 1] == p);
                assert(lex_before(t[0], t[a + 1]));
                assert(t.contains(p));
                let b = choose|b: int| 0 <= b < s.len() && s[b] == p;
                if b == 0 {
                    assert(false);
                }
                assert(s1[b - 1] == p);
            }
        }
        assert forall|a: int, b: int| 0 <= a < b < s1.len() implies lex_before(s1[a], s1[b]) by {
            assert(lex_before(s[a + 1], s[b + 1]));
        }
        assert forall|a: int, b: int| 0 <= a < b < t1.len() implies lex_before(t1[a], t1[b]) by {
            assert(lex_before(t[a + 1], t[b + 1]));
        }
        sorted_listings_agree(s1, t1);
        assert(s =~= t) by {
            assert forall|k: int| 0 <= k < s.len() implies s[k] == t[k] by {
                if k > 0 {
                    assert(s[k] == s1[k - 1]);
                    assert(t[k] == t1[k - 1]);
                }
            }
        }
    }
}

/// A circle's listing is determined by the circle: any two sequences that list its
/// points, each once, in row-major order are equal, so the listing that `offsets`
/// returns is the only one its contract allows.
pub proof fn disc_listing_is_unique(s: Seq<LatticePoint>, t: Seq<LatticePoint>, reach: int, limit: int)
    requires
        is_disc_listing(s, reach, limit),
        is_disc_listing(t, reach, limit),
    ensures
        s == t,
{
    assert forall|p: LatticePoint| s.contains(p) <==> t.contains(p) by {
        if s.contains(p) {
            let k = choose|k: int| 0 <= k < s.len() && s[k] == p;
            assert(in_disc(s[k], reach, limit));
        }
        if t.contains(p) {
            let k = choose|k: int| 0 <= k < t.len() && t[k] == p;
            assert(in_disc(t[k], reach, limit));
        }
    }
    sorted_listings_agree(s, t);
}

/// A circle's listing holds each of its points exactly once.
pub proof fn disc_listing_lists_each_point_once(s: Seq<LatticePoint>, reach: int, limit: int)
    requires
        is_disc_listing(s, reach, limit),
    ensures
        forall|i: int, j: int| 0 <= i < j < s.len() ==> s[i] != s[j],
        forall|p: LatticePoint| #[trigger] in_disc(p, reach, limit) <==> s.contains(p),
{
    assert forall|p: LatticePoint| s.contains(p) implies #[trigger] in_disc(p, reach, limit) by {
        let k = choose|k: int| 0 <= k < s.len() && s[k] == p;
        assert(in_disc(s[k], reach, limit));
    }
    assert forall|i: int, j: int| 0 <= i < j < s.len() implies s[i] != s[j] by {
        assert(lex_before(s[i], s[j]));
    }
}

/// Each line template lays its instances along its own axis, one unit apart, starting
/// at the origin: offset `n` of `LineX(c)` is (n, 0, 0), of `LineY(c)` is (0, n, 0),
/// and of `LineZ(c)` is (0, 0, n), for `n` below `c`.
pub proof fn lines_run_along_their_axis(c: u32)
    ensures
        spec_offsets(InstanceTemplate::LineX(c)).len() == c,
        spec_offsets(InstanceTemplate::LineY(c)).len() == c,
        spec_offsets(InstanceTemplate::LineZ(c)).len() == c,
        forall|n: int| 0 <= n < c ==> {
            let p = #[trigger] spec_offsets(InstanceTemplate::LineX(c))[n];
            p.x == n && p.y == 0 && p.z == 0
        },
        forall|n: int| 0 <= n < c ==> {
            let p = #[trigger] spec_offsets(InstanceTemplate::LineY(c))[n];
            p.x == 0 && p.y == n && p.z == 0
        },
        forall|n: int| 0 <= n < c ==> {
            let p = #[trigger] spec_offsets(InstanceTemplate::LineZ(c))[n];
            p.x == 0 && p.y == 0 && p.z == n
        },
{
}

/// A cube template makes its instances along x first, then along z, then along y: the
/// instance at column `i`, layer `j` and row `k` is number `(j * z + k) * x + i`.
pub proof fn cube_offsets_count_x_then_z_then_y(x: u32, y: u32, z: u32, i: int, j: int, k: int)
    requires
        x * y * z <= u32::MAX,
        0 <= i < x,
        0 <= j < y,
        0 <= k < z,
    ensures
        0 <= (j * z + k) * x + i < spec_offsets(InstanceTemplate::Cube(x, y, z)).len(),
        spec_offsets(InstanceTemplate::Cube(x, y, z))[(j * z + k) * x + i] == pt(i, j, k),
{
    let (xi, zi) = (x as int, z as int);
    let m = j * zi + k;
    let n = m * xi + i;
    assert(0 <= m < y * zi) by (nonlinear_arith)
        requires
            m == j * zi + k,
            0 <= j < y,
            0 <= k < zi,
    ;
    assert(0 <= n < x * y * z) by (nonlinear_arith)
        requires
            n == m * xi + i,
            0 <= m < y * zi,
            0 <= i < xi,
            xi == x,
            zi == z,
    ;
    lemma_fundamental_div_mod_converse(n, xi, m, i);
    lemma_fundamental_div_mod_converse(m, zi, j, k);
    lemma_div_denominator(n, xi, zi);
    assert(n / (xi * zi) == j);
    assert(((x * z) as int) == xi * zi);
}

/// A single template has one instance, at the origin.
pub proof fn single_sits_at_the_origin()
    ensures
        spec_offsets(InstanceTemplate::Single).len() == 1,
        spec_offsets(InstanceTemplate::Single)[0].x == 0,
        spec_offsets(InstanceTemplate::Single)[0].y == 0,
        spec_offsets(InstanceTemplate::Single)[0].z == 0,
{
}

/// The width and height of a grid template.
pub open spec fn grid_dims(t: InstanceTemplate) -> (int, int) {
    match t {
        InstanceTemplate::GridX(a, b) => (a as int, b as int),
        InstanceTemplate::GridY(a, b) => (a as int, b as int),
        InstanceTemplate::GridZ(a, b) => (a as int, b as int),
        _ => (0, 0),
    }
}

/// The point at column `i` and row `j` of a grid template.
pub open spec fn grid_point(t: InstanceTemplate, i: int, j: int) -> LatticePoint {
    match t {
        InstanceTemplate::GridX(..) => pt(0, i, j),
        InstanceTemplate::GridY(..) => pt(i, 0, j),
        _ => pt(i, j, 0),
    }
}

/// Position `n` of a row-major grid `a` wide names column `n % a` and row `n / a`.
proof fn lemma_grid_index(a: int, n: int)
    requires
        a > 0,
        n >= 0,
    ensures
        n == a * (n / a) + n % a,
        0 <= n % a < a,
        0 <= n / a,
{
    lemma_fundamental_div_mod(n, a);
    lemma_mod_pos_bound(n, a);
    lemma_div_pos_is_pos(n, a);
}

/// Column `i` and row `j` of a grid `a` wide sit at position `j * a + i`.
proof fn lemma_grid_position(a: int, b: int, i: int, j: int)
    requires
        0 <= i < a,
        0 <= j < b,
    ensures
        0 <= j * a + i < a * b,
        (j * a + i) % a == i,
        (j * a + i) / a == j,
{
    lemma_fundamental_div_mod_converse(j * a + i, a, j, i);
    assert(0 <= j * a + i < a * b) by (nonlinear_arith)
        requires
            0 <= i < a,
            0 <= j < b,
    ;
}

/// Whether `p` is a point of a grid template's grid.
pub open spec fn in_grid(t: InstanceTemplate, p: LatticePoint) -> bool {
    let (a, b) = grid_dims(t);
    match t {
        InstanceTemplate::GridX(..) => p.x == 0 && 0 <= p.y < a && 0 <= p.z < b,
        InstanceTemplate::GridY(..) => 0 <= p.x < a && p.y == 0 && 0 <= p.z < b,
        _ => 0 <= p.x < a && 0 <= p.y < b && p.z == 0,
    }
}

/// Whether `p` is a point of an `x` by `y` by `z` block.
pub open spec fn in_block(x: u32, y: u32, z: u32, p: LatticePoint) -> bool {
    0 <= p.x < x && 0 <= p.y < y && 0 <= p.z < z
}

/// Offset `n` of a grid template is column `n % a`, row `n / a` of the grid.
proof fn lemma_grid_offset(t: InstanceTemplate, n: int)
    requires
        t.wf(),
        t is GridX || t is GridY || t is GridZ,
        0 <= n < spec_offsets(t).len(),
    ensures
        0 <= n % grid_dims(t).0 < grid_dims(t).0,
        0 <= n / grid_dims(t).0 < grid_dims(t).1,
        spec_offsets(t)[n] == grid_point(t, n % grid_dims(t).0, n / grid_dims(t).0),
{
    let a = grid_dims(t).0;
    let b = grid_dims(t).1;
    assert(spec_offsets(t).len() == a * b);
    assert(a > 0) by (nonlinear_arith)
        requires
            0 <= n < a * b,
            b >= 0,
    ;
    lemma_grid_index(a, n);
    assert(n / a < b) by (nonlinear_arith)
        requires
            n == a * (n / a) + n % a,
            0 <= n % a,
            n < a * b,
            a > 0,
    ;
}

/// A grid template lists every point of its grid once: each offset is a point of the
/// grid, every point of the grid is among the offsets, and no two offsets are the same.
pub proof fn grid_offsets_list_the_grid_once(t: InstanceTemplate)
    requires
        t.wf(),
        t is GridX || t is GridY || t is GridZ,
    ensures
        spec_offsets(t).len() == grid_dims(t).0 * grid_dims(t).1,
        forall|n: int| 0 <= n < spec_offsets(t).len() ==> in_grid(t, #[trigger] spec_offsets(t)[n]),
        forall|i: int, j: int|
            0 <= i < grid_dims(t).0 && 0 <= j < grid_dims(t).1 ==> spec_offsets(t).contains(#[trigger] grid_point(t, i, j)),
        forall|n: int, m: int| 0 <= n < m < spec_offsets(t).len() ==> spec_offsets(t)[n] != spec_offsets(t)[m],
{
    let a = grid_dims(t).0;
    let b = grid_dims(t).1;
    assert(spec_offsets(t).len() == a * b);
    assert forall|n: int| 0 <= n < spec_offsets(t).len() implies in_grid(t, #[trigger] spec_offsets(t)[n]) by {
        lemma_grid_offset(t, n);
    }
    assert forall|i: int, j: int| 0 <= i < a && 0 <= j < b implies spec_offsets(t).contains(#[trigger] grid_point(t, i, j)) by {
        lemma_grid_position(a, b, i, j);
        assert(spec_offsets(t)[j * a + i] == grid_point(t, i, j));
    }
    assert forall|n: int, m: int| 0 <= n < m < spec_offsets(t).len() implies spec_offsets(t)[n] != spec_offsets(t)[m] by {
        assert(a > 0) by (nonlinear_arith)
            requires
                0 <= n < a * b,
                b >= 0,
        ;
        lemma_grid_index(a, n);
        lemma_grid_index(a, m);
        assert(n % a < 0x1_0000_0000 && m % a < 0x1_0000_0000);
        assert(n / a <= n && m / a <= m) by (nonlinear_arith)
            requires
                n == a * (n / a) + n % a,
                m == a * (m / a) + m % a,
                0 <= n % a,
                0 <= m % a,
                0 <= n / a,
                0 <= m / a,
                a > 0,
        ;
        if spec_offsets(t)[n] == spec_offsets(t)[m] {
            assert(spec_offsets(t)[n] == grid_point(t, n % a, n / a));
            assert(spec_offsets(t)[m] == grid_point(t, m % a, m / a));
            assert(n % a == m % a && n / a == m / a);
        }
    }
}

/// A cube template lists every point of its block once: each offset is a point of the
/// block, every point of the block is among the offsets, and no two offsets are the same.
pub proof fn cube_offsets_list_the_block_once(x: u32, y: u32, z: u32)
    requires
        x * y * z <= u32::MAX,
    ensures
        spec_offsets(InstanceTemplate::Cube(x, y, z)).len() == x * y * z,
        forall|n: int| 0 <= n < spec_offsets(InstanceTemplate::Cube(x, y, z)).len() ==> in_block(x, y, z, #[trigger] spec_offsets(InstanceTemplate::Cube(x, y, z))[n]),
        forall|i: int, j: int, k: int|
            0 <= i < x && 0 <= j < y && 0 <= k < z ==> spec_offsets(InstanceTemplate::Cube(x, y, z)).contains(#[trigger] pt(i, j, k)),
        forall|n: int, m: int|
            0 <= n < m < spec_offsets(InstanceTemplate::Cube(x, y, z)).len() ==> spec_offsets(InstanceTemplate::Cube(x, y, z))[n]
                != spec_offsets(InstanceTemplate::Cube(x, y, z))[m],
{
    let (xi, yi, zi) = (x as int, y as int, z as int);
    assert forall|n: int| 0 <= n < spec_offsets(InstanceTemplate::Cube(x, y, z)).len() implies in_block(x, y, z, #[trigger] spec_offsets(InstanceTemplate::Cube(x, y, z))[n]) by {
        assert(xi > 0 && zi > 0 && yi > 0) by (nonlinear_arith)
            requires
                0 <= n < xi * yi * zi,
                xi >= 0,
                yi >= 0,
                zi >= 0,
        ;
        lemma_grid_index(xi, n);
        let n1 = n / xi;
        lemma_grid_index(zi, n1);
        lemma_div_denominator(n, xi, zi);
        assert(n / (xi * zi) < yi) by (nonlinear_arith)
            requires
                n == xi * n1 + n % xi,
                n1 == zi * (n1 / zi) + n1 % zi,
                n1 / zi == n / (xi * zi),
                0 <= n % xi,
                0 <= n1 % zi,
                n < xi * yi * zi,
                xi > 0,
                zi > 0,
        ;
        assert(spec_offsets(InstanceTemplate::Cube(x, y, z))[n] == pt(n % xi, n / (xi * zi), n1 % zi));
    }
    assert forall|i: int, j: int, k: int| 0 <= i < x && 0 <= j < y && 0 <= k < z implies spec_offsets(InstanceTemplate::Cube(x, y, z)).contains(
        #[trigger] pt(i, j, k),
    ) by {
        let n1 = j * zi + k;
        let n = n1 * xi + i;
        lemma_fundamental_div_mod_converse(n, xi, n1, i);
        lemma_fundamental_div_mod_converse(n1, zi, j, k);
        assert(0 <= n < xi * yi * zi) by (nonlinear_arith)
            requires
                0 <= i < xi,
                0 <= j < yi,
                0 <= k < zi,
                n1 == j * zi + k,
                n == n1 * xi + i,
        ;
        lemma_div_denominator(n, xi, zi);
        assert(spec_offsets(InstanceTemplate::Cube(x, y, z))[n] == pt(i, j, k));
    }
    assert forall|n: int, m: int| 0 <= n < m < spec_offsets(InstanceTemplate::Cube(x, y, z)).len() implies spec_offsets(InstanceTemplate::Cube(x, y, z))[n] != spec_offsets(InstanceTemplate::Cube(x, y, z))[m] by {
        assert(xi > 0 && zi > 0) by (nonlinear_arith)
            requires
                0 <= n < xi * yi * zi,
                xi >= 0,
                yi >= 0,
                zi >= 0,
        ;
        lemma_grid_index(xi, n);
        lemma_grid_index(xi, m);
        lemma_grid_index(zi, n / xi);
        lemma_grid_index(zi, m / xi);
        lemma_div_denominator(n, xi, zi);
        lemma_div_denominator(m, xi, zi);
        assert(n / xi <= n && m / xi <= m && (n / xi) / zi <= n && (m / xi) / zi <= m) by (nonlinear_arith)
            requires
                n == xi * (n / xi) + n % xi,
                m == xi * (m / xi) + m % xi,
                n / xi == zi * ((n / xi) / zi) + (n / xi) % zi,
                m / xi == zi * ((m / xi) / zi) + (m / xi) % zi,
                0 <= n % xi,
                0 <= m % xi,
                0 <= (n / xi) % zi,
                0 <= (m / xi) % zi,
                0 <= n / xi,
                0 <= m / xi,
                0 <= (n / xi) / zi,
                0 <= (m / xi) / zi,
                xi > 0,
                zi > 0,
        ;
        if spec_offsets(InstanceTemplate::Cube(x, y, z))[n] == spec_offsets(InstanceTemplate::Cube(x, y, z))[m] {
            assert(spec_offsets(InstanceTemplate::Cube(x, y, z))[n] == pt(n % xi, n / (xi * zi), (n / xi) % zi));
            assert(spec_offsets(InstanceTemplate::Cube(x, y, z))[m] == pt(m % xi, m / (xi * zi), (m / xi) % zi));
            assert(n % xi == m % xi);
            assert((n / xi) % zi == (m / xi) % zi);
            assert(n / (xi * zi) == m / (xi * zi));
            assert(n / xi == m / xi);
        }
    }
}

/// An instance as a template places it: its position in the template's order (as the
/// 32-bit index the instance buffer stores), its offset, and whether it is drawn.
#[derive(Clone, Copy, Debug, PartialEq, Eq, Structural)]
pub struct InstanceSlot {
    pub index: u32,
    pub offset: LatticePoint,
    pub should_render: bool,
}

/// Numbers a template's offsets in order: instance `k` has index `k` (truncated to 32
/// bits), offset `offsets[k]`, and is drawn.
pub fn instance_slots(offsets: &Vec<LatticePoint>) -> (r: Vec<InstanceSlot>)
    ensures
        r@.len() == offsets@.len(),
        forall|k: int| 0 <= k < r@.len() ==> (#[trigger] r@[k]).index == k % 0x1_0000_0000 && r@[k].offset == offsets@[k]
            && r@[k].should_render,
{
    let mut r: Vec<InstanceSlot> = Vec::new();
    let mut k: usize = 0;
    while k < offsets.len()
        invariant
            k <= offsets@.len(),
            r@.len() == k,
            forall|j: int| 0 <= j < k ==> (#[trigger] r@[j]).index == j % 0x1_0000_0000 && r@[j].offset == offsets@[j]
                && r@[j].should_render,
        decreases offsets@.len() - k,
    {
        let wide: u64 = k as u64;
        let index: u32 = (wide % 0x1_0000_0000u64) as u32;
        r.push(InstanceSlot { index, offset: offsets[k], should_render: true });
        k = k + 1;
    }
    r
}

} // verus!

//! The scatter generator: places points in an annulus around a centre, each at
//! least a clearance away from every point placed before it.
use crate::random::{Point, Rand};
use vstd::prelude::*;

verus! {

/// Largest absolute value of a centre coordinate.
pub const CENTER_LIMIT: i64 = 0x1000_0000_0000_0000;

/// Largest absolute value of a placed coordinate: a centre moved by less than
/// a `u32` radius stays well inside it.
pub const POSITION_LIMIT: i64 = 0x2000_0000_0000_0000;

/// A source of candidate offsets. Each call makes one draw; `None` stands for
/// a draw that the source itself rejected.
pub trait Candidates {
    /// One candidate offset for a point at most `radius` from the centre.
    fn candidate(&mut self, radius: u32) -> Option<Point>;
}

/// Uniform candidates: one draw from the disk of the requested radius.
impl Candidates for Rand {
    fn candidate(&mut self, radius: u32) -> Option<Point> {
        self.disk_sample(radius)
    }
}

/// A point that was accepted, with the clearance that it asked for.
#[derive(Clone, Copy, Debug, PartialEq, Eq, Structural)]
pub struct Occupied {
    pub position: Point,
    pub clearance: u32,
}

/// Why a generation stopped without its points.
#[derive(Clone, Copy, Debug, PartialEq, Eq, Structural)]
pub enum ScatterError {
    /// Every allowed candidate was drawn before enough points were accepted.
    AttemptsExhausted,
}

/// The squared distance between two points.
pub open spec fn dist2(a: Point, b: Point) -> int {
    (a.x - b.x) * (a.x - b.x) + (a.y - b.y) * (a.y - b.y)
}

/// The spacing that two points must keep: the larger of their clearances.
pub open spec fn separation(a: u32, b: u32) -> int {
    if a >= b {
        a as int
    } else {
        b as int
    }
}

/// Whether `pos` keeps its spacing from every occupied point.
pub open spec fn clear_of(pos: Point, clearance: u32, occupied: Seq<Occupied>) -> bool {
    forall|i: int|
        0 <= i < occupied.len() ==> #[trigger] dist2(pos, occupied[i].position) >= separation(
            clearance,
            occupied[i].clearance,
        ) * separation(clearance, occupied[i].clearance)
}

/// Whether an offset's length lies in `[min_radius, max_radius)`.
pub open spec fn in_annulus(offset: Point, min_radius: u32, max_radius: u32) -> bool {
    min_radius * min_radius <= offset.norm2() < max_radius * max_radius
}

/// The points as occupied points, all with one clearance.
pub open spec fn occupy(points: Seq<Point>, clearance: u32) -> Seq<Occupied> {
    points.map_values(|p: Point| Occupied { position: p, clearance })
}

/// Whether each point kept its spacing from the points occupied before it:
/// those of `before`, then the earlier points of the sequence.
pub open spec fn placed_in_order(points: Seq<Point>, clearance: u32, before: Seq<Occupied>) -> bool {
    forall|i: int|
        0 <= i < points.len() ==> clear_of(
            #[trigger] points[i],
            clearance,
            before + occupy(points.take(i), clearance),
        )
}

/// Whether a placed point's distance from the centre lies in
/// `[min_radius, max_radius)`.
pub open spec fn in_ring(g: GenerateView, p: Point) -> bool {
    g.min_radius * g.min_radius <= dist2(p, g.center) < g.max_radius * g.max_radius
}

/// Whether a coordinate pair stays within `limit` in absolute value.
pub open spec fn bounded(p: Point, limit: int) -> bool {
    -limit <= p.x <= limit && -limit <= p.y <= limit
}

proof fn lemma_dist2_symmetric(a: Point, b: Point)
    ensures
        dist2(a, b) == dist2(b, a),
{
    assert((a.x - b.x) * (a.x - b.x) == (b.x - a.x) * (b.x - a.x)) by (nonlinear_arith);
    assert((a.y - b.y) * (a.y - b.y) == (b.y - a.y) * (b.y - a.y)) by (nonlinear_arith);
}

/// Points placed in order keep their spacing pairwise: any two of them are at
/// least `clearance` apart, and each is at least the larger clearance away from
/// every point occupied before.
pub proof fn lemma_placed_points_separated(points: Seq<Point>, clearance: u32, before: Seq<Occupied>)
    requires
        placed_in_order(points, clearance, before),
    ensures
        forall|i: int, j: int|
            0 <= i < points.len() && 0 <= j < points.len() && i != j ==> dist2(
                #[trigger] points[i],
                #[trigger] points[j],
            ) >= clearance * clearance,
        forall|i: int, k: int|
            0 <= i < points.len() && 0 <= k < before.len() ==> dist2(
                #[trigger] points[i],
                #[trigger] before[k].position,
            ) >= separation(clearance, before[k].clearance) * separation(
                clearance,
                before[k].clearance,
            ),
{
    assert forall|i: int, j: int|
        0 <= i < points.len() && 0 <= j < points.len() && i != j implies dist2(
            #[trigger] points[i],
            #[trigger] points[j],
        ) >= clearance * clearance by {
        let (lo, hi) = if i < j {
            (i, j)
        } else {
            (j, i)
        };
        let occ = before + occupy(points.take(hi), clearance);
        assert(clear_of(points[hi], clearance, occ));
        assert(occ[before.len() + lo] == Occupied { position: points[lo], clearance });
        assert(dist2(points[hi], occ[before.len() + lo].position) >= separation(
            clearance,
            clearance,
        ) * separation(clearance, clearance));
        lemma_dist2_symmetric(points[hi], points[lo]);
    }
    assert forall|i: int, k: int|
        0 <= i < points.len() && 0 <= k < before.len() implies dist2(
            #[trigger] points[i],
            #[trigger] before[k].position,
        ) >= separation(clearance, before[k].clearance) * separation(
            clearance,
            before[k].clearance,
        ) by {
        let occ = before + occupy(points.take(i), clearance);
        assert(clear_of(points[i], clearance, occ));
        assert(occ[k] == before[k]);
    }
}

/// A generator of points around `center` whose distance from it lies in
/// `[min_radius, max_radius)`. Each call of `generate` starts afresh: its
/// points keep clear of each other only, and the generator holds them until
/// the next call.
pub struct Generate {
    pub center: Point,
    pub min_radius: u32,
    pub max_radius: u32,
    occupied: Vec<Occupied>,
}

/// What a generator is: its annulus and the points it holds, in order,
/// with their clearances.
pub struct GenerateView {
    pub center: Point,
    pub min_radius: u32,
    pub max_radius: u32,
    pub occupied: Seq<Occupied>,
}

impl GenerateView {
    /// The occupied points stay within `POSITION_LIMIT`.
    pub open spec fn wf(self) -> bool {
        forall|i: int|
            0 <= i < self.occupied.len() ==> bounded(
                #[trigger] self.occupied[i].position,
                POSITION_LIMIT as int,
            )
    }

    /// Whether the centre is one from which points can be placed.
    pub open spec fn center_ok(self) -> bool {
        bounded(self.center, CENTER_LIMIT as int)
    }

    /// The point `center + offset`, for an offset in the annulus.
    pub open spec fn at(self, offset: Point) -> Point {
        Point { x: (self.center.x + offset.x) as i64, y: (self.center.y + offset.y) as i64 }
    }

    /// Whether `offset` would be accepted now for a point of `clearance`.
    pub open spec fn accepts(self, offset: Point, clearance: u32) -> bool {
        in_annulus(offset, self.min_radius, self.max_radius) && clear_of(
            self.at(offset),
            clearance,
            self.occupied,
        )
    }

    /// The same generator with other occupied points.
    pub open spec fn same_annulus(self, other: GenerateView) -> bool {
        self.center == other.center && self.min_radius == other.min_radius && self.max_radius
            == other.max_radius
    }
}

impl View for Generate {
    type V = GenerateView;

    closed spec fn view(&self) -> GenerateView {
        GenerateView {
            center: self.center,
            min_radius: self.min_radius,
            max_radius: self.max_radius,
            occupied: self.occupied@,
        }
    }
}

impl Generate {
    /// A generator with nothing placed yet.
    pub fn new(max_radius: u32, min_radius: u32, center: Point) -> (r: Generate)
        ensures
            r@.center == center,
            r@.min_radius == min_radius,
            r@.max_radius == max_radius,
            r@.occupied == Seq::<Occupied>::empty(),
            r@.wf(),
    {
        Generate { center, min_radius, max_radius, occupied: Vec::new() }
    }

    /// The number of points held: those placed since the last `generate` began.
    pub fn occupied_len(&self) -> (r: usize)
        ensures
            r == self@.occupied.len(),
    {
        self.occupied.len()
    }

    /// Considers one candidate offset: when it lies in the annulus and the point
    /// `center + offset` keeps its spacing from every occupied point, the point
    /// is occupied and returned; otherwise nothing changes.
    pub fn place(&mut self, offset: Point, clearance: u32) -> (r: Option<Point>)
        requires
            old(self)@.wf(),
            old(self)@.center_ok(),
        ensures
            final(self)@.wf(),
            final(self)@.same_annulus(old(self)@),
            old(self)@.accepts(offset, clearance) ==> r == Some(old(self)@.at(offset))
                && final(self)@.occupied == old(self)@.occupied.push(
                Occupied { position: old(self)@.at(offset), clearance },
            ),
            !old(self)@.accepts(offset, clearance) ==> r is None && final(self)@.occupied
                == old(self)@.occupied,
            r matches Some(p) ==> bounded(p, POSITION_LIMIT as int) && in_ring(old(self)@, p),
    {
        let xw = offset.x as i128;
        let yw = offset.y as i128;
        assert(0 <= xw * xw <= 0x8000_0000_0000_0000 * 0x8000_0000_0000_0000) by (nonlinear_arith)
            requires -0x8000_0000_0000_0000 <= xw <= 0x8000_0000_0000_0000;
        assert(0 <= yw * yw <= 0x8000_0000_0000_0000 * 0x8000_0000_0000_0000) by (nonlinear_arith)
            requires -0x8000_0000_0000_0000 <= yw <= 0x8000_0000_0000_0000;
        let norm2 = ((xw * xw) as u128) + ((yw * yw) as u128);
        let lo = self.min_radius as u128;
        let hi = self.max_radius as u128;
        assert(lo * lo <= 0x1_0000_0000 * 0x1_0000_0000) by (nonlinear_arith)
            requires lo <= 0x1_0000_0000;
        assert(hi * hi <= 0x1_0000_0000 * 0x1_0000_0000) by (nonlinear_arith)
            requires hi <= 0x1_0000_0000;
        assert(norm2 == offset.norm2());
        if norm2 < lo * lo || norm2 >= hi * hi {
            // outside of the annulus
            return None;
        }
        assert(xw * xw < hi * hi && yw * yw < hi * hi);
        assert(-0x1_0000_0000 < xw < 0x1_0000_0000) by (nonlinear_arith)
            requires xw * xw < hi * hi, 0 <= hi <= 0xffff_ffff;
        assert(-0x1_0000_0000 < yw < 0x1_0000_0000) by (nonlinear_arith)
            requires yw * yw < hi * hi, 0 <= hi <= 0xffff_ffff;
        let pos = Point { x: self.center.x + offset.x, y: self.center.y + offset.y };
        assert(pos == self@.at(offset));
        assert(dist2(pos, self.center) == offset.norm2());
        let mut i: usize = 0;
        while i < self.occupied.len()
            invariant
                0 <= i <= self.occupied@.len(),
                self@ == old(self)@,
                pos == old(self)@.at(offset),
                self@.wf(),
                bounded(pos, POSITION_LIMIT as int),
                forall|j: int|
                    0 <= j < i ==> #[trigger] dist2(pos, self.occupied@[j].position) >= separation(
                        clearance,
                        self.occupied@[j].clearance,
                    ) * separation(clearance, self.occupied@[j].clearance),
            decreases self.occupied@.len() - i,
        {
            let other = self.occupied[i];
            assert(bounded(self@.occupied[i as int].position, POSITION_LIMIT as int));
            let dx = (pos.x - other.position.x) as i128;
            let dy = (pos.y - other.position.y) as i128;
            assert(0 <= dx * dx <= 0x4000_0000_0000_0000 * 0x4000_0000_0000_0000) by (nonlinear_arith)
                requires -0x4000_0000_0000_0000 <= dx <= 0x4000_0000_0000_0000;
            assert(0 <= dy * dy <= 0x4000_0000_0000_0000 * 0x4000_0000_0000_0000) by (nonlinear_arith)
                requires -0x4000_0000_0000_0000 <= dy <= 0x4000_0000_0000_0000;
            let d2 = ((dx * dx) as u128) + ((dy * dy) as u128);
            let sep = if clearance >= other.clearance {
                clearance
            } else {
                other.clearance
            } as u128;
            assert(sep * sep <= 0x1_0000_0000 * 0x1_0000_0000) by (nonlinear_arith)
                requires sep <= 0x1_0000_0000;
            assert(d2 == dist2(pos, self@.occupied[i as int].position));
            assert(sep == separation(clearance, self@.occupied[i as int].clearance));
            if d2 < sep * sep {
                // some other point is too near
                assert(!clear_of(pos, clearance, self@.occupied));
                assert(pos == old(self)@.at(offset));
                assert(!old(self)@.accepts(offset, clearance));
                return None;
            }
            i = i + 1;
        }
        assert(clear_of(pos, clearance, old(self)@.occupied));
        self.occupied.push(Occupied { position: pos, clearance });
        assert forall|j: int| 0 <= j < self@.occupied.len() implies bounded(
            #[trigger] self@.occupied[j].position,
            POSITION_LIMIT as int,
        ) by {
            if j < old(self)@.occupied.len() {
                assert(old(self)@.occupied[j] == self@.occupied[j]);
            }
        }
        Some(pos)
    }

    /// Places `count` points of clearance `clearance`, drawing candidate
    /// offsets for radius `max_radius` from `random_point`, at most
    /// `max_attempts` of them. The points of earlier calls are forgotten first;
    /// a candidate is kept when `place` accepts it against the points of this
    /// call. On success the points come back in the order they were placed,
    /// and the generator occupies them; when the draws run out, it occupies
    /// nothing. No candidate is drawn for a count of zero.
    pub fn generate<C: Candidates>(
        &mut self,
        random_point: &mut C,
        count: usize,
        clearance: u32,
        max_attempts: u64,
    ) -> (r: Result<Vec<Point>, ScatterError>)
        requires
            old(self)@.wf(),
            old(self)@.center_ok(),
        ensures
            final(self)@.wf(),
            final(self)@.same_annulus(old(self)@),
            match r {
                Ok(points) => {
                    &&& points@.len() == count
                    &&& forall|i: int|
                        0 <= i < points@.len() ==> in_ring(
                            old(self)@,
                            #[trigger] points@[i],
                        )
                    &&& placed_in_order(points@, clearance, Seq::<Occupied>::empty())
                    &&& forall|i: int, j: int|
                        0 <= i < points@.len() && 0 <= j < points@.len() && i != j ==> dist2(
                            #[trigger] points@[i],
                            #[trigger] points@[j],
                        ) >= clearance * clearance
                    &&& final(self)@.occupied == occupy(points@, clearance)
                },
                Err(e) => e == ScatterError::AttemptsExhausted && final(self)@.occupied == Seq::<
                    Occupied,
                >::empty(),
            },
            count == 0 ==> (r matches Ok(points) && points@.len() == 0) && final(self)@.occupied
                == Seq::<Occupied>::empty() && *final(random_point) == *old(random_point),
            (max_attempts as int) < (count as int) ==> r == Err::<Vec<Point>, ScatterError>(
                ScatterError::AttemptsExhausted,
            ),
    {
        self.occupied.clear();
        let ghost before = self@.occupied;
        assert(before =~= Seq::<Occupied>::empty());
        if count == 0 {
            return Ok(Vec::new());
        }
        let mut positions: Vec<Point> = Vec::new();
        let mut attempts: u64 = 0;
        while positions.len() < count
            invariant
                attempts <= max_attempts,
                positions@.len() <= attempts,
                before == Seq::<Occupied>::empty(),
                self@.wf(),
                self@.center_ok(),
                self@.same_annulus(old(self)@),
                self@.occupied == before + occupy(positions@, clearance),
                positions@.len() <= count,
                forall|i: int|
                    0 <= i < positions@.len() ==> in_ring(
                        old(self)@,
                        #[trigger] positions@[i],
                    ),
                placed_in_order(positions@, clearance, before),
            decreases max_attempts - attempts,
        {
            if attempts == max_attempts {
                self.occupied.clear();
                return Err(ScatterError::AttemptsExhausted);
            }
            attempts = attempts + 1;
            if let Some(offset) = random_point.candidate(self.max_radius) {
                let ghost pre = self@;
                let ghost pts = positions@;
                if let Some(pos) = self.place(offset, clearance) {
                    positions.push(pos);
                    assert(occupy(positions@, clearance) =~= occupy(pts, clearance).push(
                        Occupied { position: pos, clearance },
                    ));
                    assert(self@.occupied =~= before + occupy(positions@, clearance));
                    assert(positions@.take(pts.len() as int) =~= pts);
                    assert forall|i: int| 0 <= i < positions@.len() implies clear_of(
                        #[trigger] positions@[i],
                        clearance,
                        before + occupy(positions@.take(i), clearance),
                    ) by {
                        if i < pts.len() {
                            assert(positions@.take(i) =~= pts.take(i));
                        }
                    }
                }
            }
        }
        proof {
            lemma_placed_points_separated(positions@, clearance, before);
            assert(self@.occupied =~= occupy(positions@, clearance));
        }
        Ok(positions)
    }
}

} // verus!

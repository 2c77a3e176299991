use rustc_hash::FxHashMap;
use vstd::prelude::*;

verus! {

/// The magnitude of an integer.
pub open spec fn magnitude(x: int) -> int {
    if x < 0 {
        -x
    } else {
        x
    }
}

/// Hex distance facts: the origin has length 0, each unit direction length
/// 1, `(2, -4)` length 4, and a vector and its negation the same length.
pub proof fn lemma_hex_length(a: int, b: int, k: int)
    requires
        0 <= k < 6,
    ensures
        hex_length(0, 0) == 0,
        AxialVector::spec_direction(k).spec_length() == 1,
        hex_length(2, -4) == 4,
        hex_length(a, b) == hex_length(-a, -b),
{
}

/// The magnitude of `x`, which must not be `i32::MIN`.
fn abs_i32(x: i32) -> (r: i32)
    requires
        x > i32::MIN,
    ensures
        r == magnitude(x as int),
{
    if x < 0 {
        -x
    } else {
        x
    }
}

/// Hex distance of `(q, r)` from the origin.
pub open spec fn hex_length(q: int, r: int) -> int {
    (magnitude(q) + magnitude(q + r) + magnitude(r)) / 2
}

/// A hex cell in axial coordinates `(q, r)`; the third cube coordinate is
/// `s = -q - r`.
#[derive(Clone, Copy, Debug, PartialEq, Eq, Hash, Structural)]
pub struct AxialVector {
    pub q: i32,
    pub r: i32,
}

/// Coordinates small enough that lengths, sums and differences of such
/// vectors stay in range.
pub const COORD_LIMIT: i32 = 0x1000_0000;

impl AxialVector {
    pub open spec fn coords(self) -> (int, int) {
        (self.q as int, self.r as int)
    }

    pub open spec fn spec_q(self) -> int {
        self.q as int
    }

    pub open spec fn spec_r(self) -> int {
        self.r as int
    }

    pub open spec fn spec_length(self) -> int {
        hex_length(self.q as int, self.r as int)
    }

    /// Both coordinates are below `COORD_LIMIT` in magnitude.
    pub open spec fn is_small(self) -> bool {
        -COORD_LIMIT < self.q < COORD_LIMIT && -COORD_LIMIT < self.r < COORD_LIMIT
    }

    pub open spec fn spec_new(q: int, r: int) -> AxialVector {
        AxialVector { q: q as i32, r: r as i32 }
    }

    pub open spec fn spec_direction(index: int) -> AxialVector {
        if index == 0 {
            AxialVector { q: 1, r: 0 }
        } else if index == 1 {
            AxialVector { q: 1, r: -1i32 }
        } else if index == 2 {
            AxialVector { q: 0, r: -1i32 }
        } else if index == 3 {
            AxialVector { q: -1i32, r: 0 }
        } else if index == 4 {
            AxialVector { q: -1i32, r: 1 }
        } else {
            AxialVector { q: 0, r: 1 }
        }
    }

    pub fn q(&self) -> (r: i32)
        ensures
            r == self.q,
    {
        self.q
    }

    pub fn r(&self) -> (r: i32)
        ensures
            r == self.r,
    {
        self.r
    }

    /// The third cube coordinate.
    pub fn s(&self) -> (r: i32)
        requires
            i32::MIN <= -self.q - self.r <= i32::MAX,
        ensures
            r == -self.q - self.r,
    {
        (-(self.q as i64) - self.r as i64) as i32
    }

    pub fn new(q: i32, r: i32) -> (v: AxialVector)
        ensures
            v.q == q,
            v.r == r,
    {
        AxialVector { q, r }
    }

    /// Hex distance from the origin: `(|q| + |q + r| + |r|) / 2`.
    pub fn length(&self) -> (l: i32)
        requires
            magnitude(self.q as int) + magnitude(self.q + self.r) + magnitude(self.r as int)
                <= i32::MAX,
        ensures
            l == self.spec_length(),
    {
        let sum = abs_i32(self.q) + abs_i32(self.q + self.r) + abs_i32(self.r);
        abs_i32(sum) / 2
    }

    /// The unit vector of direction `index`: `(1,0), (1,-1), (0,-1), (-1,0),
    /// (-1,1), (0,1)` for 0 to 5.
    pub fn direction(index: u8) -> (v: AxialVector)
        requires
            index < 6,
        ensures
            v == AxialVector::spec_direction(index as int),
            v.spec_length() == 1,
    {
        match index {
            0 => AxialVector::new(1, 0),
            1 => AxialVector::new(1, -1),
            2 => AxialVector::new(0, -1),
            3 => AxialVector::new(-1, 0),
            4 => AxialVector::new(-1, 1),
            _ => AxialVector::new(0, 1),
        }
    }
}

impl core::ops::Add for AxialVector {
    type Output = AxialVector;

    fn add(self, rhs: AxialVector) -> (v: AxialVector) {
        AxialVector { q: self.q + rhs.q, r: self.r + rhs.r }
    }
}

impl vstd::std_specs::ops::AddSpecImpl for AxialVector {
    open spec fn obeys_add_spec() -> bool {
        true
    }

    open spec fn add_req(self, rhs: AxialVector) -> bool {
        &&& i32::MIN <= self.q + rhs.q <= i32::MAX
        &&& i32::MIN <= self.r + rhs.r <= i32::MAX
    }

    open spec fn add_spec(self, rhs: AxialVector) -> AxialVector {
        AxialVector { q: (self.q + rhs.q) as i32, r: (self.r + rhs.r) as i32 }
    }
}

impl core::ops::Sub for AxialVector {
    type Output = AxialVector;

    fn sub(self, rhs: AxialVector) -> (v: AxialVector) {
        AxialVector { q: self.q - rhs.q, r: self.r - rhs.r }
    }
}

impl vstd::std_specs::ops::SubSpecImpl for AxialVector {
    open spec fn obeys_sub_spec() -> bool {
        true
    }

    open spec fn sub_req(self, rhs: AxialVector) -> bool {
        &&& i32::MIN <= self.q - rhs.q <= i32::MAX
        &&& i32::MIN <= self.r - rhs.r <= i32::MAX
    }

    open spec fn sub_spec(self, rhs: AxialVector) -> AxialVector {
        AxialVector { q: (self.q - rhs.q) as i32, r: (self.r - rhs.r) as i32 }
    }
}

impl core::ops::Mul<AxialVector> for i32 {
    type Output = AxialVector;

    fn mul(self, rhs: AxialVector) -> (v: AxialVector) {
        AxialVector { q: rhs.q * self, r: rhs.r * self }
    }
}

impl vstd::std_specs::ops::MulSpecImpl<AxialVector> for i32 {
    open spec fn obeys_mul_spec() -> bool {
        true
    }

    open spec fn mul_req(self, rhs: AxialVector) -> bool {
        &&& i32::MIN <= rhs.q * self <= i32::MAX
        &&& i32::MIN <= rhs.r * self <= i32::MAX
    }

    open spec fn mul_spec(self, rhs: AxialVector) -> AxialVector {
        AxialVector { q: (rhs.q * self) as i32, r: (rhs.r * self) as i32 }
    }
}

impl From<(i32, i32)> for AxialVector {
    fn from(value: (i32, i32)) -> (v: AxialVector) {
        AxialVector { q: value.0, r: value.1 }
    }
}

impl vstd::std_specs::convert::FromSpecImpl<(i32, i32)> for AxialVector {
    open spec fn obeys_from_spec() -> bool {
        true
    }

    open spec fn from_spec(v: (i32, i32)) -> AxialVector {
        AxialVector { q: v.0, r: v.1 }
    }
}


/// rustc-hash's hasher, opaque here.
#[verifier::external_type_specification]
#[verifier::external_body]
pub struct ExFxHasher(rustc_hash::FxHasher);

/// std's builder of default hashers, which the Fx map type uses; opaque here.
#[verifier::external_type_specification]
#[verifier::external_body]
#[verifier::reject_recursive_types(H)]
pub struct ExBuildHasherDefault<H>(std::hash::BuildHasherDefault<H>);

/// Relies on std's `HashMap::insert`, here with rustc-hash's Fx hasher:
/// afterwards the map holds `value` at `key` and is otherwise unchanged.
#[verifier::external_body]
fn fx_insert<V>(m: &mut FxHashMap<AxialVector, V>, key: AxialVector, value: V)
    ensures
        final(m)@ == old(m)@.insert(key, value),
{
    m.insert(key, value);
}

/// Relies on std's `HashMap::get`, here with rustc-hash's Fx hasher: the
/// value stored at `key`, if any.
#[verifier::external_body]
fn fx_get<V: Copy>(m: &FxHashMap<AxialVector, V>, key: &AxialVector) -> (r: Option<V>)
    ensures
        r == (if m@.contains_key(*key) {
            Some(m@[*key])
        } else {
            None
        }),
{
    m.get(key).copied()
}

/// Relies on std's `HashMap::iter`, here with rustc-hash's Fx hasher: every
/// entry once, in an order that the hasher decides.
#[verifier::external_body]
fn fx_entries<V: Copy>(m: &FxHashMap<AxialVector, V>) -> (r: Vec<(AxialVector, V)>)
    ensures
        forall|i: int|
            0 <= i < r@.len() ==> m@.contains_key(#[trigger] r@[i].0) && m@[r@[i].0] == r@[i].1,
        forall|k: AxialVector| #[trigger] m@.contains_key(k) ==> exists|i: int| 0 <= i < r@.len() && r@[i].0 == k,
        forall|i: int, j: int| 0 <= i < j < r@.len() ==> #[trigger] r@[i].0 != #[trigger] r@[j].0,
{
    m.iter().map(|(k, v)| (*k, *v)).collect()
}

/// What a hex grid can hold.
pub trait CellTypeTrait: Copy {

}

impl<T: Copy> CellTypeTrait for T {

}

/// The `i`-th cell, `0 <= i <= radius`, of edge `edge` of the ring of the
/// given radius, walked from `radius * direction(4)` along directions 0 to 5.
pub open spec fn ring_point(radius: int, edge: int, i: int) -> (int, int) {
    if edge == 0 {
        (-radius + i, radius)
    } else if edge == 1 {
        (i, radius - i)
    } else if edge == 2 {
        (radius, -i)
    } else if edge == 3 {
        (radius - i, -radius)
    } else if edge == 4 {
        (-i, -radius + i)
    } else {
        (-radius, i)
    }
}

/// The cells of the ring of radius `radius >= 1` are exactly those at that
/// distance from the origin.
pub proof fn lemma_ring(radius: int, c: AxialVector)
    requires
        1 <= radius < COORD_LIMIT,
    ensures
        c.spec_length() == radius <==> exists|e: int, i: int|
            0 <= e < 6 && 0 <= i < radius && #[trigger] ring_point(radius, e, i) == c.coords(),
{
    let q = c.q as int;
    let r = c.r as int;
    assert forall|e: int, i: int| 0 <= e < 6 && 0 <= i < radius && #[trigger] ring_point(radius, e, i) == c.coords()
        implies c.spec_length() == radius by {
        assert(magnitude(q) + magnitude(q + r) + magnitude(r) == 2 * radius);
    }
    if c.spec_length() == radius {
        lemma_ring_edge_inverse(radius, q, r);
        let (e, i) = ring_edge(radius, q, r);
        assert(ring_point(radius, e, i) == c.coords());
    }
}

/// Where a vector `(dq, dr)` of length `radius` lies on the ring walk: its
/// edge and its index along that edge.
pub open spec fn ring_edge(radius: int, dq: int, dr: int) -> (int, int) {
    if dr == radius && dq < 0 {
        (0, dq + radius)
    } else if dq >= 0 && dr > 0 {
        (1, dq)
    } else if dq == radius && dr <= 0 && dr > -radius {
        (2, -dr)
    } else if dr == -radius && dq > 0 {
        (3, radius - dq)
    } else if dq <= 0 && dr < 0 {
        (4, -dq)
    } else {
        (5, dr)
    }
}

/// `ring_edge` inverts `ring_point`: each cell of a ring is walked once.
pub proof fn lemma_ring_edge(radius: int, e: int, i: int)
    requires
        1 <= radius,
        0 <= e < 6,
        0 <= i < radius,
    ensures
        ring_edge(radius, ring_point(radius, e, i).0, ring_point(radius, e, i).1) == (e, i),
{
}

/// A vector of length `radius` is the walk's point at its `ring_edge`.
pub proof fn lemma_ring_edge_inverse(radius: int, dq: int, dr: int)
    requires
        1 <= radius,
        hex_length(dq, dr) == radius,
    ensures
        0 <= ring_edge(radius, dq, dr).0 < 6,
        0 <= ring_edge(radius, dq, dr).1 < radius,
        ring_point(radius, ring_edge(radius, dq, dr).0, ring_edge(radius, dq, dr).1) == (dq, dr),
{
    let m = magnitude(dq) + magnitude(dq + dr) + magnitude(dr);
    assert(m == 2 * radius || m == 2 * radius + 1);
}

/// A hexagonal board of radius `size`: one cell for each axial coordinate at
/// distance below `size` from the origin.
#[derive(Debug)]
pub struct HexGrid<CellType: CellTypeTrait> {
    size: i32,
    storage: FxHashMap<AxialVector, CellType>,
}

/// Largest radius of a grid: its cell count `1 + 3 * size * (size - 1)`
/// stays below `i32::MAX`.
pub const MAX_GRID_SIZE: i32 = 26754;

impl<CellType: CellTypeTrait> Clone for HexGrid<CellType> {
    fn clone(&self) -> (r: Self)
        ensures
            r.cells() == self.cells(),
            r.size() == self.size(),
    {
        HexGrid { size: self.size, storage: self.storage.clone() }
    }
}

impl<CellType: CellTypeTrait> HexGrid<CellType> {
    pub closed spec fn cells(&self) -> Map<AxialVector, CellType> {
        self.storage@
    }

    pub closed spec fn size(&self) -> int {
        self.size as int
    }

    pub open spec fn in_bounds(&self, c: AxialVector) -> bool {
        c.spec_length() < self.size()
    }

    /// The grid holds a cell for each coordinate within its radius and for
    /// no other.
    pub open spec fn wf(&self) -> bool {
        &&& 1 <= self.size() <= MAX_GRID_SIZE
        &&& forall|c: AxialVector| #[trigger] self.cells().contains_key(c) <==> self.in_bounds(c)
    }

    /// The cell at `coordinate`, or `None` out of bounds.
    pub fn get(&self, coordinate: AxialVector) -> (r: Option<CellType>)
        ensures
            r == (if self.cells().contains_key(coordinate) {
                Some(self.cells()[coordinate])
            } else {
                None
            }),
    {
        fx_get(&self.storage, &coordinate)
    }

    /// Overwrites the cell at `coordinate`, which must be in bounds.
    pub fn set(&mut self, coordinate: AxialVector, value: CellType)
        requires
            old(self).wf(),
            old(self).in_bounds(coordinate),
        ensures
            final(self).wf(),
            final(self).size() == old(self).size(),
            final(self).cells() == old(self).cells().insert(coordinate, value),
    {
        fx_insert(&mut self.storage, coordinate, value);
        assert forall|c: AxialVector| #[trigger] self.cells().contains_key(c) <==> self.in_bounds(c) by {
            assert(old(self).cells().contains_key(c) <==> old(self).in_bounds(c));
        }
    }

    /// Every cell with its coordinate, each once, in the storage's order.
    pub fn tile_iter(&self) -> (r: Vec<(AxialVector, CellType)>)
        ensures
            forall|i: int|
                0 <= i < r@.len() ==> self.cells().contains_key(#[trigger] r@[i].0) && self.cells()[r@[i].0]
                    == r@[i].1,
            forall|k: AxialVector| #[trigger]
                self.cells().contains_key(k) ==> exists|i: int| 0 <= i < r@.len() && r@[i].0 == k,
            forall|i: int, j: int| 0 <= i < j < r@.len() ==> #[trigger] r@[i].0 != #[trigger] r@[j].0,
    {
        fx_entries(&self.storage)
    }

    /// A grid of radius `size` whose every cell is `value`, built ring by
    /// ring outwards from the origin.
    pub fn new_fill(size: i32, value: CellType) -> (g: HexGrid<CellType>)
        requires
            1 <= size <= MAX_GRID_SIZE,
        ensures
            g.wf(),
            g.size() == size,
            forall|c: AxialVector| #[trigger] g.cells().contains_key(c) ==> g.cells()[c] == value,
            g.cells().dom().finite(),
            g.cells().dom().len() == 1 + 3 * size * (size - 1),
    {
        let mut map: FxHashMap<AxialVector, CellType> = FxHashMap::default();
        fx_insert(&mut map, AxialVector::new(0, 0), value);
        let mut ring_radius: i32 = 1;
        while ring_radius < size
            invariant
                1 <= ring_radius <= size <= MAX_GRID_SIZE,
                map@.dom().finite(),
                map@.dom().len() == 1 + 3 * ring_radius * (ring_radius - 1),
                forall|c: AxialVector| #[trigger] map@.contains_key(c) <==> c.spec_length() < ring_radius,
                forall|c: AxialVector| #[trigger] map@.contains_key(c) ==> map@[c] == value,
            decreases size - ring_radius,
        {
            let ghost before = map@;
            let d4 = AxialVector::direction(4);
            assert(d4.q == -1 && d4.r == 1);
            assert(d4.q * ring_radius == -ring_radius && d4.r * ring_radius == ring_radius) by (nonlinear_arith)
                requires
                    d4.q == -1 && d4.r == 1,
            ;
            let mut hex: AxialVector = ring_radius * d4;
            let mut edge_direction: u8 = 0;
            while edge_direction < 6
                invariant
                    1 <= ring_radius < size <= MAX_GRID_SIZE,
                    edge_direction <= 6,
                    map@.dom().finite(),
                    map@.dom().len() == 1 + 3 * ring_radius * (ring_radius - 1) + ring_radius
                        * edge_direction,
                    edge_direction < 6 ==> hex.coords() == ring_point(ring_radius as int, edge_direction as int, 0),
                    -COORD_LIMIT < hex.q < COORD_LIMIT,
                    -COORD_LIMIT < hex.r < COORD_LIMIT,
                    forall|c: AxialVector| #[trigger] map@.contains_key(c) ==> map@[c] == value,
                    forall|c: AxialVector| #[trigger]
                        map@.contains_key(c) <==> (c.spec_length() < ring_radius || exists|e: int, i: int|
                            0 <= e < edge_direction && 0 <= i < ring_radius && #[trigger] ring_point(
                                ring_radius as int,
                                e,
                                i,
                            ) == c.coords()),
                decreases 6 - edge_direction,
            {
                let mut edge_index: i32 = 0;
                while edge_index < ring_radius
                    invariant
                        1 <= ring_radius < size <= MAX_GRID_SIZE,
                        edge_direction < 6,
                        0 <= edge_index <= ring_radius,
                        map@.dom().finite(),
                        map@.dom().len() == 1 + 3 * ring_radius * (ring_radius - 1) + ring_radius
                            * edge_direction + edge_index,
                        hex.coords() == ring_point(ring_radius as int, edge_direction as int, edge_index as int),
                        forall|c: AxialVector| #[trigger] map@.contains_key(c) ==> map@[c] == value,
                        forall|c: AxialVector| #[trigger]
                            map@.contains_key(c) <==> (c.spec_length() < ring_radius || (exists|e: int, i: int|
                                0 <= e < edge_direction && 0 <= i < ring_radius && #[trigger] ring_point(
                                    ring_radius as int,
                                    e,
                                    i,
                                ) == c.coords()) || exists|i: int|
                                0 <= i < edge_index && #[trigger] ring_point(
                                    ring_radius as int,
                                    edge_direction as int,
                                    i,
                                ) == c.coords()),
                    decreases ring_radius - edge_index,
                {
                    proof {
                        lemma_ring_edge(ring_radius as int, edge_direction as int, edge_index as int);
                        lemma_ring(ring_radius as int, hex);
                        if map@.contains_key(hex) {
                            if hex.spec_length() >= ring_radius {
                                let (e, i) = choose|e: int, i: int|
                                    (0 <= e < edge_direction && 0 <= i < ring_radius && #[trigger] ring_point(
                                        ring_radius as int,
                                        e,
                                        i,
                                    ) == hex.coords()) || (e == edge_direction && 0 <= i < edge_index
                                        && ring_point(ring_radius as int, e, i) == hex.coords());
                                lemma_ring_edge(ring_radius as int, e, i);
                            }
                        }
                    }
                    fx_insert(&mut map, hex, value);
                    hex = hex + AxialVector::direction(edge_direction);
                    edge_index = edge_index + 1;
                }
                assert(ring_radius * edge_direction + ring_radius == ring_radius * (edge_direction + 1))
                    by (nonlinear_arith);
                assert(edge_direction < 5 ==> ring_point(ring_radius as int, edge_direction as int, ring_radius as int)
                    == ring_point(ring_radius as int, edge_direction + 1, 0));
                edge_direction = edge_direction + 1;
            }
            proof {
                assert forall|c: AxialVector| #[trigger] map@.contains_key(c) <==> c.spec_length() < ring_radius
                    + 1 by {
                    lemma_ring(ring_radius as int, c);
                }
            }
            assert(1 + 3 * ring_radius * (ring_radius - 1) + ring_radius * 6 == 1 + 3 * (ring_radius + 1)
                * ring_radius) by (nonlinear_arith);
            ring_radius = ring_radius + 1;
        }
        HexGrid { size, storage: map }
    }

    /// Whether `coordinate` lies within the grid's radius.
    pub fn is_in_bounds(&self, coordinate: AxialVector) -> (r: bool)
        requires
            self.wf(),
            coordinate.is_small(),
        ensures
            r == self.in_bounds(coordinate),
    {
        coordinate.length() < self.size
    }
}

} // verus!

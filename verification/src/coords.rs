//! Axial and cube hex coordinates and the six canonical neighbour offsets.

use vstd::prelude::*;

verus! {

/// Coordinates handled by the grid stay well inside this bound, so the
/// neighbour arithmetic below can never overflow an `i32`.
pub const COORD_LIMIT: i32 = 1000000;

/// The derived third axis of an axial coordinate: `s = -q - r`.
pub open spec fn axial_s(q: int, r: int) -> int {
    -q - r
}

/// An axial hex coordinate `(q, r)`, the canonical key of the grid.
#[derive(Clone, Copy, PartialEq, Eq, Structural, Hash, Debug)]
pub struct AxialCoordinate {
    pub q: i32,
    pub r: i32,
}

/// The `k`-th canonical neighbour offset, for `0 <= k < 6`:
/// (1,0), (1,-1), (0,-1), (-1,0), (-1,1), (0,1).
pub open spec fn neighbor_offset(k: int) -> (int, int) {
    if k == 0 {
        (1, 0)
    } else if k == 1 {
        (1, -1)
    } else if k == 2 {
        (0, -1)
    } else if k == 3 {
        (-1, 0)
    } else if k == 4 {
        (-1, 1)
    } else {
        (0, 1)
    }
}

/// The `k`-th neighbour of the axial coordinate `(q, r)`.
pub open spec fn neighbor_coord(q: int, r: int, k: int) -> (int, int) {
    (q + neighbor_offset(k).0, r + neighbor_offset(k).1)
}

impl AxialCoordinate {
    /// The pair `(q, r)` as mathematical integers.
    pub open spec fn view(self) -> (int, int) {
        (self.q as int, self.r as int)
    }

    pub fn new(q: i32, r: i32) -> (c: Self)
        ensures
            c.q == q,
            c.r == r,
    {
        AxialCoordinate { q, r }
    }

    pub fn q(&self) -> (q: i32)
        ensures
            q == self.q,
    {
        self.q
    }

    pub fn r(&self) -> (r: i32)
        ensures
            r == self.r,
    {
        self.r
    }

    /// The derived cube axis `s = -q - r`, widened so it is total.
    pub fn s(&self) -> (s: i64)
        ensures
            s == axial_s(self.q as int, self.r as int),
    {
        -(self.q as i64) - (self.r as i64)
    }

    /// The `k`-th of the six neighbours.
    pub fn neighbor(&self, k: usize) -> (n: Self)
        requires
            k < 6,
            -COORD_LIMIT <= self.q <= COORD_LIMIT,
            -COORD_LIMIT <= self.r <= COORD_LIMIT,
        ensures
            n@ == neighbor_coord(self.q as int, self.r as int, k as int),
    {
        match k {
            0 => AxialCoordinate { q: self.q + 1, r: self.r },
            1 => AxialCoordinate { q: self.q + 1, r: self.r - 1 },
            2 => AxialCoordinate { q: self.q, r: self.r - 1 },
            3 => AxialCoordinate { q: self.q - 1, r: self.r },
            4 => AxialCoordinate { q: self.q - 1, r: self.r + 1 },
            _ => AxialCoordinate { q: self.q, r: self.r + 1 },
        }
    }

    /// All six neighbours, in the canonical offset order. The six returned
    /// coordinates are pairwise distinct and each differs from `self` by
    /// one canonical unit offset.
    pub fn neighbours(&self) -> (ns: Vec<Self>)
        requires
            -COORD_LIMIT <= self.q <= COORD_LIMIT,
            -COORD_LIMIT <= self.r <= COORD_LIMIT,
        ensures
            ns@.len() == 6,
            forall|k: int| 0 <= k < 6 ==> (#[trigger] ns@[k])@ == neighbor_coord(
                self.q as int,
                self.r as int,
                k,
            ),
            forall|i: int, j: int| 0 <= i < 6 && 0 <= j < 6 && i != j ==> ns@[i] != ns@[j],
    {
        let mut ns: Vec<AxialCoordinate> = Vec::new();
        let mut k: usize = 0;
        while k < 6
            invariant
                k <= 6,
                ns@.len() == k,
                -COORD_LIMIT <= self.q <= COORD_LIMIT,
                -COORD_LIMIT <= self.r <= COORD_LIMIT,
                forall|i: int| 0 <= i < k ==> (#[trigger] ns@[i])@ == neighbor_coord(
                    self.q as int,
                    self.r as int,
                    i,
                ),
            decreases 6 - k,
        {
            ns.push(self.neighbor(k));
            k = k + 1;
        }
        assert forall|i: int, j: int| 0 <= i < 6 && 0 <= j < 6 && i != j implies ns@[i] != ns@[j] by {
            assert(ns@[i]@ == neighbor_coord(self.q as int, self.r as int, i));
            assert(ns@[j]@ == neighbor_coord(self.q as int, self.r as int, j));
        }
        ns
    }
}

impl From<CubeCoordinate> for AxialCoordinate {
    /// Projects a cube coordinate to axial by dropping `s`.
    fn from(cc: CubeCoordinate) -> (a: Self) {
        AxialCoordinate { q: cc.q, r: cc.r }
    }
}

impl vstd::std_specs::convert::FromSpecImpl<CubeCoordinate> for AxialCoordinate {
    open spec fn obeys_from_spec() -> bool {
        true
    }

    open spec fn from_spec(cc: CubeCoordinate) -> Self {
        AxialCoordinate { q: cc.q, r: cc.r }
    }
}

/// A cube hex coordinate `(q, r, s)`; a valid one satisfies `q + r + s == 0`.
#[derive(Clone, Copy, PartialEq, Eq, Structural, Hash, Debug)]
pub struct CubeCoordinate {
    pub q: i32,
    pub r: i32,
    pub s: i32,
}

impl CubeCoordinate {
    /// The cube invariant: the three axes sum to zero.
    pub open spec fn wf(self) -> bool {
        self.q as int + self.r as int + self.s as int == 0
    }

    pub fn new(q: i32, r: i32, s: i32) -> (c: Self)
        requires
            q as int + r as int + s as int == 0,
        ensures
            c.q == q,
            c.r == r,
            c.s == s,
            c.wf(),
    {
        CubeCoordinate { q, r, s }
    }

    pub fn q(&self) -> (q: i32)
        ensures
            q == self.q,
    {
        self.q
    }

    pub fn r(&self) -> (r: i32)
        ensures
            r == self.r,
    {
        self.r
    }

    pub fn s(&self) -> (s: i32)
        ensures
            s == self.s,
    {
        self.s
    }

    /// Projects out `s`, keeping `(q, r)`.
    pub fn to_axial(&self) -> (a: AxialCoordinate)
        ensures
            a.q == self.q,
            a.r == self.r,
    {
        AxialCoordinate { q: self.q, r: self.r }
    }
}

} // verus!

//! The sparse hex grid: a map from axial coordinate to a cell, built once
//! and fixed in key-set thereafter; only the cells' alive flags change.
//!
//! The grid is keyed by a packed `(q, r)` key in a hash map, as well as a
//! dense vector of cells; the map carries each coordinate to the index of
//! its cell, which acts as the cell's handle.

use std::collections::HashMap;

use vstd::arithmetic::div_mod::lemma_fundamental_div_mod_converse;
use vstd::prelude::*;

use crate::coords::{AxialCoordinate, COORD_LIMIT};
use crate::screen::{axial_to_screen, screen_x, screen_y, SIZE_MAX};

verus! {

broadcast use vstd::std_specs::hash::group_hash_axioms;

/// Half of the side length of the generated coordinate range: hexes are
/// generated for `-GEN_RANGE <= q < GEN_RANGE` and likewise for `r`.
pub const GEN_RANGE: i32 = 100;

/// The packed hash key of the axial coordinate `(q, r)`: both axes are
/// offset into `[0, 2^32)` and combined positionally, so the packing is
/// injective on the whole `i32` range.
pub open spec fn pack_key(q: int, r: int) -> int {
    (q + 0x8000_0000) * 0x1_0000_0000 + (r + 0x8000_0000)
}

/// The packed key as the `u64` actually stored in the hash map.
pub open spec fn pack_key64(q: int, r: int) -> u64 {
    pack_key(q, r) as u64
}

/// Packing is injective on the `i32` range.
proof fn lemma_pack_injective(q1: int, r1: int, q2: int, r2: int)
    requires
        -0x8000_0000 <= q1 < 0x8000_0000,
        -0x8000_0000 <= r1 < 0x8000_0000,
        -0x8000_0000 <= q2 < 0x8000_0000,
        -0x8000_0000 <= r2 < 0x8000_0000,
        pack_key(q1, r1) == pack_key(q2, r2),
    ensures
        q1 == q2,
        r1 == r2,
{
    let x = pack_key(q1, r1);
    lemma_fundamental_div_mod_converse(x, 0x1_0000_0000, q1 + 0x8000_0000, r1 + 0x8000_0000);
    lemma_fundamental_div_mod_converse(x, 0x1_0000_0000, q2 + 0x8000_0000, r2 + 0x8000_0000);
}

/// The packed key of an axial coordinate.
fn pack(coord: &AxialCoordinate) -> (k: u64)
    ensures
        k == pack_key64(coord.q as int, coord.r as int),
        k as int == pack_key(coord.q as int, coord.r as int),
{
    let qa = ((coord.q as i64) + 0x8000_0000) as u64;
    let ra = ((coord.r as i64) + 0x8000_0000) as u64;
    qa * 0x1_0000_0000 + ra
}

/// One cell of the grid: its fixed coordinate and its alive flag.
#[derive(Clone, Copy, PartialEq, Eq, Structural, Debug)]
pub struct Cell {
    pub coord: AxialCoordinate,
    pub alive: bool,
}

impl Cell {
    pub fn new(coord: AxialCoordinate) -> (c: Self)
        ensures
            c.coord == coord,
            !c.alive,
    {
        Cell { coord, alive: false }
    }

    pub fn is_alive(&self) -> (a: bool)
        ensures
            a == self.alive,
    {
        self.alive
    }

    pub fn set_alive(&mut self, alive: bool) -> (r: ())
        ensures
            final(self).coord == old(self).coord,
            final(self).alive == alive,
    {
        self.alive = alive;
    }
}

/// The sparse hex grid.
pub struct HexGrid {
    pub cells: Vec<Cell>,
    pub index: HashMap<u64, usize>,
}

/// The abstract effect of a pointer toggle on the grid model: flip the
/// alive flag of a present coordinate; a coordinate outside the grid is
/// a no-op.
pub open spec fn toggle_spec(m: Map<(int, int), bool>, p: (int, int)) -> Map<(int, int), bool> {
    if m.dom().contains(p) {
        m.insert(p, !m[p])
    } else {
        m
    }
}

/// Toggling a coordinate twice in immediate succession restores the
/// original grid model exactly.
pub proof fn lemma_toggle_twice(m: Map<(int, int), bool>, p: (int, int))
    ensures
        toggle_spec(toggle_spec(m, p), p) == m,
{
    if m.dom().contains(p) {
        assert(toggle_spec(toggle_spec(m, p), p) =~= m);
    }
}

impl View for HexGrid {
    type V = Map<(int, int), bool>;

    /// The grid as a map from present coordinate to alive flag.
    open spec fn view(&self) -> Map<(int, int), bool> {
        Map::new(|p: (int, int)| self.has(p), |p: (int, int)| self.alive_at(p))
    }
}

impl HexGrid {
    /// The coordinates of the cells, in handle order.
    pub open spec fn coords_seq(self) -> Seq<(int, int)> {
        self.cells@.map_values(|c: Cell| c.coord@)
    }

    /// Whether a coordinate was generated.
    pub open spec fn has(self, p: (int, int)) -> bool {
        self.coords_seq().contains(p)
    }

    /// The handle (cell index) of a present coordinate.
    pub open spec fn cell_index(self, p: (int, int)) -> int {
        choose|i: int| 0 <= i < self.cells@.len() && self.coords_seq()[i] == p
    }

    /// The alive flag of a present coordinate.
    pub open spec fn alive_at(self, p: (int, int)) -> bool {
        self.cells@[self.cell_index(p)].alive
    }

    /// Well-formedness: every cell's coordinate is in bounds and indexed
    /// under its packed key, and every index entry points back at the
    /// cell it indexes.
    pub open spec fn wf(self) -> bool {
        &&& forall|i: int|
            0 <= i < self.cells@.len() ==> {
                let c = #[trigger] self.cells@[i];
                &&& -COORD_LIMIT <= c.coord.q <= COORD_LIMIT
                &&& -COORD_LIMIT <= c.coord.r <= COORD_LIMIT
                &&& self.index@.contains_key(pack_key64(c.coord.q as int, c.coord.r as int))
                &&& self.index@[pack_key64(c.coord.q as int, c.coord.r as int)] as int == i
            }
        &&& forall|k: u64|
            #[trigger] self.index@.contains_key(k) ==> {
                &&& (self.index@[k] as int) < self.cells@.len()
                &&& pack_key64(
                    self.cells@[self.index@[k] as int].coord.q as int,
                    self.cells@[self.index@[k] as int].coord.r as int,
                ) == k
            }
    }

    /// Distinct handles hold distinct coordinates.
    pub proof fn lemma_distinct(self)
        requires
            self.wf(),
        ensures
            forall|i: int, j: int|
                0 <= i < self.cells@.len() && 0 <= j < self.cells@.len() && i != j
                    ==> (#[trigger] self.cells@[i]).coord@ != (#[trigger] self.cells@[j]).coord@,
    {
        assert forall|i: int, j: int|
            0 <= i < self.cells@.len() && 0 <= j < self.cells@.len() && i != j implies (
        #[trigger] self.cells@[i]).coord@ != (#[trigger] self.cells@[j]).coord@ by {
            let ci = self.cells@[i].coord;
            let cj = self.cells@[j].coord;
            if ci@ == cj@ {
                assert(pack_key64(ci.q as int, ci.r as int) == pack_key64(cj.q as int, cj.r as int));
            }
        }
    }

    /// A present coordinate's handle is the unique index holding it.
    pub proof fn lemma_cell_index(self, p: (int, int), i: int)
        requires
            self.wf(),
            0 <= i < self.cells@.len(),
            self.cells@[i].coord@ == p,
        ensures
            self.cell_index(p) == i,
            self.has(p),
    {
        self.lemma_distinct();
        assert(self.coords_seq()[i] == p);
        let j = self.cell_index(p);
        assert(0 <= j < self.cells@.len() && self.coords_seq()[j] == p);
    }

    /// An empty grid.
    pub fn new() -> (g: Self)
        ensures
            g.wf(),
            g@ == Map::<(int, int), bool>::empty(),
            g.cells@.len() == 0,
    {
        let g = HexGrid { cells: Vec::new(), index: HashMap::new() };
        proof {
            assert(g@ =~= Map::<(int, int), bool>::empty());
        }
        g
    }

    /// The number of generated cells.
    pub fn cell_count(&self) -> (n: usize)
        ensures
            n == self.cells@.len(),
    {
        self.cells.len()
    }

    /// Looks a coordinate up: the handle of its cell, or `None` for a
    /// coordinate that was never generated.
    pub fn get(&self, coord: &AxialCoordinate) -> (res: Option<usize>)
        requires
            self.wf(),
        ensures
            res is Some <==> self.has(coord@),
            res matches Some(i) ==> i < self.cells@.len() && self.cells@[i as int].coord@ == coord@
                && i as int == self.cell_index(coord@),
    {
        let k = pack(coord);
        match self.index.get(&k) {
            Some(i_ref) => {
                let i = *i_ref;
                proof {
                    let c = self.cells@[i as int];
                    lemma_pack_injective(
                        c.coord.q as int,
                        c.coord.r as int,
                        coord.q as int,
                        coord.r as int,
                    );
                    self.lemma_cell_index(coord@, i as int);
                }
                Some(i)
            },
            None => {
                proof {
                    if self.has(coord@) {
                        let i = choose|i: int|
                            0 <= i < self.cells@.len() && self.coords_seq()[i] == coord@;
                        assert(self.index@.contains_key(
                            pack_key64(
                                self.cells@[i].coord.q as int,
                                self.cells@[i].coord.r as int,
                            ),
                        ));
                    }
                }
                None
            },
        }
    }

    /// Whether the coordinate is a generated cell that is alive.
    pub fn is_alive(&self, coord: &AxialCoordinate) -> (a: bool)
        requires
            self.wf(),
        ensures
            a == (self.has(coord@) && self@[coord@]),
    {
        match self.get(coord) {
            Some(i) => self.cells[i].is_alive(),
            None => false,
        }
    }

    /// Flips the alive flag of the cell at the coordinate; a coordinate
    /// outside the grid is a no-op. Returns whether a cell was toggled.
    pub fn toggle(&mut self, coord: &AxialCoordinate) -> (toggled: bool)
        requires
            old(self).wf(),
        ensures
            final(self).wf(),
            final(self).coords_seq() == old(self).coords_seq(),
            final(self).cells@.len() == old(self).cells@.len(),
            final(self)@ == toggle_spec(old(self)@, coord@),
            toggled == old(self).has(coord@),
    {
        let ghost g0 = *self;
        match self.get(coord) {
            Some(i) => {
                let was = self.cells[i].is_alive();
                self.cells[i].set_alive(!was);
                proof {
                    lemma_flag_update(g0, *self, i as int);
                    assert(g0@[coord@] == was) by {
                        g0.lemma_cell_index(coord@, i as int);
                    }
                    assert(self@ =~= g0@.insert(coord@, !was)) by {
                        g0.lemma_distinct();
                        assert(self.coords_seq() =~= g0.coords_seq());
                        lemma_view_after_flag_update(g0, *self, coord@, !was, i as int);
                    }
                }
                true
            },
            None => {
                proof {
                    assert(self@ =~= g0@);
                }
                false
            },
        }
    }
}

/// Whether the screen centre of hex `(q, r)` falls inside a viewport
/// with the given half-extents (fixed-point units).
pub open spec fn in_view(size: int, q: int, r: int, hw: int, hh: int) -> bool {
    &&& -hw <= screen_x(size, q) <= hw
    &&& -hh <= screen_y(size, q, r) <= hh
}

/// Whether a coordinate is generated at construction: it lies in the
/// bounded generation range and its screen centre is inside the viewport.
pub open spec fn generated(size: int, hw: int, hh: int, p: (int, int)) -> bool {
    &&& -(GEN_RANGE as int) <= p.0 < GEN_RANGE as int
    &&& -(GEN_RANGE as int) <= p.1 < GEN_RANGE as int
    &&& in_view(size, p.0, p.1, hw, hh)
}

impl HexGrid {
    /// Appends a fresh dead cell for a coordinate not yet present.
    fn insert_cell(&mut self, coord: AxialCoordinate)
        requires
            old(self).wf(),
            !old(self).has(coord@),
            -COORD_LIMIT <= coord.q <= COORD_LIMIT,
            -COORD_LIMIT <= coord.r <= COORD_LIMIT,
        ensures
            final(self).wf(),
            final(self).coords_seq() == old(self).coords_seq().push(coord@),
            final(self).cells@.len() == old(self).cells@.len() + 1,
            final(self)@ == old(self)@.insert(coord@, false),
    {
        let ghost g0 = *self;
        let i = self.cells.len();
        let k = pack(&coord);
        self.cells.push(Cell::new(coord));
        self.index.insert(k, i);
        proof {
            assert forall|j: int| 0 <= j < g0.cells@.len() implies pack_key64(
                (#[trigger] g0.cells@[j]).coord.q as int,
                g0.cells@[j].coord.r as int,
            ) != k by {
                let cj = g0.cells@[j].coord;
                if pack_key64(cj.q as int, cj.r as int) == k {
                    lemma_pack_injective(cj.q as int, cj.r as int, coord.q as int, coord.r as int);
                    g0.lemma_cell_index(coord@, j);
                }
            }
            assert(final(self).coords_seq() =~= g0.coords_seq().push(coord@));
            assert(final(self).wf()) by {
                assert forall|j: int| 0 <= j < self.cells@.len() implies {
                    let c = #[trigger] self.cells@[j];
                    &&& -COORD_LIMIT <= c.coord.q <= COORD_LIMIT
                    &&& -COORD_LIMIT <= c.coord.r <= COORD_LIMIT
                    &&& self.index@.contains_key(pack_key64(c.coord.q as int, c.coord.r as int))
                    &&& self.index@[pack_key64(c.coord.q as int, c.coord.r as int)] as int == j
                } by {
                    if j < g0.cells@.len() {
                        assert(self.cells@[j] == g0.cells@[j]);
                    }
                }
            }
            assert(final(self)@ =~= g0@.insert(coord@, false)) by {
                self.lemma_cell_index(coord@, i as int);
                assert forall|p2: (int, int)| self.has(p2) && p2 != coord@ implies g0.has(p2)
                    && self.alive_at(p2) == g0.alive_at(p2) by {
                    let j = self.cell_index(p2);
                    assert(0 <= j < self.cells@.len() && self.coords_seq()[j] == p2);
                    assert(j != i as int);
                    assert(g0.coords_seq()[j] == p2);
                    g0.lemma_cell_index(p2, j);
                    self.lemma_cell_index(p2, j);
                }
                assert forall|p2: (int, int)| g0.has(p2) implies self.has(p2) by {
                    let j = g0.cell_index(p2);
                    assert(g0.coords_seq()[j] == p2);
                    assert(self.coords_seq()[j] == p2);
                }
            }
        }
    }

    /// Builds the grid for a viewport: every hex in the generation range
    /// whose screen centre falls within the given half-extents gets a
    /// dead cell; everything else is never created.
    pub fn build(size: i64, half_width: i64, half_height: i64) -> (g: HexGrid)
        requires
            1 <= size <= SIZE_MAX,
            0 <= half_width,
            0 <= half_height,
        ensures
            g.wf(),
            forall|p: (int, int)| #[trigger] g.has(p) <==> generated(
                size as int,
                half_width as int,
                half_height as int,
                p,
            ),
            forall|p: (int, int)| #[trigger] g@.dom().contains(p) ==> g@[p] == false,
    {
        let ghost hw = half_width as int;
        let ghost hh = half_height as int;
        let mut g = HexGrid::new();
        let mut q: i32 = -GEN_RANGE;
        while q < GEN_RANGE
            invariant
                1 <= size <= SIZE_MAX,
                -GEN_RANGE <= q <= GEN_RANGE,
                g.wf(),
                hw == half_width as int,
                hh == half_height as int,
                0 <= half_width,
                0 <= half_height,
                forall|p: (int, int)| #[trigger] g.has(p) <==> (generated(size as int, hw, hh, p)
                    && p.0 < q as int),
                forall|p: (int, int)| #[trigger] g@.dom().contains(p) ==> g@[p] == false,
            decreases GEN_RANGE as int - q,
        {
            let mut r: i32 = -GEN_RANGE;
            while r < GEN_RANGE
                invariant
                    1 <= size <= SIZE_MAX,
                    -GEN_RANGE <= q < GEN_RANGE,
                    -GEN_RANGE <= r <= GEN_RANGE,
                    g.wf(),
                    hw == half_width as int,
                    hh == half_height as int,
                    0 <= half_width,
                    0 <= half_height,
                    forall|p: (int, int)| #[trigger] g.has(p) <==> (generated(
                        size as int,
                        hw,
                        hh,
                        p,
                    ) && (p.0 < q as int || (p.0 == q as int && p.1 < r as int))),
                    forall|p: (int, int)| #[trigger] g@.dom().contains(p) ==> g@[p] == false,
                decreases GEN_RANGE as int - r,
            {
                let coord = AxialCoordinate::new(q, r);
                let (x, y) = axial_to_screen(size, &coord);
                let ghost gprev = g;
                if !(x < -half_width || x > half_width || y < -half_height || y > half_height) {
                    g.insert_cell(coord);
                } else {
                    proof {
                        assert(!generated(size as int, hw, hh, (q as int, r as int)));
                    }
                }
                proof {
                    assert forall|p: (int, int)| #[trigger] g.has(p) <==> (generated(
                        size as int,
                        hw,
                        hh,
                        p,
                    ) && (p.0 < q as int || (p.0 == q as int && p.1 < r as int + 1))) by {
                        let n = gprev.coords_seq().len();
                        if g.has(p) {
                            let j = choose|j: int|
                                0 <= j < g.coords_seq().len() && g.coords_seq()[j] == p;
                            if j < n {
                                assert(gprev.coords_seq()[j] == p);
                                assert(gprev.has(p));
                            } else {
                                assert(p == coord@);
                            }
                        }
                        if generated(size as int, hw, hh, p) && (p.0 < q as int || (p.0
                            == q as int && p.1 < r as int + 1)) {
                            if p.0 < q as int || (p.0 == q as int && p.1 < r as int) {
                                assert(gprev.has(p));
                                let j = choose|j: int|
                                    0 <= j < gprev.coords_seq().len() && gprev.coords_seq()[j]
                                        == p;
                                assert(g.coords_seq()[j] == p);
                                assert(g.has(p));
                            } else {
                                assert(p == coord@);
                                assert(g.coords_seq()[n as int] == p);
                                assert(g.has(p));
                            }
                        }
                    }
                }
                r = r + 1;
            }
            q = q + 1;
        }
        g
    }
}

/// After updating only the alive flag of one cell, the grid is still
/// well-formed and its coordinate sequence is unchanged.
pub(crate) proof fn lemma_flag_update(g0: HexGrid, g1: HexGrid, i: int)
    requires
        g0.wf(),
        0 <= i < g0.cells@.len(),
        g1.index == g0.index,
        g1.cells@.len() == g0.cells@.len(),
        g1.cells@ =~= g0.cells@.update(i, g1.cells@[i]),
        g1.cells@[i].coord == g0.cells@[i].coord,
    ensures
        g1.wf(),
        g1.coords_seq() =~= g0.coords_seq(),
{
    assert forall|j: int| 0 <= j < g1.cells@.len() implies (#[trigger] g1.cells@[j]).coord
        == g0.cells@[j].coord by {
    }
}

/// The view after flipping one cell's flag is the old view with that
/// cell's coordinate re-mapped.
proof fn lemma_view_after_flag_update(g0: HexGrid, g1: HexGrid, p: (int, int), alive: bool, i: int)
    requires
        g0.wf(),
        g1.wf(),
        0 <= i < g0.cells@.len(),
        g0.cells@[i].coord@ == p,
        g1.cells@.len() == g0.cells@.len(),
        g1.coords_seq() =~= g0.coords_seq(),
        g1.cells@ =~= g0.cells@.update(i, g1.cells@[i]),
        g1.cells@[i].coord@ == p,
        g1.cells@[i].alive == alive,
    ensures
        g1@ =~= g0@.insert(p, alive),
{
    g0.lemma_cell_index(p, i);
    g1.lemma_cell_index(p, i);
    assert forall|p2: (int, int)| g1.has(p2) && p2 != p implies g1.alive_at(p2) == g0.alive_at(
        p2,
    ) by {
        let j = g1.cell_index(p2);
        assert(0 <= j < g1.cells@.len() && g1.coords_seq()[j] == p2);
        assert(g0.coords_seq()[j] == p2);
        g0.lemma_cell_index(p2, j);
        assert(j != i);
    }
}

} // verus!

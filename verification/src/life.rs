//! The automaton stepper and the interaction mapper.
//!
//! One fixed-step tick surveys the pre-step grid, counts each present
//! cell's alive neighbours, and then commits the new partition in one
//! pass: a cell is alive after the step exactly when it had two alive
//! neighbours before it (survival and birth both require exactly two).

use vstd::prelude::*;

use crate::coords::{neighbor_coord, AxialCoordinate, COORD_LIMIT};
use crate::grid::{toggle_spec, HexGrid};
use crate::screen::{screen_to_axial, screen_to_axial_spec, SCREEN_MAX, SIZE_MAX};

verus! {

/// Whether the coordinate holds a generated, alive cell in the model.
pub open spec fn live_at(m: Map<(int, int), bool>, p: (int, int)) -> bool {
    m.dom().contains(p) && m[p]
}

/// The number of alive cells among the first `k` canonical neighbours
/// of `p`.
pub open spec fn live_count_upto(m: Map<(int, int), bool>, p: (int, int), k: nat) -> nat
    decreases k,
{
    if k == 0 {
        0
    } else {
        live_count_upto(m, p, (k - 1) as nat) + if live_at(
            m,
            neighbor_coord(p.0, p.1, k - 1),
        ) {
            1nat
        } else {
            0nat
        }
    }
}

/// The number of alive cells among the six neighbours of `p`. A missing
/// neighbour (outside the generated grid) counts as permanently dead.
pub open spec fn live_neighbors(m: Map<(int, int), bool>, p: (int, int)) -> nat {
    live_count_upto(m, p, 6)
}

/// The automaton rule: after one step a cell is alive exactly when it
/// had two alive neighbours before the step, whether it was alive
/// (survival requires exactly two) or dead (birth requires exactly two).
pub open spec fn step_alive(m: Map<(int, int), bool>, p: (int, int)) -> bool {
    live_neighbors(m, p) == 2
}

/// Survival rule boundary: an alive cell with exactly two alive
/// neighbours remains alive after one step; with any other count it
/// becomes dead.
pub proof fn lemma_survival_rule(m: Map<(int, int), bool>, p: (int, int))
    requires
        m.dom().contains(p),
        m[p],
    ensures
        live_neighbors(m, p) == 2 ==> step_alive(m, p),
        live_neighbors(m, p) != 2 ==> !step_alive(m, p),
{
}

/// Birth rule boundary: a dead cell with exactly two alive neighbours
/// becomes alive after one step; with any other count it stays dead.
pub proof fn lemma_birth_rule(m: Map<(int, int), bool>, p: (int, int))
    requires
        m.dom().contains(p),
        !m[p],
    ensures
        live_neighbors(m, p) == 2 ==> step_alive(m, p),
        live_neighbors(m, p) != 2 ==> !step_alive(m, p),
{
}

/// An isolated cell — all six neighbours dead or absent — is dead after
/// one step, alive or not.
pub proof fn lemma_isolated_cell(m: Map<(int, int), bool>, p: (int, int))
    requires
        forall|k: int| 0 <= k < 6 ==> !live_at(m, #[trigger] neighbor_coord(p.0, p.1, k)),
    ensures
        !step_alive(m, p),
{
    assert(live_count_upto(m, p, 0) == 0);
    assert(live_count_upto(m, p, 1) == 0);
    assert(live_count_upto(m, p, 2) == 0);
    assert(live_count_upto(m, p, 3) == 0);
    assert(live_count_upto(m, p, 4) == 0);
    assert(live_count_upto(m, p, 5) == 0);
    assert(live_count_upto(m, p, 6) == 0);
}

/// The run/pause gate of the simulation.
pub struct GameState {
    pub started: bool,
}

impl GameState {
    /// A fresh simulation is paused.
    pub fn new() -> (s: Self)
        ensures
            !s.started,
    {
        GameState { started: false }
    }

    /// A press of the start/pause control flips the running flag; a
    /// frame without a press leaves it unchanged.
    pub fn apply_toggle_event(&mut self, pressed: bool)
        ensures
            final(self).started == (old(self).started != pressed),
    {
        if pressed {
            self.started = !self.started;
        }
    }
}

impl HexGrid {
    /// The number of alive cells among the six neighbours of the
    /// coordinate that are present in the grid.
    pub fn count_live_neighbors(&self, coord: &AxialCoordinate) -> (n: u8)
        requires
            self.wf(),
            -COORD_LIMIT <= coord.q <= COORD_LIMIT,
            -COORD_LIMIT <= coord.r <= COORD_LIMIT,
        ensures
            n == live_neighbors(self@, coord@),
    {
        let mut n: u8 = 0;
        let mut k: usize = 0;
        while k < 6
            invariant
                k <= 6,
                n <= k,
                self.wf(),
                -COORD_LIMIT <= coord.q <= COORD_LIMIT,
                -COORD_LIMIT <= coord.r <= COORD_LIMIT,
                n as nat == live_count_upto(self@, coord@, k as nat),
            decreases 6 - k,
        {
            let nb = coord.neighbor(k);
            if self.is_alive(&nb) {
                n = n + 1;
            }
            k = k + 1;
        }
        n
    }

    /// One fixed tick of the automaton. While paused (`running` false)
    /// nothing changes. While running, the pre-step partition is
    /// surveyed in full, and then every present cell's flag is set in a
    /// single commit: alive exactly when it had two alive neighbours
    /// before the step. The key set never changes.
    pub fn step(&mut self, running: bool)
        requires
            old(self).wf(),
        ensures
            final(self).wf(),
            final(self).coords_seq() == old(self).coords_seq(),
            final(self).cells@.len() == old(self).cells@.len(),
            final(self)@.dom() == old(self)@.dom(),
            !running ==> final(self)@ == old(self)@,
            running ==> forall|p: (int, int)| #[trigger] old(self).has(p) ==> final(self)@[p]
                == step_alive(old(self)@, p),
    {
        let ghost g0 = *self;
        if !running {
            return ;
        }
        // Survey phase: read-only pass over the pre-step partition.
        let mut next: Vec<bool> = Vec::new();
        let mut i: usize = 0;
        while i < self.cells.len()
            invariant
                *self == g0,
                g0.wf(),
                i <= self.cells@.len(),
                next@.len() == i,
                forall|j: int| 0 <= j < i ==> next@[j] == step_alive(
                    g0@,
                    (#[trigger] g0.cells@[j]).coord@,
                ),
            decreases self.cells@.len() - i,
        {
            let coord = self.cells[i].coord;
            let n = self.count_live_neighbors(&coord);
            next.push(n == 2);
            i = i + 1;
        }
        // Commit phase: write the post-step partition in one pass.
        let mut i: usize = 0;
        while i < self.cells.len()
            invariant
                self.wf(),
                g0.wf(),
                self.index == g0.index,
                i <= self.cells@.len(),
                self.cells@.len() == g0.cells@.len(),
                next@.len() == g0.cells@.len(),
                self.coords_seq() == g0.coords_seq(),
                forall|j: int| 0 <= j < next@.len() ==> next@[j] == step_alive(
                    g0@,
                    (#[trigger] g0.cells@[j]).coord@,
                ),
                forall|j: int| 0 <= j < i ==> (#[trigger] self.cells@[j]).alive == next@[j],
                forall|j: int| i <= j < self.cells@.len() ==> #[trigger] self.cells@[j]
                    == g0.cells@[j],
            decreases self.cells@.len() - i,
        {
            let ghost gprev = *self;
            let v = next[i];
            self.cells[i].set_alive(v);
            proof {
                assert(self.cells@ =~= gprev.cells@.update(i as int, self.cells@[i as int]));
                crate::grid::lemma_flag_update(gprev, *self, i as int);
            }
            i = i + 1;
        }
        proof {
            assert(final(self)@.dom() =~= g0@.dom()) by {
                assert forall|p: (int, int)| self.has(p) <==> g0.has(p) by {}
            }
            assert forall|p: (int, int)| #[trigger] g0.has(p) implies self@[p] == step_alive(
                g0@,
                p,
            ) by {
                let j = g0.cell_index(p);
                assert(0 <= j < g0.cells@.len() && g0.coords_seq()[j] == p);
                assert(self.coords_seq()[j] == p);
                self.lemma_cell_index(p, j);
                assert(self.cells@[j].alive == next@[j]);
                assert(g0.cells@[j].coord@ == p);
            }
        }
    }
}

/// The interaction mapper: a primary-press event at a world-space
/// position toggles the hex it falls in; a position mapping outside the
/// generated grid is a no-op and leaves every cell untouched.
pub fn pointer_press(grid: &mut HexGrid, size: i64, x: i64, y: i64) -> (toggled: bool)
    requires
        old(grid).wf(),
        1 <= size <= SIZE_MAX,
        -SCREEN_MAX <= x <= SCREEN_MAX,
        -SCREEN_MAX <= y <= SCREEN_MAX,
    ensures
        final(grid).wf(),
        final(grid).coords_seq() == old(grid).coords_seq(),
        final(grid).cells@.len() == old(grid).cells@.len(),
        final(grid)@ == toggle_spec(
            old(grid)@,
            screen_to_axial_spec(size as int, x as int, y as int),
        ),
        toggled == old(grid).has(screen_to_axial_spec(size as int, x as int, y as int)),
{
    let axial = screen_to_axial(size, x, y);
    grid.toggle(&axial)
}

} // verus!

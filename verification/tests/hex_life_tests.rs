use hex_life::coords::AxialCoordinate;
use hex_life::grid::HexGrid;
use hex_life::life::{pointer_press, GameState};
use hex_life::screen::{
    axial_to_screen, cube_round, hex_dimensions, screen_to_axial, FracCube, FP_ONE, SQRT3_FP,
};

const BIG: i64 = 1000000000000000;

fn full_grid() -> HexGrid {
    HexGrid::build(10, BIG, BIG)
}

fn toggle(g: &mut HexGrid, q: i32, r: i32) {
    let c = AxialCoordinate::new(q, r);
    assert!(g.toggle(&c));
}

fn alive(g: &HexGrid, q: i32, r: i32) -> bool {
    g.is_alive(&AxialCoordinate::new(q, r))
}

#[test]
fn axial_to_screen_exact_values() {
    let one = AxialCoordinate::new(1, 0);
    assert_eq!(axial_to_screen(10, &one), (15728640, 9080930));
    let up = AxialCoordinate::new(0, 1);
    assert_eq!(axial_to_screen(10, &up), (0, 18161860));
    let far = AxialCoordinate::new(-2, 3);
    assert_eq!(axial_to_screen(10, &far), (-31457280, 36323720));
    assert_eq!(axial_to_screen(10, &AxialCoordinate::new(0, 0)), (0, 0));
}

#[test]
fn hex_dimensions_exact_values() {
    assert_eq!(hex_dimensions(10), (20 * FP_ONE, 10 * SQRT3_FP));
    assert_eq!(hex_dimensions(1), (2 * FP_ONE, SQRT3_FP));
}

#[test]
fn round_trip_identity_generated_range() {
    for &size in &[1i64, 7, 10, 499, 5000] {
        for &q in &[-100i32, -99, -37, -1, 0, 1, 42, 99] {
            for &r in &[-100i32, -50, 0, 13, 99] {
                let c = AxialCoordinate::new(q, r);
                let (x, y) = axial_to_screen(size, &c);
                let back = screen_to_axial(size, x, y);
                assert_eq!((back.q(), back.r()), (q, r));
            }
        }
    }
}

#[test]
fn round_trip_survives_perturbation() {
    let c = AxialCoordinate::new(2, -1);
    let (x, y) = axial_to_screen(10, &c);
    let back = screen_to_axial(10, x + 3000, y + 500);
    assert_eq!((back.q(), back.r()), (2, -1));
}

#[test]
fn cube_round_invariant_on_inconsistent_inputs() {
    let samples = [
        (419431i64, 419431i64, 419431i64),
        (629146, 314573, 314573),
        (314573, 629146, 209715),
        (-629146, -314573, 943719),
        (123456789, -987654321, 55555),
        (0, 0, 0),
    ];
    for &(qf, rf, sf) in &samples {
        let cube = cube_round(FracCube { qf, rf, sf });
        assert_eq!(cube.q() as i64 + cube.r() as i64 + cube.s() as i64, 0);
    }
}

#[test]
fn cube_round_repairs_largest_error_axis() {
    // q has the largest rounding error and is recomputed from r and s.
    let c = cube_round(FracCube { qf: 629146, rf: 314573, sf: 314573 });
    assert_eq!((c.q(), c.r(), c.s()), (0, 0, 0));
    // r has the largest rounding error and is recomputed from q and s.
    let c = cube_round(FracCube { qf: 314573, rf: 629146, sf: 209715 });
    assert_eq!((c.q(), c.r(), c.s()), (0, 0, 0));
    // Ties repair the s axis.
    let c = cube_round(FracCube { qf: 419431, rf: 419431, sf: 419431 });
    assert_eq!((c.q(), c.r(), c.s()), (0, 0, 0));
    // An already-exact cube is untouched.
    let c = cube_round(FracCube {
        qf: 2 * FP_ONE,
        rf: -3 * FP_ONE,
        sf: FP_ONE,
    });
    assert_eq!((c.q(), c.r(), c.s()), (2, -3, 1));
}

#[test]
fn neighbor_count_six_distinct_unit_offsets() {
    let offsets = [(1, 0), (1, -1), (0, -1), (-1, 0), (-1, 1), (0, 1)];
    for &(q, r) in &[(0i32, 0i32), (5, -3), (-100, 99)] {
        let c = AxialCoordinate::new(q, r);
        let ns = c.neighbours();
        assert_eq!(ns.len(), 6);
        for (k, n) in ns.iter().enumerate() {
            assert_eq!((n.q() - q, n.r() - r), offsets[k]);
        }
        for i in 0..6 {
            for j in 0..6 {
                if i != j {
                    assert!((ns[i].q(), ns[i].r()) != (ns[j].q(), ns[j].r()));
                }
            }
        }
    }
}

#[test]
fn axial_s_derived_axis() {
    assert_eq!(AxialCoordinate::new(3, -5).s(), 2);
    assert_eq!(AxialCoordinate::new(0, 0).s(), 0);
}

#[test]
fn grid_build_filters_by_viewport() {
    // Half-width exactly one hex column: only q in {-1, 0, 1} fits.
    let g = HexGrid::build(10, 15728640, BIG);
    assert_eq!(g.cell_count(), 3 * 200);
    assert!(g.get(&AxialCoordinate::new(1, 57)).is_some());
    assert!(g.get(&AxialCoordinate::new(-1, -100)).is_some());
    assert!(g.get(&AxialCoordinate::new(2, 0)).is_none());
    assert!(g.get(&AxialCoordinate::new(0, 100)).is_none());
}

#[test]
fn grid_cells_start_dead() {
    let g = full_grid();
    assert_eq!(g.cell_count(), 200 * 200);
    assert!(!alive(&g, 0, 0));
    assert!(!alive(&g, -100, 99));
}

fn survival_after_step(n_alive_neighbors: usize) -> bool {
    let mut g = full_grid();
    toggle(&mut g, 0, 0);
    let offsets = [(1, 0), (1, -1), (0, -1), (-1, 0), (-1, 1), (0, 1)];
    for &(dq, dr) in offsets.iter().take(n_alive_neighbors) {
        toggle(&mut g, dq, dr);
    }
    g.step(true);
    alive(&g, 0, 0)
}

#[test]
fn survival_rule_boundary() {
    assert!(!survival_after_step(0));
    assert!(!survival_after_step(1));
    assert!(survival_after_step(2));
    assert!(!survival_after_step(3));
    assert!(!survival_after_step(4));
    assert!(!survival_after_step(5));
    assert!(!survival_after_step(6));
}

fn birth_after_step(n_alive_neighbors: usize) -> bool {
    let mut g = full_grid();
    let offsets = [(1, 0), (1, -1), (0, -1), (-1, 0), (-1, 1), (0, 1)];
    for &(dq, dr) in offsets.iter().take(n_alive_neighbors) {
        toggle(&mut g, dq, dr);
    }
    g.step(true);
    alive(&g, 0, 0)
}

#[test]
fn birth_rule_boundary() {
    assert!(!birth_after_step(0));
    assert!(!birth_after_step(1));
    assert!(birth_after_step(2));
    assert!(!birth_after_step(3));
    assert!(!birth_after_step(4));
    assert!(!birth_after_step(5));
    assert!(!birth_after_step(6));
}

#[test]
fn idempotent_toggle() {
    let mut g = full_grid();
    let c = AxialCoordinate::new(3, -2);
    let before = g.is_alive(&c);
    assert!(g.toggle(&c));
    assert_eq!(g.is_alive(&c), !before);
    assert!(g.toggle(&c));
    assert_eq!(g.is_alive(&c), before);
    // Toggling an absent coordinate twice is twice a no-op.
    let outside = AxialCoordinate::new(150, 0);
    assert!(!g.toggle(&outside));
    assert!(!g.toggle(&outside));
    assert!(!g.is_alive(&outside));
}

#[test]
fn stable_triangle_scenario() {
    let mut g = full_grid();
    toggle(&mut g, 0, 0);
    toggle(&mut g, 1, 0);
    toggle(&mut g, 0, 1);
    g.step(true);
    // Each triangle cell had exactly two alive neighbours: all survive.
    assert!(alive(&g, 0, 0));
    assert!(alive(&g, 1, 0));
    assert!(alive(&g, 0, 1));
    // The dead cells adjacent to exactly two of the triangle are born.
    assert!(alive(&g, 1, -1));
    assert!(alive(&g, -1, 1));
    assert!(alive(&g, 1, 1));
    // Dead cells adjacent to only one triangle cell stay dead.
    assert!(!alive(&g, -1, 0));
    assert!(!alive(&g, 0, -1));
    assert!(!alive(&g, 2, 0));
}

#[test]
fn isolated_cell_scenario() {
    let mut g = full_grid();
    toggle(&mut g, 4, 4);
    g.step(true);
    assert!(!alive(&g, 4, 4));
}

#[test]
fn out_of_grid_toggle_scenario() {
    // A viewport so small that only hexes near the origin exist.
    let mut g = HexGrid::build(10, 15728640, 18161860);
    let count = g.cell_count();
    // A pointer press at the centre of a hex far outside the grid.
    let (x, y) = axial_to_screen(10, &AxialCoordinate::new(50, 0));
    let toggled = pointer_press(&mut g, 10, x, y);
    assert!(!toggled);
    assert_eq!(g.cell_count(), count);
    assert!(!alive(&g, 50, 0));
}

#[test]
fn pointer_press_toggles_hit_cell() {
    let mut g = full_grid();
    let (x, y) = axial_to_screen(10, &AxialCoordinate::new(-3, 7));
    assert!(pointer_press(&mut g, 10, x, y));
    assert!(alive(&g, -3, 7));
    // A press near, but within, the same hex toggles it back.
    assert!(pointer_press(&mut g, 10, x + 2000, y - 2000));
    assert!(!alive(&g, -3, 7));
}

#[test]
fn pause_gate_scenario() {
    let mut g = full_grid();
    toggle(&mut g, 0, 0);
    toggle(&mut g, 1, 0);
    toggle(&mut g, 0, 1);
    toggle(&mut g, 9, -4);
    for _ in 0..5 {
        g.step(false);
    }
    assert!(alive(&g, 0, 0));
    assert!(alive(&g, 1, 0));
    assert!(alive(&g, 0, 1));
    assert!(alive(&g, 9, -4));
    assert!(!alive(&g, 1, -1));
    assert!(!alive(&g, 2, 2));
}

#[test]
fn game_state_edge_triggering() {
    let mut s = GameState::new();
    assert!(!s.started);
    s.apply_toggle_event(false);
    assert!(!s.started);
    s.apply_toggle_event(true);
    assert!(s.started);
    s.apply_toggle_event(false);
    assert!(s.started);
    s.apply_toggle_event(true);
    assert!(!s.started);
}

#[test]
fn blinker_like_pattern_two_steps() {
    // Two adjacent alive cells: each has one alive neighbour, so both
    // die; their two common neighbours each see exactly two and are born.
    let mut g = full_grid();
    toggle(&mut g, 0, 0);
    toggle(&mut g, 1, 0);
    g.step(true);
    assert!(!alive(&g, 0, 0));
    assert!(!alive(&g, 1, 0));
    assert!(alive(&g, 1, -1));
    assert!(alive(&g, 0, 1));
    // The new pair behaves the same way one step later.
    g.step(true);
    assert!(!alive(&g, 1, -1));
    assert!(!alive(&g, 0, 1));
    assert!(alive(&g, 0, 0));
    assert!(alive(&g, 1, 0));
}

#[test]
fn cube_to_axial_projection() {
    let c = hex_life::coords::CubeCoordinate::new(2, -3, 1);
    assert_eq!((c.q(), c.r(), c.s()), (2, -3, 1));
    let a = c.to_axial();
    assert_eq!((a.q(), a.r()), (2, -3));
    let b = AxialCoordinate::from(c);
    assert_eq!((b.q(), b.r()), (2, -3));
}

#[test]
fn screen_to_cube_frac_exact_on_centres() {
    let (x, y) = axial_to_screen(10, &AxialCoordinate::new(7, -2));
    let f = hex_life::screen::screen_to_cube_frac(10, x, y);
    assert_eq!(f.qf, 7 * FP_ONE);
    assert!((f.rf + 2 * FP_ONE).abs() <= 315);
    assert_eq!(f.sf, -f.qf - f.rf);
}

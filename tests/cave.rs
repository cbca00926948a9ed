use cave_flood::controller::{on_click, on_force_stop, tick, SimulationState};
use cave_flood::fill::{cell_for_draw, create_grid, DEFAULT_DRAW_MAX, DEFAULT_WALL_BELOW};
use cave_flood::grid::{CellState, Grid};
use cave_flood::neighbors::count_neighbors;

use CellState::{Open, Wall, Water};

fn grid_from_rows(rows: &[&str]) -> Grid {
    let height = rows.len();
    let width = rows[0].len();
    let mut cells = Vec::new();
    for row in rows {
        for c in row.chars() {
            cells.push(match c {
                '#' => Wall,
                '.' => Open,
                '~' => Water,
                _ => panic!("bad fixture"),
            });
        }
    }
    Grid::from_cells(width, height, cells).unwrap()
}

fn water_indices(g: &Grid) -> Vec<usize> {
    (0..g.len()).filter(|&i| g.get(i) == Water).collect()
}

fn flood_until_done(g: &mut Grid, seed: usize) -> usize {
    let mut state = on_click(g, SimulationState::NotGenerating, seed);
    assert_eq!(state, SimulationState::Flooding);
    let mut ticks = 0;
    while state == SimulationState::Flooding {
        let before: Vec<CellState> = g.cells.clone();
        let (next, _) = tick(state, g);
        for i in 0..g.len() {
            if before[i] == Water {
                assert_eq!(g.get(i), Water);
            }
        }
        state = next;
        ticks += 1;
    }
    assert_eq!(state, SimulationState::NotGenerating);
    ticks
}

#[test]
fn interior_cell_counts_eight_neighbors() {
    let g = Grid::filled(5, 5, Open);
    assert_eq!(count_neighbors(&g, 12, Open, true), 8);
    assert_eq!(count_neighbors(&g, 12, Open, false), 4);
}

#[test]
fn corner_and_edge_counts_are_reduced() {
    let g = Grid::filled(5, 4, Open);
    assert_eq!(count_neighbors(&g, 0, Open, true), 3);
    assert_eq!(count_neighbors(&g, 4, Open, true), 3);
    assert_eq!(count_neighbors(&g, 15, Open, true), 3);
    assert_eq!(count_neighbors(&g, 19, Open, true), 3);
    assert_eq!(count_neighbors(&g, 2, Open, true), 5);
    assert_eq!(count_neighbors(&g, 5, Open, true), 5);
    assert_eq!(count_neighbors(&g, 9, Open, true), 5);
    assert_eq!(count_neighbors(&g, 0, Open, false), 2);
    assert_eq!(count_neighbors(&g, 2, Open, false), 3);
}

#[test]
fn edges_do_not_wrap() {
    // The last cell of row 0 must not see the first cell of row 1, and the
    // first column must not see the last column.
    let g = grid_from_rows(&["###.", ".###", "####"]);
    assert_eq!(count_neighbors(&g, 3, Open, true), 0);
    assert_eq!(count_neighbors(&g, 4, Open, true), 0);
    assert_eq!(count_neighbors(&g, 7, Open, false), 1);
    assert_eq!(count_neighbors(&g, 0, Open, true), 1);
    assert_eq!(count_neighbors(&g, 8, Open, false), 1);
}

#[test]
fn count_targets_the_given_state() {
    let g = grid_from_rows(&["~.#", ".~.", "#.~"]);
    assert_eq!(count_neighbors(&g, 4, Water, true), 2);
    assert_eq!(count_neighbors(&g, 4, Water, false), 0);
    assert_eq!(count_neighbors(&g, 4, Open, false), 4);
    assert_eq!(count_neighbors(&g, 4, Wall, true), 2);
}

#[test]
fn all_wall_grid_stays_wall() {
    let mut g = Grid::filled(6, 4, Wall);
    let stable = g.generate_step();
    assert!(stable);
    assert!(g.cells.iter().all(|&c| c == Wall));
}

#[test]
fn all_open_grid_stays_open() {
    let mut g = Grid::filled(6, 4, Open);
    let stable = g.generate_step();
    assert!(stable);
    assert!(g.cells.iter().all(|&c| c == Open));
}

#[test]
fn one_wide_open_grid_closes() {
    let mut g = Grid::filled(1, 4, Open);
    assert!(!g.generate_step());
    assert!(g.cells.iter().all(|&c| c == Wall));
}

#[test]
fn smoothing_rule_thresholds() {
    // Centre wall with five open neighbors opens; an isolated open cell closes.
    let mut g = grid_from_rows(&["...", ".#.", "###"]);
    g.generate_step();
    assert_eq!(g.get(4), Open);
    let mut h = grid_from_rows(&["###", "#.#", "###"]);
    let stable = h.generate_step();
    assert!(!stable);
    assert_eq!(h.get(4), Wall);
    // Centre wall with exactly four open neighbors stays a wall.
    let mut k = grid_from_rows(&["..#", ".#.", "###"]);
    k.generate_step();
    assert_eq!(k.get(4), Wall);
}

#[test]
fn generation_step_uses_one_snapshot() {
    let mut g = grid_from_rows(&["#####", "#...#", "#.#.#", "#...#", "#####"]);
    g.generate_step();
    let expected = grid_from_rows(&["#####", "##.##", "#...#", "##.##", "#####"]);
    assert_eq!(g.cells, expected.cells);
}

#[test]
fn fixed_point_stays_fixed() {
    let mut g = grid_from_rows(&["#####", "#...#", "#...#", "#...#", "#####"]);
    let first = g.generate_step();
    let after_one = g.cells.clone();
    let second = g.generate_step();
    assert!(first);
    assert!(second);
    assert_eq!(g.cells, after_one);
}

#[test]
fn tick_runs_generation_until_stable() {
    let mut g = grid_from_rows(&["#####", "#...#", "#.#.#", "#...#", "#####"]);
    let (s1, changed1) = tick(SimulationState::Generating, &mut g);
    assert_eq!((s1, changed1), (SimulationState::Generating, true));
    let (s2, changed2) = tick(s1, &mut g);
    assert_eq!((s2, changed2), (SimulationState::NotGenerating, false));
    let before = g.cells.clone();
    let (s3, changed3) = tick(s2, &mut g);
    assert_eq!((s3, changed3), (SimulationState::NotGenerating, false));
    assert_eq!(g.cells, before);
}

#[test]
fn force_stop_ends_generation_only() {
    assert_eq!(on_force_stop(SimulationState::Generating), SimulationState::NotGenerating);
    assert_eq!(on_force_stop(SimulationState::Flooding), SimulationState::Flooding);
    assert_eq!(on_force_stop(SimulationState::NotGenerating), SimulationState::NotGenerating);
}

#[test]
fn click_on_wall_is_ignored() {
    let mut g = grid_from_rows(&["#.", ".#"]);
    let before = g.cells.clone();
    let s = on_click(&mut g, SimulationState::NotGenerating, 0);
    assert_eq!(s, SimulationState::NotGenerating);
    assert_eq!(g.cells, before);
}

#[test]
fn click_on_water_or_while_generating_is_ignored() {
    let mut g = grid_from_rows(&["~.", ".#"]);
    let before = g.cells.clone();
    assert_eq!(on_click(&mut g, SimulationState::NotGenerating, 0), SimulationState::NotGenerating);
    assert_eq!(on_click(&mut g, SimulationState::Generating, 1), SimulationState::Generating);
    assert_eq!(g.cells, before);
}

#[test]
fn click_on_open_cell_seeds_flood() {
    let mut g = grid_from_rows(&["#.", ".#"]);
    let s = on_click(&mut g, SimulationState::NotGenerating, 1);
    assert_eq!(s, SimulationState::Flooding);
    assert_eq!(g.get(1), Water);
    assert_eq!(g.get(2), Open);
}

#[test]
fn ring_scenario_floods_only_the_seed() {
    let mut g = grid_from_rows(&[".....", ".###.", ".#.#.", ".###.", "....."]);
    let s = on_click(&mut g, SimulationState::NotGenerating, 12);
    assert_eq!(s, SimulationState::Flooding);
    let (s, changed) = tick(s, &mut g);
    assert_eq!((s, changed), (SimulationState::NotGenerating, false));
    assert_eq!(water_indices(&g), vec![12]);
    assert_eq!(g.get(0), Open);
}

#[test]
fn flood_reaches_connected_open_space() {
    let rows = [
        "##########",
        "#....#####",
        "####.#####",
        "####.....#",
        "########.#",
        "#........#",
        "#.#######.",
        "#.........",
        "##########",
        "##########",
    ];
    let mut g = grid_from_rows(&rows);
    let opens: Vec<usize> = (0..g.len()).filter(|&i| g.get(i) == Open).collect();
    flood_until_done(&mut g, 11);
    assert_eq!(water_indices(&g), opens);
}

#[test]
fn flood_does_not_reach_disconnected_region() {
    let rows = [
        "##########",
        "#...#....#",
        "#...#....#",
        "#...#....#",
        "#####....#",
        "#..#######",
        "#..#.#.#.#",
        "####.#.#.#",
        "#.#.....##",
        "##########",
    ];
    let mut g = grid_from_rows(&rows);
    let original = g.cells.clone();
    flood_until_done(&mut g, 11);
    let mut expected = Vec::new();
    for y in 1..4 {
        for x in 1..4 {
            expected.push(x + y * 10);
        }
    }
    assert_eq!(water_indices(&g), expected);
    for i in 0..g.len() {
        if g.get(i) != Water {
            assert_eq!(g.get(i), original[i]);
        }
    }
    // The region below the wall stays dry.
    assert_eq!(g.get(51), Open);
}

#[test]
fn flood_from_matches_tick_driven_flood() {
    let rows = [
        "#.#.#",
        "#...#",
        "###.#",
        "#.#..",
        "#.###",
    ];
    let mut a = grid_from_rows(&rows);
    let mut b = grid_from_rows(&rows);
    flood_until_done(&mut a, 1);
    b.flood_from(1);
    assert_eq!(a.cells, b.cells);
    let expected: Vec<usize> = vec![1, 3, 6, 7, 8, 13, 18, 19];
    assert_eq!(water_indices(&b), expected);
    assert_eq!(b.get(16), Open);
    assert_eq!(b.get(21), Open);
}

#[test]
fn second_flood_keeps_earlier_water() {
    let mut g = grid_from_rows(&["..#..", "..#..", "#####"]);
    g.flood_from(0);
    assert_eq!(water_indices(&g), vec![0, 1, 5, 6]);
    g.flood_from(4);
    assert_eq!(water_indices(&g), vec![0, 1, 3, 4, 5, 6, 8, 9]);
}

#[test]
fn flood_step_reports_spread() {
    let mut g = grid_from_rows(&["~..", "###"]);
    assert!(g.flood_step());
    assert_eq!(g.get(1), Water);
    assert_eq!(g.get(2), Open);
    assert!(g.flood_step());
    assert!(!g.flood_step());
    assert_eq!(water_indices(&g), vec![0, 1, 2]);
}

#[test]
fn grid_geometry() {
    let g = Grid::filled(7, 3, Wall);
    assert_eq!(g.width(), 7);
    assert_eq!(g.height(), 3);
    assert_eq!(g.len(), 21);
    assert_eq!(g.index_of(3, 2), 17);
    assert_eq!(g.index_of(0, 0), 0);
}

#[test]
fn from_cells_checks_shape() {
    assert!(Grid::from_cells(2, 2, vec![Wall; 4]).is_some());
    assert!(Grid::from_cells(2, 2, vec![Wall; 5]).is_none());
    assert!(Grid::from_cells(0, 2, vec![]).is_none());
    assert!(Grid::from_cells(2, 0, vec![]).is_none());
}

#[test]
fn set_changes_one_cell() {
    let mut g = Grid::filled(3, 3, Wall);
    g.set(4, Open);
    assert_eq!(g.get(4), Open);
    assert_eq!(g.cells.iter().filter(|&&c| c == Open).count(), 1);
}

#[test]
fn draws_map_to_cells() {
    assert_eq!(cell_for_draw(0, DEFAULT_WALL_BELOW), Wall);
    assert_eq!(cell_for_draw(5, DEFAULT_WALL_BELOW), Wall);
    assert_eq!(cell_for_draw(6, DEFAULT_WALL_BELOW), Open);
    assert_eq!(cell_for_draw(13, DEFAULT_WALL_BELOW), Open);
}

#[test]
fn random_fill_has_no_water() {
    let g = create_grid(40, 30, DEFAULT_DRAW_MAX, DEFAULT_WALL_BELOW);
    assert_eq!(g.len(), 1200);
    assert!(g.cells.iter().all(|&c| c == Wall || c == Open));
}

#[test]
fn random_fill_extremes() {
    let open = create_grid(8, 8, DEFAULT_DRAW_MAX, 0);
    assert!(open.cells.iter().all(|&c| c == Open));
    let wall = create_grid(8, 8, DEFAULT_DRAW_MAX, DEFAULT_DRAW_MAX + 1);
    assert!(wall.cells.iter().all(|&c| c == Wall));
}

#[test]
fn random_fill_mixes_states() {
    // With draws in 0..=1 and walls below 1, both states appear on a grid
    // of 400 cells except with negligible probability.
    let g = create_grid(20, 20, 1, 1);
    assert!(g.cells.iter().any(|&c| c == Wall));
    assert!(g.cells.iter().any(|&c| c == Open));
}

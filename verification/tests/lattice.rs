use life3d::Block;
use life3d::Grid;
use life3d::GridError;
use life3d::Pos;
use life3d::Rgb;
use life3d::Rule;
use life3d::SeedPolicy;

fn parity_grid(w: usize, h: usize, d: usize) -> Grid {
    let mut g = Grid::new(w, h, d, 1, SeedPolicy::Parity, Rule::classic()).unwrap();
    g.generate_blocks();
    g
}

fn alive_at(g: &Grid, x: usize, y: usize, z: usize) -> bool {
    g.get_block(Pos { x, y, z }).unwrap().is_alive
}

fn set_alive(g: &mut Grid, x: usize, y: usize, z: usize, alive: bool) {
    let b = g.get_block_mut(Pos { x, y, z }).unwrap();
    if alive {
        b.revive();
    } else {
        b.kill();
    }
}

fn kill_all(g: &mut Grid) {
    let (w, h, d) = (g.width, g.height, g.depth);
    for x in 0..w {
        for y in 0..h {
            for z in 0..d {
                set_alive(g, x, y, z, false);
            }
        }
    }
}

#[test]
fn populate_fills_every_coordinate() {
    let g = parity_grid(3, 4, 5);
    assert_eq!(g.grid.len(), 60);
    for x in 0..3 {
        for y in 0..4 {
            for z in 0..5 {
                let b = g.get_block(Pos { x, y, z }).unwrap();
                assert_eq!(b.position, Pos { x, y, z });
            }
        }
    }
}

#[test]
fn populate_rejects_bad_dimensions() {
    assert!(matches!(
        Grid::new(0, 3, 3, 1, SeedPolicy::Parity, Rule::classic()),
        Err(GridError::ZeroDimension)
    ));
    assert!(matches!(
        Grid::new(3, 0, 3, 1, SeedPolicy::Parity, Rule::classic()),
        Err(GridError::ZeroDimension)
    ));
    assert!(matches!(
        Grid::new(usize::MAX, 2, 2, 1, SeedPolicy::Parity, Rule::classic()),
        Err(GridError::TooLarge)
    ));
}

#[test]
fn populate_random_fills_every_coordinate() {
    let mut g = Grid::new(4, 4, 4, 1, SeedPolicy::Random, Rule::extended()).unwrap();
    g.generate_blocks();
    assert_eq!(g.grid.len(), 64);
    for x in 0..4 {
        for y in 0..4 {
            for z in 0..4 {
                assert!(g.get_block(Pos { x, y, z }).is_some());
            }
        }
    }
}

#[test]
fn populate_assigns_gradient_colors() {
    let g = parity_grid(4, 4, 4);
    let b = g.get_block(Pos { x: 2, y: 1, z: 3 }).unwrap();
    assert_eq!(b.color, Rgb { r: 64, g: 32, b: 96 });
    assert_eq!(b.size, 1);
    let origin = g.get_block(Pos { x: 0, y: 0, z: 0 }).unwrap();
    assert_eq!(origin.color, Rgb { r: 0, g: 0, b: 0 });
}

#[test]
fn neighbors_interior_has_six() {
    let g = parity_grid(3, 3, 3);
    let n = g.get_neighbors(Pos { x: 1, y: 1, z: 1 });
    assert_eq!(n.len(), 6);
    for b in &n {
        assert!(b.position.x < 3 && b.position.y < 3 && b.position.z < 3);
    }
}

#[test]
fn neighbors_corner_has_three() {
    let g = parity_grid(3, 3, 3);
    let n = g.get_neighbors(Pos { x: 0, y: 0, z: 0 });
    assert_eq!(n.len(), 3);
    let mut coords: Vec<(usize, usize, usize)> = n
        .iter()
        .map(|b| (b.position.x, b.position.y, b.position.z))
        .collect();
    coords.sort();
    assert_eq!(coords, vec![(0, 0, 1), (0, 1, 0), (1, 0, 0)]);
}

#[test]
fn neighbors_far_corner_has_three() {
    let g = parity_grid(2, 2, 2);
    let n = g.get_neighbors(Pos { x: 1, y: 1, z: 1 });
    assert_eq!(n.len(), 3);
}

#[test]
fn get_block_out_of_bounds_is_none() {
    let mut g = parity_grid(2, 2, 2);
    assert!(g.get_block(Pos { x: 2, y: 0, z: 0 }).is_none());
    assert!(g.get_block(Pos { x: 0, y: 5, z: 0 }).is_none());
    assert!(g.get_block_mut(Pos { x: 0, y: 0, z: 2 }).is_none());
}

#[test]
fn get_block_mut_edits_in_place() {
    let mut g = parity_grid(2, 2, 2);
    set_alive(&mut g, 0, 0, 0, true);
    assert!(alive_at(&g, 0, 0, 0));
    set_alive(&mut g, 0, 0, 0, false);
    assert!(!alive_at(&g, 0, 0, 0));
    assert!(g.get_block(Pos { x: 0, y: 0, z: 1 }).is_some());
}

#[test]
fn parity_seed_is_deterministic() {
    let a = parity_grid(3, 3, 3);
    let b = parity_grid(3, 3, 3);
    for x in 0..3 {
        for y in 0..3 {
            for z in 0..3 {
                assert_eq!(alive_at(&a, x, y, z), alive_at(&b, x, y, z));
                assert_eq!(alive_at(&a, x, y, z), (x + y + z) % 2 == 1);
            }
        }
    }
}

#[test]
fn classic_rule_sets() {
    let r = Rule::classic();
    assert_eq!(r.survival, vec![2, 3]);
    assert_eq!(r.birth, vec![3]);
}

#[test]
fn extended_rule_sets() {
    let r = Rule::extended();
    assert_eq!(r.survival, vec![1, 3, 5, 7, 9, 11, 13, 15, 17, 19, 21, 23]);
    assert_eq!(r.birth, vec![2, 4, 6, 8]);
}

#[test]
fn lone_cell_dies() {
    let mut g = parity_grid(3, 3, 3);
    kill_all(&mut g);
    set_alive(&mut g, 1, 1, 1, true);
    g.update();
    for x in 0..3 {
        for y in 0..3 {
            for z in 0..3 {
                assert!(!alive_at(&g, x, y, z), "({x},{y},{z}) should be dead");
            }
        }
    }
}

#[test]
fn vertical_line_keeps_only_its_center() {
    // A line along the y axis: the center has two alive neighbors and
    // survives; the ends have one and die; every dead cell sees at most one
    // alive neighbor and stays dead. A sequential in-place update would kill
    // the center too, so this also pins the simultaneous-update semantics.
    let mut g = parity_grid(3, 3, 3);
    kill_all(&mut g);
    set_alive(&mut g, 1, 0, 1, true);
    set_alive(&mut g, 1, 1, 1, true);
    set_alive(&mut g, 1, 2, 1, true);
    g.update();
    for x in 0..3 {
        for y in 0..3 {
            for z in 0..3 {
                let expect = (x, y, z) == (1, 1, 1);
                assert_eq!(alive_at(&g, x, y, z), expect, "wrong liveness at ({x},{y},{z})");
            }
        }
    }
}

#[test]
fn stagnant_lattice_regenerates() {
    let mut g = parity_grid(3, 3, 3);
    kill_all(&mut g);
    // An all-dead lattice is a fixed point of the classic rule, so every
    // tick records the same snapshot.
    for _ in 0..5 {
        g.update();
        for x in 0..3 {
            for y in 0..3 {
                for z in 0..3 {
                    assert!(!alive_at(&g, x, y, z));
                }
            }
        }
    }
    assert_eq!(g.prev_patterns.len(), 5);
    // The window is full of identical snapshots: this tick judges the
    // lattice stagnant, re-seeds it with the parity pattern, clears the
    // history, and then steps the fresh pattern once.
    g.update();
    assert_eq!(g.prev_patterns.len(), 0);
    assert_eq!(g.grid.len(), 27);
    // The outcome matches one step over a freshly parity-seeded lattice.
    let mut fresh = parity_grid(3, 3, 3);
    fresh.update();
    let mut any_alive = false;
    for x in 0..3 {
        for y in 0..3 {
            for z in 0..3 {
                assert_eq!(alive_at(&g, x, y, z), alive_at(&fresh, x, y, z));
                any_alive = any_alive || alive_at(&g, x, y, z);
            }
        }
    }
    // The regenerated lattice differs from the all-dead pattern of the
    // preceding tick: the origin is born from its three odd neighbors.
    assert!(any_alive);
    assert!(alive_at(&g, 0, 0, 0));
}

#[test]
fn history_window_is_bounded() {
    let mut g = parity_grid(2, 2, 2);
    for _ in 0..12 {
        g.update();
        assert!(g.prev_patterns.len() <= 5);
    }
}

#[test]
fn kill_and_revive_are_idempotent() {
    let mut b = Block::new(Pos { x: 1, y: 2, z: 3 }, 1, Rgb { r: 0, g: 0, b: 0 }, true);
    b.kill();
    let once = b.is_alive();
    b.kill();
    assert_eq!(b.is_alive(), once);
    assert!(!b.is_alive());
    b.revive();
    let once = b.is_alive();
    b.revive();
    assert_eq!(b.is_alive(), once);
    assert!(b.is_alive());
    assert_eq!(b.position, Pos { x: 1, y: 2, z: 3 });
}

#[test]
fn extended_rule_single_step() {
    // Under the extended table a live cell survives only on an odd count
    // and a dead cell is born on 2, 4 or 6. A lone live cell (count 0)
    // dies; its six neighbors (count 1) stay dead.
    let mut g = Grid::new(3, 3, 3, 1, SeedPolicy::Parity, Rule::extended()).unwrap();
    g.generate_blocks();
    kill_all(&mut g);
    set_alive(&mut g, 1, 1, 1, true);
    g.update();
    for x in 0..3 {
        for y in 0..3 {
            for z in 0..3 {
                assert!(!alive_at(&g, x, y, z));
            }
        }
    }
}

#[test]
fn extended_rule_birth_on_two() {
    // Two live cells flanking (1,1,1) give it a count of 2: under the
    // extended table it is born, while under the classic table it is not.
    let mut g = Grid::new(3, 3, 3, 1, SeedPolicy::Parity, Rule::extended()).unwrap();
    g.generate_blocks();
    kill_all(&mut g);
    set_alive(&mut g, 0, 1, 1, true);
    set_alive(&mut g, 2, 1, 1, true);
    g.update();
    assert!(alive_at(&g, 1, 1, 1));

    let mut c = parity_grid(3, 3, 3);
    kill_all(&mut c);
    set_alive(&mut c, 0, 1, 1, true);
    set_alive(&mut c, 2, 1, 1, true);
    c.update();
    assert!(!alive_at(&c, 1, 1, 1));
}

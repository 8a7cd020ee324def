use life::{advance, fill_from_draws, neighbours, new_game, randomize, show, Game, Life, Point};

fn pt(x: i32, y: i32) -> Point {
    Point { x, y }
}

fn full_game(w: u16, h: u16) -> Game {
    let mut g = new_game(w, h);
    for x in 0..w as i32 {
        for y in 0..h as i32 {
            assert!(g.set(&pt(x, y), Life::Alive));
        }
    }
    g
}

fn alive_points(g: &Game) -> Vec<(i32, i32)> {
    let mut r = Vec::new();
    for y in 0..g.height() as i32 {
        for x in 0..g.width() as i32 {
            if g.get(&pt(x, y)) == Some(Life::Alive) {
                r.push((x, y));
            }
        }
    }
    r
}

#[test]
fn rule_for_live_cell() {
    for n in 0..=8usize {
        let expected = if n == 2 || n == 3 { Life::Alive } else { Life::Dead };
        assert_eq!(Life::Alive.advance(n), expected, "live cell with {} neighbours", n);
    }
}

#[test]
fn rule_for_dead_cell() {
    for n in 0..=8usize {
        let expected = if n == 3 { Life::Alive } else { Life::Dead };
        assert_eq!(Life::Dead.advance(n), expected, "dead cell with {} neighbours", n);
    }
}

#[test]
fn from_draw_maps_zero_to_alive() {
    assert_eq!(Life::from_draw(0), Life::Alive);
    assert_eq!(Life::from_draw(1), Life::Dead);
}

#[test]
fn new_game_is_all_dead() {
    let g = new_game(3, 4);
    assert_eq!(g.width(), 3);
    assert_eq!(g.height(), 4);
    let mut count = 0;
    for x in 0..3 {
        for y in 0..4 {
            assert_eq!(g.get(&pt(x, y)), Some(Life::Dead));
            count += 1;
        }
    }
    assert_eq!(count, 12);
    assert_eq!(g.get(&pt(3, 0)), None);
    assert_eq!(g.get(&pt(0, 4)), None);
    assert_eq!(g.get(&pt(-1, 0)), None);
}

#[test]
fn new_game_with_zero_side_is_empty() {
    let g = new_game(0, 5);
    assert_eq!(g.get(&pt(0, 0)), None);
    assert_eq!(show(&g, 0, 5), "\n\n\n\n\n");
    let g = new_game(5, 0);
    assert_eq!(g.get(&pt(0, 0)), None);
    assert_eq!(show(&g, 5, 0), "");
}

#[test]
fn neighbours_do_not_wrap() {
    let g = full_game(3, 3);
    assert_eq!(neighbours(&g, &pt(0, 0)), 3);
    assert_eq!(neighbours(&g, &pt(2, 2)), 3);
    assert_eq!(neighbours(&g, &pt(1, 0)), 5);
    assert_eq!(neighbours(&g, &pt(0, 1)), 5);
    assert_eq!(neighbours(&g, &pt(1, 1)), 8);
    let one = full_game(1, 1);
    assert_eq!(neighbours(&one, &pt(0, 0)), 0);
}

#[test]
fn neighbours_outside_the_grid() {
    let g = full_game(3, 3);
    assert_eq!(neighbours(&g, &pt(-1, -1)), 1);
    assert_eq!(neighbours(&g, &pt(3, 1)), 3);
    assert_eq!(neighbours(&g, &pt(i32::MAX, i32::MAX)), 0);
    assert_eq!(neighbours(&g, &pt(i32::MIN, i32::MIN)), 0);
}

#[test]
fn blinker_oscillates() {
    let mut g = new_game(3, 3);
    for y in 0..3 {
        assert!(g.set(&pt(1, y), Life::Alive));
    }
    let before = advance(&mut g);
    assert_eq!(alive_points(&before), vec![(1, 0), (1, 1), (1, 2)]);
    assert_eq!(alive_points(&g), vec![(0, 1), (1, 1), (2, 1)]);
    advance(&mut g);
    assert_eq!(alive_points(&g), vec![(1, 0), (1, 1), (1, 2)]);
}

#[test]
fn block_is_a_fixed_point() {
    let mut g = new_game(4, 4);
    for (x, y) in [(1, 1), (1, 2), (2, 1), (2, 2)] {
        assert!(g.set(&pt(x, y), Life::Alive));
    }
    advance(&mut g);
    assert_eq!(alive_points(&g), vec![(1, 1), (2, 1), (1, 2), (2, 2)]);
}

#[test]
fn dead_grid_stays_dead() {
    let mut g = new_game(5, 4);
    for _ in 0..10 {
        advance(&mut g);
        assert!(alive_points(&g).is_empty());
        assert_eq!(g.width(), 5);
        assert_eq!(g.height(), 4);
    }
}

#[test]
fn lone_cell_dies() {
    let mut g = new_game(3, 3);
    assert!(g.set(&pt(1, 1), Life::Alive));
    let before = advance(&mut g);
    assert_eq!(before.get(&pt(1, 1)), Some(Life::Alive));
    assert_eq!(g.get(&pt(1, 1)), Some(Life::Dead));
}

#[test]
fn show_orders_rows_top_down() {
    let mut g = new_game(3, 2);
    assert!(g.set(&pt(0, 1), Life::Alive));
    assert!(g.set(&pt(2, 0), Life::Alive));
    let s = show(&g, 3, 2);
    assert_eq!(s, "*  \n  *\n");
    let lines: Vec<&str> = s.split_terminator('\n').collect();
    assert_eq!(lines.len(), 2);
    assert!(lines.iter().all(|l| l.chars().count() == 3));
}

#[test]
fn show_marks_missing_cells() {
    let mut g = new_game(1, 1);
    assert!(g.set(&pt(0, 0), Life::Alive));
    assert_eq!(show(&g, 2, 2), "??\n*?\n");
}

#[test]
fn set_outside_the_grid_is_refused() {
    let mut g = new_game(2, 2);
    assert!(!g.set(&pt(2, 0), Life::Alive));
    assert!(!g.set(&pt(0, -1), Life::Alive));
    assert!(alive_points(&g).is_empty());
}

#[test]
fn clone_keeps_cells() {
    let mut g = new_game(2, 3);
    assert!(g.set(&pt(1, 2), Life::Alive));
    let c = g.clone();
    assert_eq!(c.width(), 2);
    assert_eq!(c.height(), 3);
    assert_eq!(alive_points(&c), vec![(1, 2)]);
}

#[test]
fn random_draws_both_states() {
    let mut alive = 0;
    for _ in 0..2000 {
        if Life::random() == Life::Alive {
            alive += 1;
        }
    }
    assert!(alive > 800 && alive < 1200, "alive {} of 2000", alive);
}

#[test]
fn randomize_keeps_the_grid_and_is_fair() {
    let mut g = new_game(10, 10);
    let mut alive_total = 0;
    let rounds = 40;
    for _ in 0..rounds {
        randomize(&mut g);
        assert_eq!(g.width(), 10);
        assert_eq!(g.height(), 10);
        assert_eq!(g.get(&pt(10, 0)), None);
        for x in 0..10 {
            for y in 0..10 {
                assert!(g.get(&pt(x, y)).is_some());
            }
        }
        alive_total += alive_points(&g).len();
    }
    let cells = rounds * 100;
    assert!(alive_total * 10 > cells * 4 && alive_total * 10 < cells * 6, "alive {} of {}", alive_total, cells);
}

#[test]
fn fill_from_draws_uses_each_cells_own_draw() {
    let mut g = full_game(3, 2);
    // cell (x, y) takes draw y * 3 + x; zero is alive
    fill_from_draws(&mut g, &vec![1, 0, 1, 0, 1, 1]);
    assert_eq!(alive_points(&g), vec![(1, 0), (0, 1)]);
    assert_eq!(show(&g, 3, 2), "*  \n * \n");
    fill_from_draws(&mut g, &vec![1, 1, 1, 1, 1, 1]);
    assert!(alive_points(&g).is_empty());
}

#[test]
fn point_add_moves_by_components() {
    let p = pt(2, -3).add(pt(-1, 5));
    assert_eq!(p, pt(1, 2));
}

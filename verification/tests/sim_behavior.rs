use snake::cell::{Cell, Direction};
use snake::random::RandomSource;
use snake::sim::RunningGame;

fn round(width: i32, height: i32, seed: u64) -> RunningGame {
    RunningGame::new(width, height, RandomSource::from_seed(seed))
}

#[test]
fn new_round_defaults() {
    let g = round(10, 10, 7);
    assert_eq!(g.width(), 10);
    assert_eq!(g.height(), 10);
    assert_eq!(g.head(), Cell { x: 5, y: 5 });
    assert_eq!(g.body(), vec![Cell { x: 5, y: 5 }]);
    assert_eq!(g.direction(), Direction::Down);
    assert_eq!(g.interval_ms(), 500);
    assert_eq!(g.last_step_ms(), None);
    assert_eq!(g.score(), 0);
    assert!(!g.game_over());
    assert!(!g.apple_fault());
    let a = g.apple();
    assert!(0 <= a.x && a.x < 10 && 0 <= a.y && a.y < 10);
    assert_ne!(a, Cell { x: 5, y: 5 });
}

#[test]
fn apple_always_on_free_cell() {
    for seed in 0..50u64 {
        let g = round(2, 2, seed);
        let a = g.apple();
        assert!(0 <= a.x && a.x < 2 && 0 <= a.y && a.y < 2);
        assert_ne!(a, Cell { x: 1, y: 1 });
    }
}

#[test]
fn first_tick_is_immediate() {
    let mut g = round(10, 10, 3);
    let r = g.advance(12345);
    assert_eq!(r, None);
    assert_eq!(g.head(), Cell { x: 5, y: 6 });
    assert_eq!(g.body().len(), 1);
    assert_eq!(g.last_step_ms(), Some(12345));
    assert_eq!(g.score(), 0);
}

#[test]
fn sub_interval_ticks_coalesce() {
    let mut g = round(10, 10, 3);
    g.advance(1000);
    let r = g.advance(1400);
    assert_eq!(r, None);
    assert_eq!(g.head(), Cell { x: 5, y: 6 });
    assert_eq!(g.last_step_ms(), Some(1000));
    let r2 = g.advance(1501);
    assert_eq!(r2, None);
    assert_eq!(g.head(), Cell { x: 5, y: 7 });
    assert_eq!(g.last_step_ms(), Some(1501));
}

#[test]
fn accumulator_steps_exactly_per_interval() {
    let mut g = round(10, 10, 3);
    g.set_apple(Cell { x: 0, y: 0 });
    g.advance(1000);
    // elapsed = 2 * 500 + 499: exactly two steps, clock moved to now.
    let r = g.advance(1000 + 2 * 500 + 499);
    assert_eq!(r, None);
    assert_eq!(g.head(), Cell { x: 5, y: 8 });
    assert_eq!(g.body().len(), 1);
    assert_eq!(g.last_step_ms(), Some(2499));
    // elapsed = 499 < 500: no step, and the clock is not reset, so time
    // keeps accruing against the last step.
    let r2 = g.advance(2499 + 499);
    assert_eq!(r2, None);
    assert_eq!(g.head(), Cell { x: 5, y: 8 });
    assert_eq!(g.last_step_ms(), Some(2499));
    let r3 = g.advance(2499 + 500);
    assert_eq!(r3, None);
    assert_eq!(g.head(), Cell { x: 5, y: 9 });
    assert_eq!(g.last_step_ms(), Some(2999));
}

#[test]
fn growth_only_when_eating() {
    let mut g = round(10, 10, 9);
    g.set_apple(Cell { x: 0, y: 0 });
    g.advance(1000);
    assert_eq!(g.body().len(), 1);
    g.set_apple(Cell { x: 5, y: 7 });
    g.advance(1500);
    assert_eq!(g.body().len(), 2);
    assert_eq!(g.score(), 1);
    let far = Cell { x: 0, y: 0 };
    if g.apple() != far && !g.body().contains(&far) {
        g.set_apple(far);
    }
    g.advance(1950);
    assert!(!g.game_over());
    assert_eq!(g.body().len(), 2);
    assert_eq!(g.score(), 1);
}

#[test]
fn wall_collision_ends_round() {
    let mut g = round(3, 3, 11);
    g.set_apple(Cell { x: 0, y: 0 });
    g.advance(100);
    assert_eq!(g.head(), Cell { x: 1, y: 2 });
    assert!(!g.game_over());
    let r = g.advance(600);
    assert_eq!(r, Some(0));
    assert!(g.game_over());
    assert_eq!(g.head(), Cell { x: 1, y: 3 });
}

#[test]
fn every_wall_terminates() {
    let dirs = [
        (Direction::Up, Cell { x: 0, y: -1 }),
        (Direction::Down, Cell { x: 0, y: 1 }),
        (Direction::Left, Cell { x: -1, y: 0 }),
        (Direction::Right, Cell { x: 1, y: 0 }),
    ];
    for (d, delta) in dirs {
        let mut g = round(1, 1, 13);
        assert!(g.game_over());
        let mut h = round(3, 1, 13);
        // 3 by 1 grid: head starts at (1, 0).
        h.set_direction(d);
        let r = h.advance(50);
        let head = h.head();
        assert_eq!(head, Cell { x: 1 + delta.x, y: 0 + delta.y });
        let out = head.x < 0 || head.x >= 3 || head.y < 0 || head.y >= 1;
        assert_eq!(h.game_over(), out);
        assert_eq!(r, None); // the very first tick never reports a transition
        if out {
            assert_eq!(h.advance(51), Some(h.score()));
        }
    }
}

#[test]
fn self_collision_checked_before_tail_removal() {
    let mut g = round(10, 10, 17);
    g.set_apple(Cell { x: 0, y: 0 });
    g.advance(1000);
    g.set_apple(Cell { x: 5, y: 7 });
    g.advance(1500);
    assert_eq!(g.body(), vec![Cell { x: 5, y: 7 }, Cell { x: 5, y: 6 }]);
    // Reversing is legal; the next step walks onto the tail cell, which
    // counts as a hit because the body is checked before the tail leaves.
    g.set_direction(Direction::Up);
    let r = g.advance(1950);
    assert_eq!(r, Some(1));
    assert!(g.game_over());
}

#[test]
fn interval_shrinks_by_a_tenth_each_apple() {
    let mut g = round(10, 10, 19);
    g.set_apple(Cell { x: 0, y: 0 });
    g.advance(1000);
    assert_eq!(g.interval_ms(), 500);
    g.set_apple(Cell { x: 5, y: 7 });
    g.advance(1500);
    assert_eq!(g.interval_ms(), 450);
    g.set_apple(Cell { x: 5, y: 8 });
    g.advance(1950);
    assert_eq!(g.interval_ms(), 405);
    assert_eq!(g.score(), 2);
}

#[test]
fn catch_up_uses_the_just_shrunk_interval() {
    let mut g = round(10, 10, 41);
    g.set_apple(Cell { x: 5, y: 7 });
    g.advance(0);
    assert_eq!(g.head(), Cell { x: 5, y: 6 });
    // elapsed = 950: the first step eats and shrinks the interval to 450,
    // and the remaining 500 ms then cover a second step as well.
    let r = g.advance(950);
    assert_eq!(r, None);
    assert_eq!(g.head(), Cell { x: 5, y: 8 });
    assert!(!g.game_over());
    assert!(g.score() >= 1);
    assert_eq!(g.last_step_ms(), Some(950));
}

#[test]
fn apple_stays_off_snake_while_alive() {
    let mut g = round(10, 10, 23);
    let mut now = 1000u64;
    loop {
        let r = g.advance(now);
        if r.is_some() {
            break;
        }
        let body = g.body();
        let a = g.apple();
        assert!(0 <= a.x && a.x < 10 && 0 <= a.y && a.y < 10);
        assert!(!body.contains(&a));
        now += 500;
    }
}

#[test]
fn end_to_end_round() {
    let mut g = round(10, 10, 29);
    g.set_apple(Cell { x: 2, y: 2 });
    assert_eq!(g.apple(), Cell { x: 2, y: 2 });
    let r = g.advance(1000);
    assert_eq!(r, None);
    assert_eq!(g.head(), Cell { x: 5, y: 6 });
    assert_eq!(g.body().len(), 1);
    assert_ne!(g.apple(), Cell { x: 5, y: 6 });
    g.set_apple(Cell { x: 5, y: 7 });
    let r2 = g.advance(1500);
    assert_eq!(r2, None);
    assert_eq!(g.head(), Cell { x: 5, y: 7 });
    assert_eq!(g.body().len(), 2);
    assert_eq!(g.score(), 1);
    assert_eq!(g.interval_ms(), 450);
}

#[test]
fn one_cell_grid_reports_fault_instead_of_hanging() {
    let g = round(1, 1, 31);
    assert!(g.game_over());
    assert!(g.apple_fault());
    assert_eq!(g.score(), 0);
    assert_eq!(g.body(), vec![Cell { x: 0, y: 0 }]);
    let mut g2 = round(1, 1, 32);
    assert_eq!(g2.advance(10), Some(0));
}

#[test]
fn ended_round_only_reports_its_score() {
    let mut g = round(3, 3, 37);
    g.set_apple(Cell { x: 0, y: 0 });
    g.advance(100);
    g.advance(600);
    assert!(g.game_over());
    let head = g.head();
    let score = g.score();
    assert_eq!(g.advance(5000), Some(score));
    assert_eq!(g.head(), head);
    assert_eq!(g.score(), score);
}

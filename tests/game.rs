use tetris::board::{Board, Cell, TOTAL_HEIGHT, WIDTH};
use tetris::game::{event, lock_and_spawn, model, update, Intent, GRAVITY_PERIOD, SPAWN_X, SPAWN_Y};
use tetris::shape::Shape;

fn filled_cells(b: &Board) -> Vec<(i32, i32)> {
    let mut v = Vec::new();
    for y in 0..TOTAL_HEIGHT {
        for x in 0..WIDTH {
            if b.cell(x, y) == Cell::Filled {
                v.push((x as i32, y as i32));
            }
        }
    }
    v
}

fn sorted(mut v: Vec<(i32, i32)>) -> Vec<(i32, i32)> {
    v.sort_by_key(|&(x, y)| (y, x));
    v
}

#[test]
fn fresh_game_state() {
    let m = model();
    assert!(m.is_active());
    assert_eq!(m.lines_cleared(), 0);
    assert_eq!(m.tick_count(), 0);
    let p = m.piece();
    assert_eq!((p.x, p.y, p.rotation), (SPAWN_X, SPAWN_Y, 0));
    assert_eq!(m.pending().len(), 6);
    assert!(!m.pending().contains(&p.shape));
    assert!(filled_cells(m.board()).is_empty());
}

#[test]
fn gravity_then_lock_and_respawn() {
    let mut m = model();
    for _ in 0..29 {
        update(&mut m);
    }
    assert_eq!(m.piece().y, SPAWN_Y);
    update(&mut m);
    assert_eq!(m.tick_count(), 30);
    assert_eq!(m.piece().y, SPAWN_Y - 1);
    assert!(filled_cells(m.board()).is_empty());

    let mut locked = false;
    for _ in 0..(30 * 40) {
        let before = m.piece();
        let ticks = m.tick_count();
        update(&mut m);
        let filled = filled_cells(m.board());
        if !filled.is_empty() {
            assert_eq!((ticks + 1) % GRAVITY_PERIOD, 0);
            assert_eq!(sorted(before.occupied_cells()), filled);
            assert!(filled.iter().any(|&(_, y)| y == 0));
            let p = m.piece();
            assert_eq!((p.x, p.y, p.rotation), (SPAWN_X, SPAWN_Y, 0));
            assert!(m.is_active());
            locked = true;
            break;
        }
    }
    assert!(locked);
}

#[test]
fn ticks_between_gravity_steps_only_count() {
    let mut m = model();
    let p = m.piece();
    for _ in 0..10 {
        update(&mut m);
    }
    assert_eq!(m.piece(), p);
    assert_eq!(m.tick_count(), 10);
}

#[test]
fn stacking_until_spawn_is_blocked_ends_the_game() {
    let mut m = model();
    let mut n = 0;
    while m.is_active() {
        update(&mut m);
        n += 1;
        assert!(n < 100_000);
    }
    let board = filled_cells(m.board());
    let piece = m.piece();
    let lines = m.lines_cleared();
    let ticks = m.tick_count();
    for _ in 0..100 {
        update(&mut m);
    }
    assert!(!m.is_active());
    assert_eq!(filled_cells(m.board()), board);
    assert_eq!(m.piece(), piece);
    assert_eq!(m.lines_cleared(), lines);
    assert_eq!(m.tick_count(), ticks);
    event(&mut m, Intent::MoveLeft);
    event(&mut m, Intent::SoftDrop);
    assert_eq!(m.piece(), piece);
}

#[test]
fn filled_spawn_cell_means_game_over() {
    let mut m = model();
    push_until_blocked(&mut m, Intent::MoveLeft);
    lock_and_spawn(&mut m, Shape::O);
    assert!(m.is_active());
    // the O locks where it spawned, which fills the spawn cell
    let o = m.piece();
    lock_and_spawn(&mut m, Shape::T);
    assert!(!m.is_active());
    assert_eq!(m.board().cell(SPAWN_X as usize, SPAWN_Y as usize), Cell::Filled);
    assert_eq!(m.piece(), o);
    let board = filled_cells(m.board());
    for _ in 0..90 {
        update(&mut m);
    }
    assert_eq!(filled_cells(m.board()), board);
    assert_eq!(m.piece(), o);
    assert_eq!(m.tick_count(), 0);
}

fn push_until_blocked(m: &mut tetris::game::Model, intent: Intent) {
    loop {
        let p = m.piece();
        event(m, intent);
        if m.piece() == p {
            break;
        }
    }
}

#[test]
fn filling_two_bottom_rows_through_the_controller_clears_them() {
    let mut m = model();
    // park the first piece against the left wall, high up, and lock it there
    push_until_blocked(&mut m, Intent::MoveLeft);
    let parked = m.piece().occupied_cells();
    lock_and_spawn(&mut m, Shape::O);
    assert!(m.is_active());
    // five O pieces cover columns 0 to 9 of rows 0 and 1: three slide left
    // along the floor, two are shifted right while high up and then dropped
    for k in 0..5 {
        if k == 3 {
            for _ in 0..4 {
                event(&mut m, Intent::MoveRight);
            }
        }
        if k == 4 {
            event(&mut m, Intent::MoveRight);
            event(&mut m, Intent::MoveRight);
        }
        push_until_blocked(&mut m, Intent::SoftDrop);
        if k < 3 {
            push_until_blocked(&mut m, Intent::MoveLeft);
        }
        lock_and_spawn(&mut m, Shape::O);
        assert!(m.is_active());
        if k < 4 {
            assert_eq!(m.lines_cleared(), 0);
        }
    }
    assert_eq!(m.lines_cleared(), 2);
    let expected = sorted(parked.iter().map(|&(x, y)| (x, y - 2)).collect());
    assert_eq!(filled_cells(m.board()), expected);
}

#[test]
fn moves_are_blocked_by_walls() {
    let mut m = model();
    for _ in 0..20 {
        event(&mut m, Intent::MoveLeft);
    }
    let left = m.piece();
    assert!(left.occupied_cells().iter().any(|&(x, _)| x == 0));
    assert!(left.occupied_cells().iter().all(|&(x, _)| x >= 0));
    for _ in 0..20 {
        event(&mut m, Intent::MoveRight);
    }
    let right = m.piece();
    assert!(right.occupied_cells().iter().any(|&(x, _)| x == 9));
    assert_eq!(right.y, SPAWN_Y);
}

#[test]
fn soft_drop_stops_at_the_floor() {
    let mut m = model();
    for _ in 0..30 {
        event(&mut m, Intent::SoftDrop);
    }
    let p = m.piece();
    assert!(p.occupied_cells().iter().any(|&(_, y)| y == 0));
    assert!(filled_cells(m.board()).is_empty());
}

#[test]
fn rotation_wraps_after_four_turns() {
    let mut m = model();
    event(&mut m, Intent::SoftDrop);
    event(&mut m, Intent::SoftDrop);
    let start = m.piece();
    for k in 1..=4 {
        event(&mut m, Intent::RotateCW);
        assert_eq!(m.piece().rotation, k % 4);
    }
    assert_eq!(m.piece(), start);
}

#[test]
fn reset_restarts_from_game_over() {
    let mut m = model();
    while m.is_active() {
        update(&mut m);
    }
    event(&mut m, Intent::HardReset);
    assert!(m.is_active());
    assert_eq!(m.tick_count(), 0);
    assert_eq!(m.lines_cleared(), 0);
    assert!(filled_cells(m.board()).is_empty());
    assert_eq!((m.piece().x, m.piece().y), (SPAWN_X, SPAWN_Y));
}

#[test]
fn queue_refills_after_a_whole_bag() {
    let mut m = model();
    for _ in 0..6 {
        lock_and_spawn_from_queue(&mut m);
    }
    assert_eq!(m.pending().len(), 0);
    lock_and_spawn_from_queue(&mut m);
    assert_eq!(m.pending().len(), 6);
}

fn lock_and_spawn_from_queue(m: &mut tetris::game::Model) {
    // push the piece aside, then let gravity bring it down and lock it
    push_until_blocked(m, Intent::MoveLeft);
    let before = m.pending().len();
    let locks = filled_cells(m.board()).len();
    while filled_cells(m.board()).len() == locks && m.is_active() {
        update(m);
    }
    assert!(m.is_active());
    if before > 0 {
        assert_eq!(m.pending().len(), before - 1);
    }
}

//! The per-tick simulation: movement with wall rollback, the ammo
//! machine, bullet flight, and hits.

use rand::rngs::SmallRng;
use rand::SeedableRng;

use raymaze::arms::{Ammo, Bullet};
use raymaze::constants::{FX_ONE, PI_FX, RELOAD_TIME, START_LIFE, STEP_FX, TAU_FX, WIDTH};
use raymaze::state::{GameEvent, State, ViewMode};

fn generated_state(seed: u64) -> State {
    let mut state = State::new();
    let mut rng = SmallRng::seed_from_u64(seed);
    state.generate_maze(&mut rng);
    state
}

/// A single forward intent from the cell center with no wall ahead moves
/// the player exactly one step along the facing direction.
#[test]
pub fn forward_step_from_spawn() {
    let mut state = generated_state(11);
    state.player_x[0] = FX_ONE / 2;
    state.player_y[0] = FX_ONE / 2;
    state.player_angle[0] = 0;

    state.update(true, false, false, false, false, false);

    assert_eq!(state.player_x[0], FX_ONE / 2 + STEP_FX);
    assert_eq!(state.player_y[0], FX_ONE / 2);
    assert_eq!(state.player_angle[0], 0);
}

/// A move that would leave the maze is rolled back whole, while the turn
/// intent still lands.
#[test]
pub fn blocked_move_keeps_position_but_turns() {
    let mut state = generated_state(11);
    state.player_x[0] = 1000;
    state.player_y[0] = FX_ONE / 2;
    state.player_angle[0] = PI_FX;

    state.update(true, false, true, false, false, false);

    assert_eq!(state.player_x[0], 1000);
    assert_eq!(state.player_y[0], FX_ONE / 2);
    assert_eq!(state.player_angle[0], PI_FX + STEP_FX);
}

/// Positions stay inside the grid across many ticks of driving into the
/// boundary.
#[test]
pub fn positions_stay_in_grid() {
    let mut state = generated_state(7);
    state.player_angle[0] = PI_FX;
    for _ in 0..300 {
        state.update(true, false, false, false, false, false);
        for p in 0..4 {
            assert!(state.player_x[p] > 0 && state.player_x[p] < (WIDTH as i64) * FX_ONE);
            assert!(state.player_y[p] > 0 && state.player_y[p] < (WIDTH as i64) * FX_ONE);
        }
    }
}

/// Firing from full ammo consumes exactly one slot (which begins its
/// countdown the same tick) and spawns one bullet in flight at the
/// shooter's pose, with only a small angular jitter.
#[test]
pub fn fire_consumes_one_slot_and_spawns_bullet() {
    let mut state = generated_state(11);
    state.player_angle[0] = 0;
    let pre_x = state.player_x[0];
    let pre_y = state.player_y[0];

    state.update(false, false, false, false, true, false);

    assert_eq!(
        state.player_ammo[0],
        vec![Ammo::Reloading(RELOAD_TIME - 1), Ammo::Loaded, Ammo::Loaded]
    );
    // The new bullet flew its first step before the tick ended: one
    // bullet-speed unit along its jittered heading from the firing pose.
    assert_eq!(state.bullets.len(), 1);
    let b = &state.bullets[0];
    assert!(b.inflight);
    assert_eq!(b.owner, 0);
    assert!(b.x > pre_x + 600 && b.x <= pre_x + 655);
    assert!((b.y - pre_y).abs() <= 40);
    let jitter = b.angle % TAU_FX;
    let jitter = if jitter > TAU_FX / 2 { jitter - TAU_FX } else { jitter };
    assert!(jitter.abs() <= 3277);
}

/// With no loaded slot, a fire intent is dropped without any change.
#[test]
pub fn fire_with_empty_ammo_is_noop() {
    let mut state = generated_state(11);
    state.player_ammo[0] = vec![
        Ammo::Reloading(10),
        Ammo::Reloading(20),
        Ammo::Reloading(30),
    ];

    state.update(false, false, false, false, true, false);

    assert_eq!(
        state.player_ammo[0],
        vec![Ammo::Reloading(9), Ammo::Reloading(20), Ammo::Reloading(30)]
    );
    assert_eq!(state.bullets.len(), 0);
}

/// Reloading counts down one tick at a time on the earliest-queued slot
/// and completes to loaded from zero; it never moves backward.
#[test]
pub fn reload_counts_down_monotonically() {
    let mut state = generated_state(11);
    state.player_ammo[0] = vec![Ammo::Reloading(2), Ammo::Loaded, Ammo::Loaded];

    state.update(false, false, false, false, false, false);
    assert_eq!(
        state.player_ammo[0],
        vec![Ammo::Reloading(1), Ammo::Loaded, Ammo::Loaded]
    );

    state.update(false, false, false, false, false, false);
    assert_eq!(
        state.player_ammo[0],
        vec![Ammo::Reloading(0), Ammo::Loaded, Ammo::Loaded]
    );

    state.update(false, false, false, false, false, false);
    assert_eq!(
        state.player_ammo[0],
        vec![Ammo::Loaded, Ammo::Loaded, Ammo::Loaded]
    );
}

/// Finds an interior walled boundary between side-by-side cells away
/// from every spawn cell.
fn walled_right_boundary(state: &State) -> usize {
    let spawn_cells = [0usize, 12, 156, 168];
    'outer: for a in 0..168usize {
        if a % WIDTH == WIDTH - 1 {
            continue;
        }
        let b = a + 1;
        if spawn_cells.contains(&a) || spawn_cells.contains(&b) {
            continue;
        }
        for &(p, q) in state.passages.iter() {
            if (p, q) == (a, b) || (p, q) == (b, a) {
                continue 'outer;
            }
        }
        return a;
    }
    panic!("a perfect maze always has interior walls");
}

/// Walking into an interior wall leaves the position unchanged.
#[test]
pub fn interior_wall_blocks_walk() {
    let mut state = generated_state(11);
    let a = walled_right_boundary(&state);
    let col = (a % WIDTH) as i64;
    let row = (a / WIDTH) as i64;
    state.player_x[0] = col * FX_ONE + FX_ONE - 1000;
    state.player_y[0] = row * FX_ONE + FX_ONE / 2;
    state.player_angle[0] = 0;

    state.update(true, false, false, false, false, false);

    assert_eq!(state.player_x[0], col * FX_ONE + FX_ONE - 1000);
    assert_eq!(state.player_y[0], row * FX_ONE + FX_ONE / 2);
    assert_eq!(state.player_angle[0], 0);
}

/// A bullet in flight at a cell boundary with no passage across it is
/// cleared that tick and is absent from the next tick's collection.
#[test]
pub fn bullet_stops_at_wall() {
    let mut state = generated_state(11);
    let a = walled_right_boundary(&state);

    // Heading right, a hair short of the walled boundary.
    let col = (a % WIDTH) as i64;
    let row = (a / WIDTH) as i64;
    let bullet = Bullet::new(
        col * FX_ONE + FX_ONE - 300,
        row * FX_ONE + FX_ONE / 2,
        3,
        0,
        true,
    );
    state.bullets.push(bullet);

    state.update(false, false, false, false, false, false);
    assert!(state.bullets.is_empty());
}

/// A bullet fired straight at another player in the same cell at zero
/// separation takes exactly one life and clears the same tick.
#[test]
pub fn bullet_hits_player_in_same_cell() {
    let mut state = generated_state(11);

    // Player 1 owns a bullet one flight step short of player 0's center.
    let bullet = Bullet::new(state.player_x[0] - 655, state.player_y[0], 1, 0, true);
    state.bullets.push(bullet);

    state.update(false, false, false, false, false, false);

    assert_eq!(state.player_life[0], START_LIFE - 1);
    assert!(state.bullets.is_empty());
}

/// With the bullet collection at capacity, a fire still consumes the
/// slot but the new bullet is dropped rather than silently truncating
/// anything else.
#[test]
pub fn full_bullet_collection_drops_the_shot() {
    let mut state = generated_state(11);
    // Twelve live bullets parked in an empty cell, drifting within it.
    for _ in 0..12 {
        state
            .bullets
            .push(Bullet::new(6 * FX_ONE + FX_ONE / 5, FX_ONE / 2, 2, 0, true));
    }

    state.update(false, false, false, false, true, false);

    assert_eq!(state.player_ammo[0][0], Ammo::Reloading(RELOAD_TIME - 1));
    assert_eq!(state.bullets.len(), 12);
    assert!(state.bullets.iter().all(|b| b.owner == 2));
}

/// Each tick rebuilds the event list: a successful fire sounds the fire
/// tone, a fire with empty ammo reports the empty diagnostic, a completed
/// reload sounds the reload tone, and a dropped shot is reported.
#[test]
pub fn tick_events_cover_every_condition() {
    let mut state = generated_state(11);

    state.update(false, false, false, false, true, false);
    assert_eq!(state.events, vec![GameEvent::FireTone]);

    state.update(false, false, false, false, false, false);
    assert_eq!(state.events, vec![]);

    state.player_ammo[0] = vec![
        Ammo::Reloading(5),
        Ammo::Reloading(5),
        Ammo::Reloading(5),
    ];
    state.update(false, false, false, false, true, false);
    assert_eq!(state.events, vec![GameEvent::AmmoEmpty]);

    state.player_ammo[0] = vec![Ammo::Reloading(0), Ammo::Loaded, Ammo::Loaded];
    state.update(false, false, false, false, false, false);
    assert_eq!(state.events, vec![GameEvent::ReloadTone]);

    state.bullets.clear();
    for _ in 0..12 {
        state
            .bullets
            .push(Bullet::new(6 * FX_ONE + FX_ONE / 5, FX_ONE / 2, 2, 0, true));
    }
    state.update(false, false, false, false, true, false);
    assert_eq!(state.events, vec![GameEvent::FireTone, GameEvent::ShotDropped]);
}

/// A toggle intent swaps the player's screen and swaps it back.
#[test]
pub fn toggle_view_swaps_screen() {
    let mut state = generated_state(11);
    assert_eq!(state.player_view[0], ViewMode::FirstPerson);
    state.update(false, false, false, false, false, true);
    assert_eq!(state.player_view[0], ViewMode::TopDown);
    state.update(false, false, false, false, false, true);
    assert_eq!(state.player_view[0], ViewMode::FirstPerson);
}

/// Life never rises across ticks.
#[test]
pub fn life_never_rises() {
    let mut state = generated_state(3);
    let mut prev: Vec<i32> = state.player_life.clone();
    for _ in 0..50 {
        state.update(true, false, false, true, true, false);
        for p in 0..4 {
            assert!(state.player_life[p] <= prev[p]);
        }
        prev = state.player_life.clone();
    }
}

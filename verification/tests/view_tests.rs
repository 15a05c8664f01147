//! View projection and the fixed-point scalar helpers.

use rand::rngs::SmallRng;
use rand::SeedableRng;

use raymaze::arms::Ammo;
use raymaze::constants::{FX_ONE, NUM_COLUMNS, PI_FX, TAU_FX};
use raymaze::fixed::{atan2_fx, cos_fx, isqrt_u64, sin_fx, unwrap_angle};
use raymaze::state::State;
use raymaze::util::{distance, get_center_from_index, get_index, point_in_wall};
use raymaze::view::{get_ammo_view, get_bullet_view, get_player_view, get_wall_view};

fn generated_state(seed: u64) -> State {
    let mut state = State::new();
    let mut rng = SmallRng::seed_from_u64(seed);
    state.generate_maze(&mut rng);
    state
}

/// The trigonometric approximations are exact on the axes.
#[test]
pub fn trig_axes_are_exact() {
    assert_eq!(sin_fx(0), 0);
    assert_eq!(cos_fx(0), FX_ONE);
    assert_eq!(sin_fx(PI_FX / 2), FX_ONE);
    assert_eq!(cos_fx(PI_FX), -FX_ONE);
    assert_eq!(sin_fx(PI_FX), 0);
    assert_eq!(atan2_fx(0, 1000), 0);
    assert_eq!(atan2_fx(0, -1000), PI_FX);
    assert_eq!(atan2_fx(1000, 0), PI_FX / 2);
    assert_eq!(atan2_fx(-1000, 0), -PI_FX / 2);
}

/// Square roots and distances round down exactly.
#[test]
pub fn isqrt_and_distance_are_exact() {
    assert_eq!(isqrt_u64(0), 0);
    assert_eq!(isqrt_u64(15), 3);
    assert_eq!(isqrt_u64(16), 4);
    assert_eq!(isqrt_u64(999999), 999);
    assert_eq!(distance(3 * FX_ONE, 4 * FX_ONE), 5 * FX_ONE);
    assert_eq!(distance(-3 * FX_ONE, 4 * FX_ONE), 5 * FX_ONE);
    assert_eq!(distance(0, 0), 0);
}

/// Cell index mapping and cell centers agree.
#[test]
pub fn cell_index_round_trip() {
    let (cx, cy) = get_center_from_index(40, 13, 13);
    assert_eq!(cx, (40 % 13) as i64 * FX_ONE + FX_ONE / 2);
    assert_eq!(cy, (40 / 13) as i64 * FX_ONE + FX_ONE / 2);
    assert_eq!(get_index(cx, cy, 13, 13), 40);
}

/// The unwrapped bearing differs from the raw bearing by whole turns and
/// lies within half a turn of the facing.
#[test]
pub fn unwrap_is_canonical() {
    assert_eq!(unwrap_angle(0, 3 * TAU_FX + 100), 3 * TAU_FX);
    let cases: [(i64, i64); 5] = [
        (0, 0),
        (PI_FX, -PI_FX),
        (-PI_FX / 2, 5 * TAU_FX),
        (205000, -3 * TAU_FX - 7),
        (-411000, 2 * TAU_FX + 123456),
    ];
    for (raw, facing) in cases {
        let u = unwrap_angle(raw, facing);
        assert_eq!((u - raw).rem_euclid(TAU_FX), 0);
        assert!(facing - PI_FX <= u && u < facing + PI_FX);
    }
}

/// The wall test reads the bitmask lines and treats out-of-range lookups
/// as walls.
#[test]
pub fn point_in_wall_reads_bits() {
    let walls: Vec<u16> = vec![0b0000, 0b0101, 0b0010];
    assert!(!point_in_wall(0, 0, &walls));
    assert!(point_in_wall(FX_ONE, 0, &walls));
    assert!(!point_in_wall(FX_ONE, FX_ONE, &walls));
    assert!(point_in_wall(FX_ONE, 2 * FX_ONE, &walls));
    assert!(point_in_wall(2 * FX_ONE, FX_ONE, &walls));
    // Beyond the last line, or below the first, counts as a wall.
    assert!(point_in_wall(3 * FX_ONE, 0, &walls));
}

/// Projecting a view twice from an unchanged session yields identical
/// output, and projection does not disturb the session.
#[test]
pub fn project_view_is_idempotent() {
    let mut state = generated_state(11);
    state.update(true, false, false, false, true, false);

    let first = state.project_view(0);
    let second = state.project_view(0);
    assert_eq!(first.walls, second.walls);
    assert_eq!(first.bullets, second.bullets);
    assert_eq!(first.ammo, second.ammo);
    assert_eq!(first.players, second.players);

    let before_x = state.player_x.clone();
    let _ = state.project_view(1);
    assert_eq!(state.player_x, before_x);
}

/// The wall view fills every screen column with a positive height and a
/// wall distance below the grid diagonal.
#[test]
pub fn wall_view_covers_every_column() {
    let state = generated_state(11);
    let walls = get_wall_view(
        state.player_angle[0],
        state.player_x[0],
        state.player_y[0],
        &state.horizontal_walls,
        &state.vertical_walls,
    );
    assert_eq!(walls.len(), NUM_COLUMNS);
    for &(height, dist, _shadow) in walls.iter() {
        assert!(height > 0);
        assert!(dist > 0 && dist < 19 * FX_ONE);
    }
}

/// A bullet dead ahead appears in the middle column of the view; one
/// behind the viewer is invisible.
#[test]
pub fn bullet_view_places_bullets() {
    let state = generated_state(11);
    let px = 3 * FX_ONE + FX_ONE / 2;
    let py = 3 * FX_ONE + FX_ONE / 2;
    let bullets = vec![
        raymaze::arms::Bullet::new(px + 2 * FX_ONE, py, 0, 0, true),
        raymaze::arms::Bullet::new(px - 2 * FX_ONE, py, 0, 0, true),
    ];
    let _ = &state;
    let ovals = get_bullet_view(0, px, py, &bullets);
    let ahead = ovals[0];
    assert!(ahead.4);
    assert!((ahead.0 - 80).abs() <= 1);
    assert_eq!(ahead.3, 2 * FX_ONE);
    let behind = ovals[1];
    assert!(!behind.4);
}

/// A living player straight ahead is visible with a sane rectangle; the
/// viewer itself never appears.
#[test]
pub fn player_view_filters_by_fov() {
    let angles: Vec<i64> = vec![0, PI_FX, 0, 0];
    let xs: Vec<i64> = vec![
        FX_ONE / 2,
        FX_ONE / 2 + 3 * FX_ONE,
        FX_ONE / 2,
        FX_ONE / 2 + 3 * FX_ONE,
    ];
    let ys: Vec<i64> = vec![
        FX_ONE / 2,
        FX_ONE / 2,
        FX_ONE / 2 + 5 * FX_ONE,
        FX_ONE / 2 + 5 * FX_ONE,
    ];
    let lifes: Vec<i32> = vec![5, 5, 0, 5];
    let rects = get_player_view(0, &angles, &xs, &ys, &lifes);
    assert_eq!(rects.len(), 4);
    assert!(!rects[0].visible);
    assert!(rects[1].visible);
    assert!(rects[1].alive);
    assert_eq!(rects[1].distance, 3 * FX_ONE);
    assert!((rects[1].h_position as i64 - 80).abs() <= rects[1].height as i64);
    // Facing the viewer head-on.
    assert!(rects[1].facing_me);
    // Eliminated players never appear.
    assert!(!rects[2].visible);
}

/// The projected frame never shows a bullet or sprite at or beyond the
/// wall distance of its screen column, and a bullet right in front of
/// the viewer stays visible.
#[test]
pub fn projection_suppresses_hidden_sprites() {
    for seed in [3u64, 7, 11] {
        let mut state = generated_state(seed);
        state.player_angle[0] = 0;
        state
            .bullets
            .push(raymaze::arms::Bullet::new(
                state.player_x[0] + FX_ONE / 5,
                state.player_y[0],
                1,
                0,
                true,
            ));
        let pv = state.project_view(0);
        let near = pv.bullets[0];
        assert!(near.4);
        for oval in pv.bullets.iter() {
            if oval.4 {
                let col = if (0..160).contains(&oval.0) { oval.0 as usize } else { 0 };
                assert!(oval.3 < pv.walls[col].1);
            }
        }
        for sprite in pv.players.iter() {
            if sprite.visible {
                let col = if (0..160).contains(&sprite.h_position) {
                    sprite.h_position as usize
                } else {
                    0
                };
                assert!(sprite.distance < pv.walls[col].1);
            }
        }
    }
}

/// The ammo dashboard shows a full circle for loaded slots and the
/// staged fill for reloading ones.
#[test]
pub fn get_ammo_view_stages() {
    let ammo = vec![Ammo::Loaded, Ammo::Reloading(200), Ammo::Reloading(65)];
    let dashboard = get_ammo_view(&ammo);
    assert_eq!(
        dashboard,
        vec![(120, 4, 8, 0, 8), (130, 4, 8, 4, 0), (140, 4, 8, 2, 4)]
    );
    let ammo2 = vec![Ammo::Reloading(128), Ammo::Reloading(64), Ammo::Loaded];
    let dashboard2 = get_ammo_view(&ammo2);
    assert_eq!(
        dashboard2,
        vec![(120, 4, 8, 3, 2), (130, 4, 8, 1, 6), (140, 4, 8, 0, 8)]
    );
}

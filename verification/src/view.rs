//! The view projector: a grid-DDA ray caster for the wall columns, and
//! screen-space projections for bullets, other players and the ammo
//! dashboard.
//!
//! Every function here is a pure function of the session state, pinned by
//! its contract to a spec mirror, so projecting the same state twice
//! yields identical output and never mutates the session.

use vstd::prelude::*;

use crate::arms::{Ammo, Bullet};
use crate::constants::{
    ANGLE_STEP_FX, BULLET_APPARENT_FX, DIST_CAP_FX, FX_ONE, GRID_H_FX, GRID_W_FX, HALF_FOV_FX,
    MARCH_STEPS, NUM_BULLETS, NUM_COLUMNS, NUM_PLAYERS, PLAYER_WIDTH_FX, TAU_FX,
    WALL_HEIGHT_NUM_FX,
};
use crate::fixed::{
    cap_add, ceil_fx, cos_fx, div_euclid_fx, div_scaled, floor_fx, mul_fx, rem_euclid_fx, sin_fx,
    spec_abs, spec_atan2_fx, spec_cap_add, spec_ceil_fx, spec_cos_fx, spec_div_scaled,
    spec_floor_fx, spec_mul_fx, spec_sin_fx, spec_tan_fx, spec_unwrap, tan_fx, unwrap_angle,
};
use crate::state::{spec_in_grid, State};
use crate::util::{distance, point_in_wall, spec_distance, spec_point_in_wall};

verus! {

/// One ray extension: from relative position `(fx, fy)`, keep stepping by
/// `(dx, dy)` until the wall bitmask is set at the crossed line or the
/// step budget runs out; `horizontal` selects which coordinate picks the
/// wall line.
pub open spec fn spec_march(
    walls: Seq<u16>,
    px: int,
    py: int,
    fx: int,
    fy: int,
    dx: int,
    dy: int,
    horizontal: bool,
    fuel: nat,
) -> (int, int)
    decreases fuel,
{
    if fuel == 0 {
        (fx, fy)
    } else {
        let cx = fx + px;
        let cy = fy + py;
        let hit = if horizontal {
            spec_point_in_wall(cy, cx, walls)
        } else {
            spec_point_in_wall(cx, cy, walls)
        };
        if hit {
            (fx, fy)
        } else {
            spec_march(
                walls,
                px,
                py,
                spec_cap_add(fx, dx),
                spec_cap_add(fy, dy),
                dx,
                dy,
                horizontal,
                (fuel - 1) as nat,
            )
        }
    }
}

/// The distance to the nearest wall on a horizontal grid line, as a spec
/// value.
pub open spec fn spec_h_intersect(h_walls: Seq<u16>, px: int, py: int, angle: int) -> int {
    let up = (angle / (PI_FX as int)) % 2 != 0;
    let first_y = if up {
        spec_ceil_fx(py) - py
    } else {
        spec_floor_fx(py) - py
    };
    let tan = spec_tan_fx(angle);
    let first_x = spec_div_scaled(-first_y, tan);
    let dy: int = if up {
        FX_ONE as int
    } else {
        -(FX_ONE as int)
    };
    let dx = spec_div_scaled(-dy, tan);
    let end = spec_march(h_walls, px, py, first_x, first_y, dx, dy, true, MARCH_STEPS as nat);
    spec_distance(end.0, end.1)
}

/// The distance to the nearest wall on a vertical grid line, as a spec
/// value.
pub open spec fn spec_v_intersect(v_walls: Seq<u16>, px: int, py: int, angle: int) -> int {
    let right = ((angle - HALF_PI_FX) / (PI_FX as int)) % 2 != 0;
    let first_x = if right {
        spec_ceil_fx(px) - px
    } else {
        spec_floor_fx(px) - px
    };
    let tan = spec_tan_fx(angle);
    let first_y = spec_mul_fx(-tan, first_x);
    let dx: int = if right {
        FX_ONE as int
    } else {
        -(FX_ONE as int)
    };
    let dy = spec_mul_fx(-tan, dx);
    let end = spec_march(v_walls, px, py, first_x, first_y, dx, dy, false, MARCH_STEPS as nat);
    spec_distance(end.0, end.1)
}

/// One screen column of the wall view: projected height, wall distance
/// and the shadow flag that tells the two wall-face families apart.
pub open spec fn spec_wall_column(
    h_walls: Seq<u16>,
    v_walls: Seq<u16>,
    pa: int,
    px: int,
    py: int,
    idx: int,
) -> (i32, i64, bool) {
    let angle = pa + HALF_FOV_FX - idx * ANGLE_STEP_FX;
    let h = spec_h_intersect(h_walls, px, py, angle);
    let v = spec_v_intersect(v_walls, px, py, angle);
    let min_d = if h < v {
        h
    } else {
        v
    };
    let shadow = !(h < v);
    let denom = min_d * spec_cos_fx(angle - pa);
    let hgt = if denom <= 0 {
        0x7fffffffint
    } else {
        let q = (WALL_HEIGHT_NUM_FX as int) / denom;
        if q > 0x7fffffff {
            0x7fffffffint
        } else {
            q
        }
    };
    (hgt as i32, min_d as i64, shadow)
}

/// The whole wall view: one column per sampled ray.
pub open spec fn spec_wall_columns(
    h_walls: Seq<u16>,
    v_walls: Seq<u16>,
    pa: int,
    px: int,
    py: int,
) -> Seq<(i32, i64, bool)> {
    Seq::new(NUM_COLUMNS as nat, |i: int| spec_wall_column(h_walls, v_walls, pa, px, py, i))
}

use crate::constants::{HALF_PI_FX, PI_FX};

/// Returns the nearest wall the ray intersects with on a horizontal grid
/// line.
#[verifier::loop_isolation(false)]
pub fn horizontal_intersection(
    player_x: i64,
    player_y: i64,
    horizontal_walls: &Vec<u16>,
    angle: i64,
) -> (d: i64)
    requires
        spec_in_grid(player_x as int, player_y as int),
        -TAU_FX <= angle <= 2 * TAU_FX,
    ensures
        d == spec_h_intersect(horizontal_walls@, player_x as int, player_y as int, angle as int),
        0 <= d <= 3 * DIST_CAP_FX,
{
    let adiv = div_euclid_fx(angle, PI_FX);
    let up = rem_euclid_fx(adiv, 2) == 1;
    let first_y = if up {
        ceil_fx(player_y) - player_y
    } else {
        floor_fx(player_y) - player_y
    };
    let tan = tan_fx(angle);
    let first_x = div_scaled(-first_y, tan);
    let dy: i64 = if up {
        FX_ONE
    } else {
        -FX_ONE
    };
    let dx = div_scaled(-dy, tan);

    let ghost target = spec_march(
        horizontal_walls@,
        player_x as int,
        player_y as int,
        first_x as int,
        first_y as int,
        dx as int,
        dy as int,
        true,
        MARCH_STEPS as nat,
    );
    let mut next_x = first_x;
    let mut next_y = first_y;
    let mut k: usize = 0;
    let mut hit = false;
    while k < MARCH_STEPS && !hit
        invariant
            k <= MARCH_STEPS,
            -2 * DIST_CAP_FX <= next_x <= 2 * DIST_CAP_FX,
            -2 * DIST_CAP_FX <= next_y <= 2 * DIST_CAP_FX,
            (if hit {
                target == (next_x as int, next_y as int)
            } else {
                target == spec_march(
                    horizontal_walls@,
                    player_x as int,
                    player_y as int,
                    next_x as int,
                    next_y as int,
                    dx as int,
                    dy as int,
                    true,
                    (MARCH_STEPS - k) as nat,
                )
            }),
        decreases
                MARCH_STEPS - k,
                (if hit {
                    0int
                } else {
                    1int
                }),
    {
        let current_x = next_x + player_x;
        let current_y = next_y + player_y;
        if point_in_wall(current_y, current_x, horizontal_walls) {
            hit = true;
        } else {
            next_x = cap_add(next_x, dx);
            next_y = cap_add(next_y, dy);
            k += 1;
        }
    }
    distance(next_x, next_y)
}

/// Returns the nearest wall the ray intersects with on a vertical grid
/// line.
#[verifier::loop_isolation(false)]
pub fn vertical_intersection(
    player_x: i64,
    player_y: i64,
    vertical_walls: &Vec<u16>,
    angle: i64,
) -> (d: i64)
    requires
        spec_in_grid(player_x as int, player_y as int),
        -TAU_FX <= angle <= 2 * TAU_FX,
    ensures
        d == spec_v_intersect(vertical_walls@, player_x as int, player_y as int, angle as int),
        0 <= d <= 3 * DIST_CAP_FX,
{
    let adiv = div_euclid_fx(angle - HALF_PI_FX, PI_FX);
    let right = rem_euclid_fx(adiv, 2) == 1;
    let first_x = if right {
        ceil_fx(player_x) - player_x
    } else {
        floor_fx(player_x) - player_x
    };
    let tan = tan_fx(angle);
    let first_y = mul_fx(-tan, first_x);
    let dx: i64 = if right {
        FX_ONE
    } else {
        -FX_ONE
    };
    let dy = mul_fx(-tan, dx);
    proof {
        assert(spec_abs(-tan as int) * spec_abs(first_x as int) <= 1073741824 * 65536)
            by (nonlinear_arith)
            requires
                -DIST_CAP_FX <= tan <= DIST_CAP_FX,
                -65536 <= first_x <= 65536,
                DIST_CAP_FX == 1073741824,
        ;
        assert(spec_abs(-tan as int) * spec_abs(dx as int) <= 1073741824 * 65536)
            by (nonlinear_arith)
            requires
                -DIST_CAP_FX <= tan <= DIST_CAP_FX,
                -65536 <= dx <= 65536,
                DIST_CAP_FX == 1073741824,
        ;
        assert(-2 * DIST_CAP_FX <= first_y <= 2 * DIST_CAP_FX);
        assert(-2 * DIST_CAP_FX <= dy <= 2 * DIST_CAP_FX);
    }

    let ghost target = spec_march(
        vertical_walls@,
        player_x as int,
        player_y as int,
        first_x as int,
        first_y as int,
        dx as int,
        dy as int,
        false,
        MARCH_STEPS as nat,
    );
    let mut next_x = first_x;
    let mut next_y = first_y;
    let mut k: usize = 0;
    let mut hit = false;
    while k < MARCH_STEPS && !hit
        invariant
            k <= MARCH_STEPS,
            -2 * DIST_CAP_FX <= next_x <= 2 * DIST_CAP_FX,
            -2 * DIST_CAP_FX <= next_y <= 2 * DIST_CAP_FX,
            (if hit {
                target == (next_x as int, next_y as int)
            } else {
                target == spec_march(
                    vertical_walls@,
                    player_x as int,
                    player_y as int,
                    next_x as int,
                    next_y as int,
                    dx as int,
                    dy as int,
                    false,
                    (MARCH_STEPS - k) as nat,
                )
            }),
        decreases
                MARCH_STEPS - k,
                (if hit {
                    0int
                } else {
                    1int
                }),
    {
        let current_x = next_x + player_x;
        let current_y = next_y + player_y;
        if point_in_wall(current_x, current_y, vertical_walls) {
            hit = true;
        } else {
            next_x = cap_add(next_x, dx);
            next_y = cap_add(next_y, dy);
            k += 1;
        }
    }
    distance(next_x, next_y)
}

/// Returns 160 wall columns (projected height, wall distance, shadow)
/// from the given pose.
#[verifier::loop_isolation(false)]
pub fn get_wall_view(
    player_angle: i64,
    player_x: i64,
    player_y: i64,
    horizontal_walls: &Vec<u16>,
    vertical_walls: &Vec<u16>,
) -> (walls: Vec<(i32, i64, bool)>)
    requires
        spec_in_grid(player_x as int, player_y as int),
        0 <= player_angle < TAU_FX,
    ensures
        walls@ == spec_wall_columns(
            horizontal_walls@,
            vertical_walls@,
            player_angle as int,
            player_x as int,
            player_y as int,
        ),
{
    let starting_angle = player_angle + HALF_FOV_FX;
    let mut walls: Vec<(i32, i64, bool)> = Vec::new();
    let mut idx: usize = 0;
    while idx < NUM_COLUMNS
        invariant
            idx <= NUM_COLUMNS,
            walls@.len() == idx,
            forall|t: int|
                0 <= t < idx ==> walls@[t] == spec_wall_column(
                    horizontal_walls@,
                    vertical_walls@,
                    player_angle as int,
                    player_x as int,
                    player_y as int,
                    t,
                ),
        decreases NUM_COLUMNS - idx,
    {
        let angle = starting_angle - (idx as i64) * ANGLE_STEP_FX;
        let h_dist = horizontal_intersection(player_x, player_y, horizontal_walls, angle);
        let v_dist = vertical_intersection(player_x, player_y, vertical_walls, angle);
        let min_dist = if h_dist < v_dist {
            h_dist
        } else {
            v_dist
        };
        let shadow = !(h_dist < v_dist);
        let c = cos_fx(angle - player_angle);
        proof {
            assert(-(3221225472 * 65536) <= (min_dist as int) * (c as int) <= 3221225472
                * 65536) by (nonlinear_arith)
                requires
                    0 <= min_dist <= 3221225472,
                    -65536 <= c <= 65536,
            ;
        }
        let denom: i64 = min_dist * c;
        let height: i32 = if denom <= 0 {
            0x7fffffff
        } else {
            let q: u64 = (WALL_HEIGHT_NUM_FX as u64) / (denom as u64);
            if q > 0x7fffffff {
                0x7fffffff
            } else {
                q as i32
            }
        };
        walls.push((height, min_dist, shadow));
        idx += 1;
    }
    proof {
        assert(walls@ =~= spec_wall_columns(
            horizontal_walls@,
            vertical_walls@,
            player_angle as int,
            player_x as int,
            player_y as int,
        ));
    }
    walls
}

/// Truncated (toward zero) division by the ray step, as the float cast
/// the screen projection calls for.
pub open spec fn spec_div_step(num: int) -> int {
    if num >= 0 {
        num / (ANGLE_STEP_FX as int)
    } else {
        -((-num) / (ANGLE_STEP_FX as int))
    }
}

/// The screen oval of one bullet: column, row, apparent size, distance
/// and visibility, or an empty slot when the bullet lies outside the
/// field of view.
pub open spec fn spec_bullet_oval(b: Bullet, pa: int, px: int, py: int) -> (
    i32,
    i32,
    u32,
    i64,
    bool,
) {
    if b.inflight {
        let rise = b.y - py;
        let run = b.x - px;
        let bd = spec_distance(rise, run);
        let bangle = -spec_atan2_fx(rise, run);
        let unwrapped = spec_unwrap(bangle, pa);
        let fov_up = pa + HALF_FOV_FX;
        let fov_low = fov_up - 159 * ANGLE_STEP_FX;
        if fov_low <= unwrapped <= fov_up {
            let h = (fov_up - unwrapped) / (ANGLE_STEP_FX as int);
            let size = spec_div_scaled(BULLET_APPARENT_FX as int, bd) / (ANGLE_STEP_FX as int);
            let v = 75 + bd / (FX_ONE as int);
            (h as i32, v as i32, size as u32, bd as i64, true)
        } else {
            (0, 0, 0, 0, false)
        }
    } else {
        (0, 0, 0, 0, false)
    }
}

/// The full bullet view: one slot per bullet capacity, empty past the
/// live collection.
pub open spec fn spec_bullet_ovals(bs: Seq<Bullet>, pa: int, px: int, py: int) -> Seq<
    (i32, i32, u32, i64, bool),
> {
    Seq::new(
        NUM_BULLETS as nat,
        |i: int|
            if i < bs.len() {
                spec_bullet_oval(bs[i], pa, px, py)
            } else {
                (0, 0, 0, 0, false)
            },
    )
}

/// Filters bullets by a player's field of view and returns each bullet's
/// screen position, apparent size, distance and visibility.
#[verifier::loop_isolation(false)]
pub fn get_bullet_view(
    player_angle: i64,
    player_x: i64,
    player_y: i64,
    bullets: &Vec<Bullet>,
) -> (ovals: Vec<(i32, i32, u32, i64, bool)>)
    requires
        0 <= player_angle < TAU_FX,
        spec_in_grid(player_x as int, player_y as int),
        bullets@.len() <= NUM_BULLETS,
        forall|t: int| 0 <= t < bullets@.len() ==> crate::state::bullet_wf(#[trigger] bullets@[t]),
    ensures
        ovals@ == spec_bullet_ovals(
            bullets@,
            player_angle as int,
            player_x as int,
            player_y as int,
        ),
{
    let fov_upper_limit = player_angle + HALF_FOV_FX;
    let fov_lower_limit = fov_upper_limit - 159 * ANGLE_STEP_FX;
    let mut ovals: Vec<(i32, i32, u32, i64, bool)> = Vec::new();
    let mut i: usize = 0;
    while i < NUM_BULLETS
        invariant
            i <= NUM_BULLETS,
            ovals@.len() == i,
            forall|t: int|
                0 <= t < i ==> ovals@[t] == (if t < bullets@.len() {
                    spec_bullet_oval(
                        bullets@[t],
                        player_angle as int,
                        player_x as int,
                        player_y as int,
                    )
                } else {
                    (0i32, 0i32, 0u32, 0i64, false)
                }),
        decreases NUM_BULLETS - i,
    {
        if i < bullets.len() {
            let b = bullets[i];
            if b.inflight {
                let rise = b.y - player_y;
                let run = b.x - player_x;
                let bullet_distance = distance(rise, run);
                let bullet_angle = -crate::fixed::atan2_fx(rise, run);
                let unwrapped = unwrap_angle(bullet_angle, player_angle);
                if fov_lower_limit <= unwrapped && unwrapped <= fov_upper_limit {
                    let h_position = div_euclid_fx(fov_upper_limit - unwrapped, ANGLE_STEP_FX);
                    proof {
                        vstd::arithmetic::div_mod::lemma_div_is_ordered(
                            fov_upper_limit as int - unwrapped as int,
                            (159 * 477) as int,
                            477,
                        );
                        vstd::arithmetic::div_mod::lemma_div_pos_is_pos(
                            fov_upper_limit as int - unwrapped as int,
                            477,
                        );
                    }
                    let t1 = div_scaled(BULLET_APPARENT_FX, bullet_distance);
                    proof {
                        vstd::arithmetic::div_mod::lemma_div_pos_is_pos(t1 as int, 477);
                        vstd::arithmetic::div_mod::lemma_div_is_ordered(
                            t1 as int,
                            DIST_CAP_FX as int,
                            477,
                        );
                    }
                    let size = div_euclid_fx(t1, ANGLE_STEP_FX);
                    proof {
                        vstd::arithmetic::div_mod::lemma_div_pos_is_pos(
                            bullet_distance as int,
                            FX_ONE as int,
                        );
                        vstd::arithmetic::div_mod::lemma_div_is_ordered(
                            bullet_distance as int,
                            3 * DIST_CAP_FX,
                            FX_ONE as int,
                        );
                    }
                    let v_position = 75 + div_euclid_fx(bullet_distance, FX_ONE);
                    ovals.push(
                        (h_position as i32, v_position as i32, size as u32, bullet_distance, true),
                    );
                } else {
                    ovals.push((0, 0, 0, 0, false));
                }
            } else {
                ovals.push((0, 0, 0, 0, false));
            }
        } else {
            ovals.push((0, 0, 0, 0, false));
        }
        i += 1;
    }
    proof {
        assert(ovals@ =~= spec_bullet_ovals(
            bullets@,
            player_angle as int,
            player_x as int,
            player_y as int,
        ));
    }
    ovals
}

/// The drawable rectangle of one other player, as seen by a viewer.
#[derive(Clone, Copy, PartialEq, Eq, Structural, Debug)]
pub struct SpriteView {
    pub h_position: i32,
    pub v_position: i32,
    pub width: u32,
    pub height: u32,
    pub distance: i64,
    pub facing_me: bool,
    pub alive: bool,
    pub visible: bool,
}

/// An empty sprite slot.
pub open spec fn spec_empty_sprite() -> SpriteView {
    SpriteView {
        h_position: 0,
        v_position: 0,
        width: 0,
        height: 0,
        distance: 0,
        facing_me: false,
        alive: false,
        visible: false,
    }
}

/// The sprite of player `j` as seen by player `idx`: screen rectangle,
/// apparent size narrowed when seen edge-on, distance, and whether the
/// target faces the viewer; an empty slot off the padded field of view,
/// for the viewer itself, and for eliminated players.
pub open spec fn spec_player_sprite(
    idx: int,
    j: int,
    pang: Seq<i64>,
    px: Seq<i64>,
    py: Seq<i64>,
    plife: Seq<i32>,
) -> SpriteView {
    if j == idx || plife[j] <= 0 {
        spec_empty_sprite()
    } else {
        let rise = py[j] - py[idx];
        let run = px[j] - px[idx];
        let d = spec_distance(rise, run);
        let angle_to = -spec_atan2_fx(rise, run);
        let unwrapped = spec_unwrap(angle_to, pang[idx] as int);
        let fov_up = pang[idx] + HALF_FOV_FX;
        let fov_low = fov_up - 159 * ANGLE_STEP_FX;
        let size = spec_div_scaled(PLAYER_WIDTH_FX as int, d) / (ANGLE_STEP_FX as int);
        let fov_correction = ANGLE_STEP_FX * size;
        let wdt = spec_mul_fx(size, spec_abs(spec_cos_fx(pang[j] - angle_to)));
        if fov_low - fov_correction <= unwrapped <= fov_up + fov_correction {
            let h = spec_div_step(fov_up - unwrapped) - size / 2;
            let v = 80 - size / 2;
            let cc = spec_cos_fx(pang[j] as int) + spec_cos_fx(angle_to);
            let ss = spec_sin_fx(pang[j] as int) + spec_sin_fx(angle_to);
            let facing = cc * cc + ss * ss < 2 * (FX_ONE as int) * (FX_ONE as int);
            SpriteView {
                h_position: h as i32,
                v_position: v as i32,
                width: wdt as u32,
                height: size as u32,
                distance: d as i64,
                facing_me: facing,
                alive: true,
                visible: true,
            }
        } else {
            spec_empty_sprite()
        }
    }
}

/// The full sprite view, one slot per player.
pub open spec fn spec_player_sprites(
    idx: int,
    pang: Seq<i64>,
    px: Seq<i64>,
    py: Seq<i64>,
    plife: Seq<i32>,
) -> Seq<SpriteView> {
    Seq::new(NUM_PLAYERS as nat, |j: int| spec_player_sprite(idx, j, pang, px, py, plife))
}

/// Filters the other players by a player's field of view and returns
/// their drawing rectangles.
#[verifier::loop_isolation(false)]
#[verifier::rlimit(50)]
pub fn get_player_view(
    player_index: usize,
    player_angle: &Vec<i64>,
    player_x: &Vec<i64>,
    player_y: &Vec<i64>,
    player_life: &Vec<i32>,
) -> (rects: Vec<SpriteView>)
    requires
        player_index < NUM_PLAYERS,
        player_angle@.len() == NUM_PLAYERS,
        player_x@.len() == NUM_PLAYERS,
        player_y@.len() == NUM_PLAYERS,
        player_life@.len() == NUM_PLAYERS,
        forall|p: int| 0 <= p < NUM_PLAYERS ==> 0 < #[trigger] player_x@[p] < GRID_W_FX,
        forall|p: int| 0 <= p < NUM_PLAYERS ==> 0 < #[trigger] player_y@[p] < GRID_H_FX,
        forall|p: int| 0 <= p < NUM_PLAYERS ==> 0 <= #[trigger] player_angle@[p] < TAU_FX,
    ensures
        rects@ == spec_player_sprites(
            player_index as int,
            player_angle@,
            player_x@,
            player_y@,
            player_life@,
        ),
{
    let fov_upper_limit = player_angle[player_index] + HALF_FOV_FX;
    let fov_lower_limit = fov_upper_limit - 159 * ANGLE_STEP_FX;
    let mut rects: Vec<SpriteView> = Vec::new();
    let mut j: usize = 0;
    while j < NUM_PLAYERS
        invariant
            j <= NUM_PLAYERS,
            rects@.len() == j,
            forall|t: int|
                0 <= t < j ==> rects@[t] == spec_player_sprite(
                    player_index as int,
                    t,
                    player_angle@,
                    player_x@,
                    player_y@,
                    player_life@,
                ),
        decreases NUM_PLAYERS - j,
    {
        if j != player_index && player_life[j] > 0 {
            let rise = player_y[j] - player_y[player_index];
            let run = player_x[j] - player_x[player_index];
            let distance_to_player = distance(rise, run);
            let angle_to_player = -crate::fixed::atan2_fx(rise, run);
            let unwrapped = unwrap_angle(angle_to_player, player_angle[player_index]);

            let t1 = div_scaled(PLAYER_WIDTH_FX, distance_to_player);
            proof {
                vstd::arithmetic::div_mod::lemma_div_pos_is_pos(t1 as int, 477);
                vstd::arithmetic::div_mod::lemma_div_is_ordered(
                    t1 as int,
                    DIST_CAP_FX as int,
                    477,
                );
            }
            let size = div_euclid_fx(t1, ANGLE_STEP_FX);
            let fov_correction = ANGLE_STEP_FX * size;
            let ccos = cos_fx(player_angle[j] - angle_to_player);
            let acos = if ccos < 0 {
                -ccos
            } else {
                ccos
            };
            proof {
                assert(spec_abs(size as int) * spec_abs(acos as int) <= 2251800 * 65536)
                    by (nonlinear_arith)
                    requires
                        0 <= size <= 2251800,
                        0 <= acos <= 65536,
                ;
            }
            let wdt = mul_fx(size, acos);

            if fov_lower_limit - fov_correction <= unwrapped && unwrapped <= fov_upper_limit
                + fov_correction {
                let num = fov_upper_limit - unwrapped;
                let h0: i64 = if num >= 0 {
                    proof {
                        vstd::arithmetic::div_mod::lemma_div_pos_is_pos(num as int, 477);
                        vstd::arithmetic::div_mod::lemma_div_is_ordered(
                            num as int,
                            2000000000,
                            477,
                        );
                    }
                    div_euclid_fx(num, ANGLE_STEP_FX)
                } else {
                    proof {
                        vstd::arithmetic::div_mod::lemma_div_pos_is_pos(-num as int, 477);
                        vstd::arithmetic::div_mod::lemma_div_is_ordered(
                            -num as int,
                            2000000000,
                            477,
                        );
                    }
                    -div_euclid_fx(-num, ANGLE_STEP_FX)
                };
                let h = h0 - size / 2;
                let v = 80 - size / 2;
                let cc = cos_fx(player_angle[j]) + cos_fx(angle_to_player);
                let ss = sin_fx(player_angle[j]) + sin_fx(angle_to_player);
                proof {
                    assert(cc * cc <= 131072 * 131072 && cc * cc >= 0 && ss * ss <= 131072
                        * 131072 && ss * ss >= 0) by (nonlinear_arith)
                        requires
                            -131072 <= cc <= 131072,
                            -131072 <= ss <= 131072,
                    ;
                }
                let facing = cc * cc + ss * ss < 2 * FX_ONE * FX_ONE;
                rects.push(
                    SpriteView {
                        h_position: h as i32,
                        v_position: v as i32,
                        width: wdt as u32,
                        height: size as u32,
                        distance: distance_to_player,
                        facing_me: facing,
                        alive: true,
                        visible: true,
                    },
                );
            } else {
                rects.push(
                    SpriteView {
                        h_position: 0,
                        v_position: 0,
                        width: 0,
                        height: 0,
                        distance: 0,
                        facing_me: false,
                        alive: false,
                        visible: false,
                    },
                );
            }
        } else {
            rects.push(
                SpriteView {
                    h_position: 0,
                    v_position: 0,
                    width: 0,
                    height: 0,
                    distance: 0,
                    facing_me: false,
                    alive: false,
                    visible: false,
                },
            );
        }
        j += 1;
    }
    proof {
        assert(rects@ =~= spec_player_sprites(
            player_index as int,
            player_angle@,
            player_x@,
            player_y@,
            player_life@,
        ));
    }
    rects
}

/// The dashboard cell of one ammo slot: position, outline size, the
/// concentric correction and the fill that shows reload progress.
pub open spec fn spec_ammo_cell(a: Ammo, i: int) -> (i32, i32, u32, i32, u32) {
    let status: int = match a {
        Ammo::Loaded => 8,
        Ammo::Reloading(t) => if t >= 193 {
            0
        } else if t >= 127 {
            2
        } else if t >= 65 {
            4
        } else {
            6
        },
    };
    let correction = (8 - status) / 2;
    ((120 + 10 * i) as i32, 4i32, 8u32, correction as i32, status as u32)
}

/// The ammo dashboard, one cell per slot.
pub open spec fn spec_ammo_cells(ammo: Seq<Ammo>) -> Seq<(i32, i32, u32, i32, u32)> {
    Seq::new(ammo.len(), |i: int| spec_ammo_cell(ammo[i], i))
}

/// Returns drawing information for a player's ammunition dashboard.
#[verifier::loop_isolation(false)]
pub fn get_ammo_view(player_ammo: &Vec<Ammo>) -> (dashboard: Vec<(i32, i32, u32, i32, u32)>)
    requires
        player_ammo@.len() <= 16,
    ensures
        dashboard@ == spec_ammo_cells(player_ammo@),
{
    let mut dashboard: Vec<(i32, i32, u32, i32, u32)> = Vec::new();
    let mut i: usize = 0;
    while i < player_ammo.len()
        invariant
            i <= player_ammo@.len(),
            dashboard@.len() == i,
            forall|t: int|
                0 <= t < i ==> dashboard@[t] == spec_ammo_cell(player_ammo@[t], t),
        decreases player_ammo@.len() - i,
    {
        let status: u32 = match player_ammo[i] {
            Ammo::Loaded => 8,
            Ammo::Reloading(t) => {
                if t >= 193 {
                    0
                } else if t >= 127 {
                    2
                } else if t >= 65 {
                    4
                } else {
                    6
                }
            },
        };
        let correction: i32 = (8 - status as i32) / 2;
        dashboard.push((120 + 10 * (i as i32), 4, 8, correction, status));
        i += 1;
    }
    proof {
        assert(dashboard@ =~= spec_ammo_cells(player_ammo@));
    }
    dashboard
}

/// A bullet oval with visibility suppressed when a nearer wall fills its
/// screen column; columns off the screen read the first column, as the
/// drawing shell always did.
pub open spec fn spec_occlude_oval(
    walls: Seq<(i32, i64, bool)>,
    o: (i32, i32, u32, i64, bool),
) -> (i32, i32, u32, i64, bool) {
    let col: int = if 0 <= o.0 < 160 {
        o.0 as int
    } else {
        0
    };
    if o.4 && o.3 < walls[col].1 {
        o
    } else {
        (o.0, o.1, o.2, o.3, false)
    }
}

/// A player sprite with visibility suppressed when a nearer wall fills
/// its screen column.
pub open spec fn spec_occlude_sprite(walls: Seq<(i32, i64, bool)>, s: SpriteView) -> SpriteView {
    let col: int = if 0 <= s.h_position < 160 {
        s.h_position as int
    } else {
        0
    };
    if s.visible && s.distance < walls[col].1 {
        s
    } else {
        SpriteView { visible: false, ..s }
    }
}

/// The bullet view after wall occlusion.
pub open spec fn spec_occluded_ovals(
    walls: Seq<(i32, i64, bool)>,
    ovals: Seq<(i32, i32, u32, i64, bool)>,
) -> Seq<(i32, i32, u32, i64, bool)> {
    Seq::new(ovals.len(), |i: int| spec_occlude_oval(walls, ovals[i]))
}

/// The sprite view after wall occlusion.
pub open spec fn spec_occluded_sprites(
    walls: Seq<(i32, i64, bool)>,
    sprites: Seq<SpriteView>,
) -> Seq<SpriteView> {
    Seq::new(sprites.len(), |i: int| spec_occlude_sprite(walls, sprites[i]))
}

/// Suppresses bullets that a nearer wall hides.
fn occlude_bullets(
    walls: &Vec<(i32, i64, bool)>,
    ovals: Vec<(i32, i32, u32, i64, bool)>,
) -> (r: Vec<(i32, i32, u32, i64, bool)>)
    requires
        walls@.len() == NUM_COLUMNS,
    ensures
        r@ == spec_occluded_ovals(walls@, ovals@),
{
    let mut r: Vec<(i32, i32, u32, i64, bool)> = Vec::new();
    let mut i: usize = 0;
    while i < ovals.len()
        invariant
            i <= ovals@.len(),
            walls@.len() == NUM_COLUMNS,
            r@.len() == i,
            forall|t: int| 0 <= t < i ==> r@[t] == spec_occlude_oval(walls@, ovals@[t]),
        decreases ovals@.len() - i,
    {
        let o = ovals[i];
        let col: usize = if o.0 >= 0 && o.0 < 160 {
            o.0 as usize
        } else {
            0
        };
        if o.4 && o.3 < walls[col].1 {
            r.push(o);
        } else {
            r.push((o.0, o.1, o.2, o.3, false));
        }
        i += 1;
    }
    proof {
        assert(r@ =~= spec_occluded_ovals(walls@, ovals@));
    }
    r
}

/// Suppresses player sprites that a nearer wall hides.
fn occlude_sprites(walls: &Vec<(i32, i64, bool)>, sprites: Vec<SpriteView>) -> (r: Vec<
    SpriteView,
>)
    requires
        walls@.len() == NUM_COLUMNS,
    ensures
        r@ == spec_occluded_sprites(walls@, sprites@),
{
    let mut r: Vec<SpriteView> = Vec::new();
    let mut i: usize = 0;
    while i < sprites.len()
        invariant
            i <= sprites@.len(),
            walls@.len() == NUM_COLUMNS,
            r@.len() == i,
            forall|t: int| 0 <= t < i ==> r@[t] == spec_occlude_sprite(walls@, sprites@[t]),
        decreases sprites@.len() - i,
    {
        let s = sprites[i];
        let col: usize = if s.h_position >= 0 && s.h_position < 160 {
            s.h_position as usize
        } else {
            0
        };
        if s.visible && s.distance < walls[col].1 {
            r.push(s);
        } else {
            r.push(SpriteView { visible: false, ..s });
        }
        i += 1;
    }
    proof {
        assert(r@ =~= spec_occluded_sprites(walls@, sprites@));
    }
    r
}

/// One player's whole drawable frame.
pub struct PlayerView {
    pub walls: Vec<(i32, i64, bool)>,
    pub bullets: Vec<(i32, i32, u32, i64, bool)>,
    pub ammo: Vec<(i32, i32, u32, i32, u32)>,
    pub players: Vec<SpriteView>,
}

/// Everything `project_view` returns, as a spec value: the raw wall,
/// bullet and sprite projections, with bullets and sprites suppressed
/// where a nearer wall fills their screen column.
pub open spec fn spec_project_view(s: State, pid: int) -> (
    Seq<(i32, i64, bool)>,
    Seq<(i32, i32, u32, i64, bool)>,
    Seq<(i32, i32, u32, i32, u32)>,
    Seq<SpriteView>,
) {
    let walls = spec_wall_columns(
        s.horizontal_walls@,
        s.vertical_walls@,
        s.player_angle@[pid] as int,
        s.player_x@[pid] as int,
        s.player_y@[pid] as int,
    );
    (
        walls,
        spec_occluded_ovals(
            walls,
            spec_bullet_ovals(
                s.bullets@,
                s.player_angle@[pid] as int,
                s.player_x@[pid] as int,
                s.player_y@[pid] as int,
            ),
        ),
        spec_ammo_cells(s.player_ammo@[pid]@),
        spec_occluded_sprites(
            walls,
            spec_player_sprites(pid, s.player_angle@, s.player_x@, s.player_y@, s.player_life@),
        ),
    )
}

impl State {
    /// Projects one player's drawable frame: wall columns, bullet ovals,
    /// the ammo dashboard and the other players' sprites, with bullets
    /// and sprites behind a nearer wall suppressed.  A read-only query:
    /// the session state is only borrowed.
    pub fn project_view(&self, pidx: usize) -> (pv: PlayerView)
        requires
            self.players_wf(),
            pidx < NUM_PLAYERS,
        ensures
            (pv.walls@, pv.bullets@, pv.ammo@, pv.players@) == spec_project_view(
                *self,
                pidx as int,
            ),
    {
        let walls = get_wall_view(
            self.player_angle[pidx],
            self.player_x[pidx],
            self.player_y[pidx],
            &self.horizontal_walls,
            &self.vertical_walls,
        );
        let bullets = occlude_bullets(
            &walls,
            get_bullet_view(
                self.player_angle[pidx],
                self.player_x[pidx],
                self.player_y[pidx],
                &self.bullets,
            ),
        );
        let ammo = get_ammo_view(&self.player_ammo[pidx]);
        let players = occlude_sprites(
            &walls,
            get_player_view(
                pidx,
                &self.player_angle,
                &self.player_x,
                &self.player_y,
                &self.player_life,
            ),
        );
        PlayerView { walls, bullets, ammo, players }
    }

    /// Returns 160 wall heights and their shadow flag from a player's
    /// perspective.
    pub fn get_walls(&self, pidx: usize) -> (walls: Vec<(i32, bool)>)
        requires
            self.players_wf(),
            pidx < NUM_PLAYERS,
        ensures
            walls@.len() == NUM_COLUMNS,
            forall|i: int|
                0 <= i < NUM_COLUMNS ==> #[trigger] walls@[i] == {
                    let col = spec_wall_column(
                        self.horizontal_walls@,
                        self.vertical_walls@,
                        self.player_angle@[pidx as int] as int,
                        self.player_x@[pidx as int] as int,
                        self.player_y@[pidx as int] as int,
                        i,
                    );
                    (col.0, col.2)
                },
    {
        let full = get_wall_view(
            self.player_angle[pidx],
            self.player_x[pidx],
            self.player_y[pidx],
            &self.horizontal_walls,
            &self.vertical_walls,
        );
        let mut walls: Vec<(i32, bool)> = Vec::new();
        let mut i: usize = 0;
        while i < NUM_COLUMNS
            invariant
                i <= NUM_COLUMNS,
                walls@.len() == i,
                full@.len() == NUM_COLUMNS,
                full@ == spec_wall_columns(
                    self.horizontal_walls@,
                    self.vertical_walls@,
                    self.player_angle@[pidx as int] as int,
                    self.player_x@[pidx as int] as int,
                    self.player_y@[pidx as int] as int,
                ),
                forall|t: int|
                    0 <= t < i ==> #[trigger] walls@[t] == (full@[t].0, full@[t].2),
            decreases NUM_COLUMNS - i,
        {
            let col = full[i];
            walls.push((col.0, col.2));
            i += 1;
        }
        walls
    }
}

/// Law: view projection is idempotent.  The projection functions borrow
/// the session immutably and each is pinned by its contract to
/// `spec_project_view`, a function of the state alone, so two projections
/// of an unchanged session are identical.
pub proof fn lemma_project_view_idempotent(
    s: State,
    pid: int,
    r1: (
        Seq<(i32, i64, bool)>,
        Seq<(i32, i32, u32, i64, bool)>,
        Seq<(i32, i32, u32, i32, u32)>,
        Seq<SpriteView>,
    ),
    r2: (
        Seq<(i32, i64, bool)>,
        Seq<(i32, i32, u32, i64, bool)>,
        Seq<(i32, i32, u32, i32, u32)>,
        Seq<SpriteView>,
    ),
)
    requires
        r1 == spec_project_view(s, pid),
        r2 == spec_project_view(s, pid),
    ensures
        r1 == r2,
{
}

} // verus!

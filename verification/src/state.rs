//! The session state and the per-tick simulation: player movement with
//! wall-collision rollback, the ammo reload state machine, bullet flight
//! and hit detection, and the enemy pathfinding that steers players 2-4.

use vstd::prelude::*;

use crate::arms::{Ammo, Bullet};
use crate::constants::{
    BULLETS_PER_PLAYER, BULLET_SPEED_FX, FX_ONE, GRID_H_FX, GRID_W_FX, HEIGHT, JITTER_HALF_FX,
    NUM_BULLETS, NUM_CELLS, NUM_PLAYERS, PLAYER_WIDTH_FX, RELOAD_TIME, START_LIFE, TAU_FX, WIDTH,
};
use crate::constants::{AI_ANGLE_EPS_FX, AI_FIRE_RANGE_FX, AI_NEAR_FX};
use crate::maze::{
    count_true, find_neighbors, find_next_passage, find_walls, lemma_closure_full,
    lemma_count_bounds, lemma_count_full, lemma_count_none, lemma_count_update,
    lemma_passage_is_neighbor, lemma_path_closure, lemma_reaches_extend, lemma_reaches_refl,
    passage_entry_ok, passages_wf, reaches, spec_adjacent, spec_h_wall, spec_has_passage,
    spec_passages_in_grid, spec_v_wall,
};
use crate::constants::{ENEMY_STEP_FX, STEP_FX};
use crate::fixed::{
    cos_fx, mul_fx, reduce_angle, sin_fx, spec_abs, spec_atan2_fx, spec_cos_fx, spec_mul_fx,
    spec_sin_fx, spec_unwrap,
};
use crate::maze::there_is_no_passage_here;
use crate::rng::rng_next_u64;
use crate::util::{
    get_center_from_index, get_index, spec_cell_center, spec_cell_index, spec_distance,
    spec_wall_bit,
};

verus! {

/// What a player's screen shows: the ray-cast corridor or the map.
#[derive(Clone, Copy, PartialEq, Eq, Structural, Debug)]
pub enum ViewMode {
    FirstPerson,
    TopDown,
}

/// One session of the game: the maze, four players, the bullets in
/// flight, and the tones and diagnostics the last tick emitted.
/// Positions and angles are 16.16 fixed-point values; the single `seed`
/// threads the session's randomness, each consumer drawing a fresh
/// generator from it and storing a new seed back.
pub struct State {
    pub player_x: Vec<i64>,
    pub player_y: Vec<i64>,
    pub player_angle: Vec<i64>,
    pub player_ammo: Vec<Vec<Ammo>>,
    pub player_life: Vec<i32>,
    pub player_view: Vec<ViewMode>,
    pub bullets: Vec<Bullet>,
    pub events: Vec<GameEvent>,
    pub passages: Vec<(usize, usize)>,
    pub horizontal_walls: Vec<u16>,
    pub vertical_walls: Vec<u16>,
    pub seed: u64,
}

/// A fire-and-forget event of one tick, for the host to sound or log:
/// the two tones, and the two diagnostic conditions under which a fire
/// intent is dropped.
#[derive(Clone, Copy, PartialEq, Eq, Structural, Debug)]
pub enum GameEvent {
    FireTone,
    ReloadTone,
    ShotDropped,
    AmmoEmpty,
}

/// A bullet the session may hold: in flight, inside the grid, with a
/// reduced heading and a valid owner.
pub open spec fn bullet_wf(b: Bullet) -> bool {
    &&& b.inflight
    &&& 0 < b.x < GRID_W_FX
    &&& 0 < b.y < GRID_H_FX
    &&& 0 <= b.angle < TAU_FX
    &&& b.owner < NUM_PLAYERS
}

/// The visited set with every cell carved.
pub open spec fn all_cells() -> Seq<bool> {
    Seq::new(NUM_CELLS as nat, |i: int| true)
}

impl State {
    /// The player vectors have one slot per player, every pose lies inside
    /// the grid with a reduced angle, and the bullet collection is within
    /// capacity and holds only well-formed bullets.
    pub open spec fn players_wf(self) -> bool {
        &&& self.player_x@.len() == NUM_PLAYERS
        &&& self.player_y@.len() == NUM_PLAYERS
        &&& self.player_angle@.len() == NUM_PLAYERS
        &&& self.player_ammo@.len() == NUM_PLAYERS
        &&& self.player_life@.len() == NUM_PLAYERS
        &&& self.player_view@.len() == NUM_PLAYERS
        &&& forall|p: int|
            0 <= p < NUM_PLAYERS ==> (#[trigger] self.player_ammo@[p])@.len()
                == BULLETS_PER_PLAYER
        &&& forall|p: int| 0 <= p < NUM_PLAYERS ==> 0 < #[trigger] self.player_x@[p] < GRID_W_FX
        &&& forall|p: int| 0 <= p < NUM_PLAYERS ==> 0 < #[trigger] self.player_y@[p] < GRID_H_FX
        &&& forall|p: int|
            0 <= p < NUM_PLAYERS ==> 0 <= #[trigger] self.player_angle@[p] < TAU_FX
        &&& self.bullets@.len() <= NUM_BULLETS
        &&& forall|b: int| 0 <= b < self.bullets@.len() ==> bullet_wf(#[trigger] self.bullets@[b])
    }

    /// The passage list is a spanning tree of the grid, and the wall
    /// bitmasks are its exact complement.
    pub open spec fn maze_wf(self) -> bool {
        &&& self.passages@.len() == NUM_CELLS - 1
        &&& passages_wf(self.passages@, all_cells(), WIDTH as int, HEIGHT as int)
        &&& forall|c: int| 0 <= c < NUM_CELLS ==> reaches(self.passages@, c, 0)
        &&& self.horizontal_walls@.len() == HEIGHT + 1
        &&& self.vertical_walls@.len() == WIDTH + 1
        &&& forall|r: int, c: int|
            0 <= r <= HEIGHT && 0 <= c < WIDTH ==> #[trigger] spec_wall_bit(
                self.horizontal_walls@[r],
                c,
            ) == spec_h_wall(self.passages@, r, c, WIDTH as int, HEIGHT as int)
        &&& forall|cl: int, rr: int|
            0 <= cl <= WIDTH && 0 <= rr < HEIGHT ==> #[trigger] spec_wall_bit(
                self.vertical_walls@[cl],
                rr,
            ) == spec_v_wall(self.passages@, cl, rr, WIDTH as int, HEIGHT as int)
    }

    /// A fully set-up session.
    pub open spec fn wf(self) -> bool {
        self.players_wf() && self.maze_wf()
    }

    /// Builds the fixed spawn configuration: players in the four corner
    /// cells facing inward, full life and ammo, first-person view, no
    /// bullets, and an empty maze awaiting `generate_maze`.
    pub fn new() -> (s: State)
        ensures
            s.players_wf(),
            s.player_x@ =~= seq![32768i64, 819200i64, 32768i64, 819200i64],
            s.player_y@ =~= seq![32768i64, 32768i64, 819200i64, 819200i64],
            s.player_angle@ =~= seq![49152i64, 147456i64, 245760i64, 344064i64],
            forall|p: int, a: int|
                0 <= p < NUM_PLAYERS && 0 <= a < BULLETS_PER_PLAYER ==> #[trigger] s.player_ammo@[p]@[a]
                    == Ammo::Loaded,
            forall|p: int| 0 <= p < NUM_PLAYERS ==> #[trigger] s.player_life@[p] == START_LIFE,
            forall|p: int|
                0 <= p < NUM_PLAYERS ==> #[trigger] s.player_view@[p] == ViewMode::FirstPerson,
            s.bullets@.len() == 0,
            s.events@.len() == 0,
            s.passages@.len() == 0,
            s.horizontal_walls@.len() == 0,
            s.vertical_walls@.len() == 0,
            s.seed == 0,
    {
        let mut player_x: Vec<i64> = Vec::new();
        player_x.push(32768);
        player_x.push(819200);
        player_x.push(32768);
        player_x.push(819200);
        let mut player_y: Vec<i64> = Vec::new();
        player_y.push(32768);
        player_y.push(32768);
        player_y.push(819200);
        player_y.push(819200);
        let mut player_angle: Vec<i64> = Vec::new();
        player_angle.push(49152);
        player_angle.push(147456);
        player_angle.push(245760);
        player_angle.push(344064);
        let mut player_ammo: Vec<Vec<Ammo>> = Vec::new();
        let mut p: usize = 0;
        while p < NUM_PLAYERS
            invariant
                p <= NUM_PLAYERS,
                player_ammo@.len() == p,
                forall|q: int|
                    0 <= q < p ==> (#[trigger] player_ammo@[q])@ =~= seq![
                        Ammo::Loaded,
                        Ammo::Loaded,
                        Ammo::Loaded,
                    ],
            decreases NUM_PLAYERS - p,
        {
            let mut slots: Vec<Ammo> = Vec::new();
            slots.push(Ammo::Loaded);
            slots.push(Ammo::Loaded);
            slots.push(Ammo::Loaded);
            proof {
                assert(slots@ =~= seq![Ammo::Loaded, Ammo::Loaded, Ammo::Loaded]);
            }
            player_ammo.push(slots);
            p += 1;
        }
        let mut player_life: Vec<i32> = Vec::new();
        player_life.push(START_LIFE);
        player_life.push(START_LIFE);
        player_life.push(START_LIFE);
        player_life.push(START_LIFE);
        let mut player_view: Vec<ViewMode> = Vec::new();
        player_view.push(ViewMode::FirstPerson);
        player_view.push(ViewMode::FirstPerson);
        player_view.push(ViewMode::FirstPerson);
        player_view.push(ViewMode::FirstPerson);
        let s = State {
            player_x,
            player_y,
            player_angle,
            player_ammo,
            player_life,
            player_view,
            bullets: Vec::new(),
            events: Vec::new(),
            passages: Vec::new(),
            horizontal_walls: Vec::new(),
            vertical_walls: Vec::new(),
            seed: 0,
        };
        proof {
            assert(s.player_x@ =~= seq![32768i64, 819200i64, 32768i64, 819200i64]);
            assert(s.player_y@ =~= seq![32768i64, 32768i64, 819200i64, 819200i64]);
            assert(s.player_angle@ =~= seq![49152i64, 147456i64, 245760i64, 344064i64]);
        }
        s
    }

    /// Carves a random spanning-tree maze from cell 0 with the session
    /// generator, derives the wall bitmasks from it, and draws the next
    /// session seed.  Players and bullets are untouched.
    #[verifier::rlimit(50)]
    pub fn generate_maze(&mut self, rng: &mut rand::rngs::SmallRng)
        ensures
            final(self).maze_wf(),
            final(self).player_x == old(self).player_x,
            final(self).player_y == old(self).player_y,
            final(self).player_angle == old(self).player_angle,
            final(self).player_ammo == old(self).player_ammo,
            final(self).player_life == old(self).player_life,
            final(self).player_view == old(self).player_view,
            final(self).bullets == old(self).bullets,
            final(self).events == old(self).events,
    {
        let mut visited: Vec<bool> = Vec::new();
        let mut c: usize = 0;
        while c < NUM_CELLS
            invariant
                c <= NUM_CELLS,
                visited@.len() == c,
                forall|j: int| 0 <= j < c ==> !(#[trigger] visited@[j]),
            decreases NUM_CELLS - c,
        {
            visited.push(false);
            c += 1;
        }
        self.passages.clear();
        proof {
            assert(NUM_CELLS == WIDTH * HEIGHT);
            lemma_count_none(visited@, NUM_CELLS as int);
            lemma_count_none(visited@.update(0, true), 0);
            assert(passages_wf(
                self.passages@,
                visited@.update(0, true),
                WIDTH as int,
                HEIGHT as int,
            ));
        }
        let ghost vpre = visited@;
        find_next_passage(0, WIDTH, HEIGHT, &mut visited, &mut self.passages, rng);
        proof {
            let vfin = visited@;
            let ps = self.passages@;
            let w = WIDTH as int;
            let h = HEIGHT as int;
            assert(vfin[0]);
            assert forall|cc: int, n: int|
                0 <= cc < w * h && vfin[cc] && 0 <= n < w * h && spec_adjacent(
                    cc,
                    n,
                    w,
                    h,
                ) implies vfin[n] by {
                assert(!vpre[cc]);
            }
            lemma_closure_full(vfin, w, h);
            lemma_count_full(vfin, NUM_CELLS as int);
            assert(ps.len() == NUM_CELLS - 1);
            assert forall|k: int| 0 <= k < ps.len() implies passage_entry_ok(
                #[trigger] ps[k],
                all_cells(),
                w,
                h,
            ) by {
                assert(passage_entry_ok(ps[k], vfin, w, h));
            }
            assert(passages_wf(ps, all_cells(), w, h));
            assert forall|cc: int| 0 <= cc < NUM_CELLS implies reaches(ps, cc, 0) by {
                assert(vfin[cc] && !vpre[cc]);
            }
        }
        find_walls(
            WIDTH,
            HEIGHT,
            &self.passages,
            &mut self.horizontal_walls,
            &mut self.vertical_walls,
        );
        self.seed = rng_next_u64(rng);
    }
}

/// How far one tick moves a player: enemies walk at 65% of a human step.
pub open spec fn spec_step_size(pidx: int) -> int {
    if pidx > 0 {
        ENEMY_STEP_FX as int
    } else {
        STEP_FX as int
    }
}

/// The tentative x coordinate after applying forward and backward intents.
pub open spec fn spec_move_x(x: int, ang: int, up: bool, down: bool, step: int) -> int {
    let dx = spec_mul_fx(spec_cos_fx(ang), step);
    let x1 = if up {
        x + dx
    } else {
        x
    };
    if down {
        x1 - dx
    } else {
        x1
    }
}

/// The tentative y coordinate after applying forward and backward intents;
/// the screen's y axis grows downward, so sine enters negated.
pub open spec fn spec_move_y(y: int, ang: int, up: bool, down: bool, step: int) -> int {
    let dy = spec_mul_fx(-spec_sin_fx(ang), step);
    let y1 = if up {
        y + dy
    } else {
        y
    };
    if down {
        y1 - dy
    } else {
        y1
    }
}

/// The facing angle after applying the turn intents, before reduction.
pub open spec fn spec_turn(ang: int, left: bool, right: bool, step: int) -> int {
    let a1 = if right {
        ang - step
    } else {
        ang
    };
    if left {
        a1 + step
    } else {
        a1
    }
}

/// Whether a point lies strictly inside the maze.
pub open spec fn spec_in_grid(x: int, y: int) -> bool {
    0 < x < GRID_W_FX && 0 < y < GRID_H_FX
}

/// Whether a tentative move from `(x, y)` to `(nx, ny)` is applied: it must
/// stay inside the grid, and a change of cell must follow a passage.
pub open spec fn spec_move_allowed(
    ps: Seq<(usize, usize)>,
    x: int,
    y: int,
    nx: int,
    ny: int,
) -> bool {
    &&& spec_in_grid(nx, ny)
    &&& {
        let prev = spec_cell_index(x, y, WIDTH as int);
        let cur = spec_cell_index(nx, ny, WIDTH as int);
        prev == cur || spec_has_passage(ps, prev, cur)
    }
}

impl State {
    /// Applies one player's movement and turn intents: the turn always
    /// lands (reduced into one turn), the translation is applied only when
    /// `spec_move_allowed` holds and is rolled back whole otherwise.
    pub fn update_player(&mut self, pidx: usize, up: bool, down: bool, left: bool, right: bool)
        requires
            old(self).players_wf(),
            pidx < NUM_PLAYERS,
        ensures
            final(self).players_wf(),
            final(self).player_angle@ == old(self).player_angle@.update(
                pidx as int,
                (spec_turn(
                    old(self).player_angle@[pidx as int] as int,
                    left,
                    right,
                    spec_step_size(pidx as int),
                ) % (TAU_FX as int)) as i64,
            ),
            ({
                let x = old(self).player_x@[pidx as int] as int;
                let y = old(self).player_y@[pidx as int] as int;
                let ang = old(self).player_angle@[pidx as int] as int;
                let step = spec_step_size(pidx as int);
                let nx = spec_move_x(x, ang, up, down, step);
                let ny = spec_move_y(y, ang, up, down, step);
                if spec_move_allowed(old(self).passages@, x, y, nx, ny) {
                    final(self).player_x@ == old(self).player_x@.update(pidx as int, nx as i64)
                        && final(self).player_y@ == old(self).player_y@.update(
                        pidx as int,
                        ny as i64,
                    )
                } else {
                    final(self).player_x@ == old(self).player_x@ && final(self).player_y@ == old(
                    self).player_y@
                }
            }),
            final(self).player_ammo == old(self).player_ammo,
            final(self).player_life == old(self).player_life,
            final(self).player_view == old(self).player_view,
            final(self).bullets == old(self).bullets,
            final(self).events == old(self).events,
            final(self).passages == old(self).passages,
            final(self).horizontal_walls == old(self).horizontal_walls,
            final(self).vertical_walls == old(self).vertical_walls,
            final(self).seed == old(self).seed,
    {
        let x = self.player_x[pidx];
        let y = self.player_y[pidx];
        let ang = self.player_angle[pidx];
        let step: i64 = if pidx > 0 {
            ENEMY_STEP_FX
        } else {
            STEP_FX
        };

        let c = cos_fx(ang);
        let s = sin_fx(ang);
        let dx = mul_fx(c, step);
        let dy = mul_fx(-s, step);
        proof {
            assert(spec_abs(c as int) * spec_abs(step as int) <= 65536 * 2949)
                by (nonlinear_arith)
                requires
                    -65536 <= c <= 65536,
                    0 < step <= 2949,
            ;
            assert(spec_abs(-s as int) * spec_abs(step as int) <= 65536 * 2949)
                by (nonlinear_arith)
                requires
                    -65536 <= s <= 65536,
                    0 < step <= 2949,
            ;
            assert(-2949 <= dx <= 2949);
            assert(-2949 <= dy <= 2949);
        }

        let mut nx = x;
        let mut ny = y;
        if up {
            nx = nx + dx;
            ny = ny + dy;
        }
        if down {
            nx = nx - dx;
            ny = ny - dy;
        }
        let mut na = ang;
        if right {
            na = na - step;
        }
        if left {
            na = na + step;
        }
        let nar = reduce_angle(na);
        self.player_angle[pidx] = nar;

        let allowed: bool = if nx <= 0 || ny <= 0 || nx >= GRID_W_FX || ny >= GRID_H_FX {
            false
        } else {
            let prev = get_index(x, y, WIDTH, HEIGHT);
            let cur = get_index(nx, ny, WIDTH, HEIGHT);
            prev == cur || !there_is_no_passage_here(prev, cur, &self.passages)
        };
        if allowed {
            self.player_x[pidx] = nx;
            self.player_y[pidx] = ny;
        }
    }

    /// Swaps a player's screen between the corridor view and the map.
    pub fn update_view(&mut self, pidx: usize, toggle_view: bool)
        requires
            old(self).players_wf(),
            pidx < NUM_PLAYERS,
        ensures
            final(self).players_wf(),
            final(self).player_view@ == (if toggle_view {
                old(self).player_view@.update(
                    pidx as int,
                    (if old(self).player_view@[pidx as int] == ViewMode::FirstPerson {
                        ViewMode::TopDown
                    } else {
                        ViewMode::FirstPerson
                    }),
                )
            } else {
                old(self).player_view@
            }),
            final(self).player_x == old(self).player_x,
            final(self).player_y == old(self).player_y,
            final(self).player_angle == old(self).player_angle,
            final(self).player_ammo == old(self).player_ammo,
            final(self).player_life == old(self).player_life,
            final(self).bullets == old(self).bullets,
            final(self).events == old(self).events,
            final(self).passages == old(self).passages,
            final(self).horizontal_walls == old(self).horizontal_walls,
            final(self).vertical_walls == old(self).vertical_walls,
            final(self).seed == old(self).seed,
    {
        if toggle_view {
            let cur = self.player_view[pidx];
            self.player_view[pidx] = match cur {
                ViewMode::FirstPerson => ViewMode::TopDown,
                ViewMode::TopDown => ViewMode::FirstPerson,
            };
        } else {
            proof {
                assert(self.player_view@ =~= old(self).player_view@);
            }
        }
    }
}

/// Whether `result` is the angle `angle + j`, reduced into one turn; the
/// shape a fired bullet's heading takes for jitter `j`.
pub open spec fn spec_jittered(angle: int, j: int, result: int) -> bool {
    result == (angle + j) % (TAU_FX as int)
}

/// The first slot from `i` on that is loaded, or -1.
pub open spec fn spec_first_loaded(a: Seq<Ammo>, i: int) -> int
    decreases a.len() - i,
{
    if i < 0 || i >= a.len() {
        -1
    } else if a[i] == Ammo::Loaded {
        i
    } else {
        spec_first_loaded(a, i + 1)
    }
}

/// The first slot from `i` on that is not loaded, or -1.
pub open spec fn spec_first_not_loaded(a: Seq<Ammo>, i: int) -> int
    decreases a.len() - i,
{
    if i < 0 || i >= a.len() {
        -1
    } else if a[i] != Ammo::Loaded {
        i
    } else {
        spec_first_not_loaded(a, i + 1)
    }
}

/// A fire intent consumes the first loaded slot, setting it reloading at
/// full duration; with no loaded slot the intent is dropped.
pub open spec fn spec_fire_phase(a: Seq<Ammo>, shoot: bool) -> Seq<Ammo> {
    let fl = spec_first_loaded(a, 0);
    if shoot && fl >= 0 {
        a.update(fl, Ammo::Reloading(RELOAD_TIME))
    } else {
        a
    }
}

/// The earliest-queued reloading slot counts down one tick; at zero it
/// becomes loaded.
pub open spec fn spec_reload_phase(a: Seq<Ammo>) -> Seq<Ammo> {
    let fr = spec_first_not_loaded(a, 0);
    if fr >= 0 {
        match a[fr] {
            Ammo::Reloading(t) => a.update(
                fr,
                if t > 0 {
                    Ammo::Reloading((t - 1) as u8)
                } else {
                    Ammo::Loaded
                },
            ),
            _ => a,
        }
    } else {
        a
    }
}

/// The tone and diagnostic events one player's ammo phase emits: a fire
/// tone on a successful shot (followed by a dropped-shot diagnostic when
/// the bullet collection is full), an empty diagnostic for a fire intent
/// with no loaded slot, and a reload tone when a slot completes.
pub open spec fn spec_ammo_events(a: Seq<Ammo>, shoot: bool, nbullets: int) -> Seq<GameEvent> {
    let fire_part = if spec_fired(a, shoot) {
        if nbullets < NUM_BULLETS {
            seq![GameEvent::FireTone]
        } else {
            seq![GameEvent::FireTone, GameEvent::ShotDropped]
        }
    } else if shoot {
        seq![GameEvent::AmmoEmpty]
    } else {
        Seq::<GameEvent>::empty()
    };
    let mid = spec_fire_phase(a, shoot);
    let fr = spec_first_not_loaded(mid, 0);
    let reload_part = if fr >= 0 && mid[fr] == Ammo::Reloading(0) {
        seq![GameEvent::ReloadTone]
    } else {
        Seq::<GameEvent>::empty()
    };
    fire_part + reload_part
}

/// Whether a fire intent actually fires: a loaded slot must exist.
pub open spec fn spec_fired(a: Seq<Ammo>, shoot: bool) -> bool {
    shoot && spec_first_loaded(a, 0) >= 0
}

/// Every event one tick emits, in player order: each living player's
/// ammo-phase events, fed the bullet count as earlier fires grew it.
pub open spec fn spec_tick_events(s: State, p1_shoot: bool) -> Seq<GameEvent> {
    let b0 = s.bullets@.len() as int;
    let f2 = spec_distance(s.player_y@[0] - s.player_y@[1], s.player_x@[0] - s.player_x@[1])
        <= AI_FIRE_RANGE_FX;
    let f3 = spec_distance(s.player_y@[0] - s.player_y@[2], s.player_x@[0] - s.player_x@[2])
        <= AI_FIRE_RANGE_FX;
    let f4 = spec_distance(s.player_y@[0] - s.player_y@[3], s.player_x@[0] - s.player_x@[3])
        <= AI_FIRE_RANGE_FX;
    let e0 = if s.player_life@[0] > 0 {
        spec_ammo_events(s.player_ammo@[0]@, p1_shoot, b0)
    } else {
        Seq::<GameEvent>::empty()
    };
    let b1 = b0 + if s.player_life@[0] > 0 {
        spec_fire_inc(s.player_ammo@[0]@, p1_shoot, b0)
    } else {
        0int
    };
    let e1 = if s.player_life@[1] > 0 {
        spec_ammo_events(s.player_ammo@[1]@, f2, b1)
    } else {
        Seq::<GameEvent>::empty()
    };
    let b2 = b1 + if s.player_life@[1] > 0 {
        spec_fire_inc(s.player_ammo@[1]@, f2, b1)
    } else {
        0int
    };
    let e2 = if s.player_life@[2] > 0 {
        spec_ammo_events(s.player_ammo@[2]@, f3, b2)
    } else {
        Seq::<GameEvent>::empty()
    };
    let b3 = b2 + if s.player_life@[2] > 0 {
        spec_fire_inc(s.player_ammo@[2]@, f3, b2)
    } else {
        0int
    };
    let e3 = if s.player_life@[3] > 0 {
        spec_ammo_events(s.player_ammo@[3]@, f4, b3)
    } else {
        Seq::<GameEvent>::empty()
    };
    e0 + e1 + e2 + e3
}

/// How many bullets one player's ammo phase adds to the collection.
pub open spec fn spec_fire_inc(a: Seq<Ammo>, shoot: bool, nbullets: int) -> int {
    if spec_fired(a, shoot) && nbullets < NUM_BULLETS {
        1
    } else {
        0
    }
}

/// Searching from 0 equals searching from `i` when no slot before `i`
/// is loaded.
proof fn lemma_first_loaded_from(a: Seq<Ammo>, i: int)
    requires
        0 <= i <= a.len(),
        forall|t: int| 0 <= t < i ==> a[t] != Ammo::Loaded,
    ensures
        spec_first_loaded(a, 0) == spec_first_loaded(a, i),
    decreases i,
{
    if i > 0 {
        assert(spec_first_loaded(a, i - 1) == spec_first_loaded(a, i));
        lemma_first_loaded_from(a, i - 1);
    }
}

/// Searching from 0 equals searching from `i` when every slot before `i`
/// is loaded.
proof fn lemma_first_not_loaded_from(a: Seq<Ammo>, i: int)
    requires
        0 <= i <= a.len(),
        forall|t: int| 0 <= t < i ==> a[t] == Ammo::Loaded,
    ensures
        spec_first_not_loaded(a, 0) == spec_first_not_loaded(a, i),
    decreases i,
{
    if i > 0 {
        assert(spec_first_not_loaded(a, i - 1) == spec_first_not_loaded(a, i));
        lemma_first_not_loaded_from(a, i - 1);
    }
}

impl State {
    /// Fires a bullet when asked and a loaded slot exists (spawning it at
    /// the shooter's pose with a small random angular jitter, unless the
    /// bullet collection is full, in which case the shot is dropped), and
    /// counts the earliest reloading slot down one tick.  Appends the
    /// phase's tone and diagnostic events for the host.
    #[verifier::loop_isolation(false)]
    pub fn update_ammo(&mut self, pidx: usize, shoot: bool)
        requires
            old(self).players_wf(),
            pidx < NUM_PLAYERS,
        ensures
            final(self).players_wf(),
            final(self).player_ammo@.len() == NUM_PLAYERS,
            final(self).player_ammo@[pidx as int]@ == spec_reload_phase(
                spec_fire_phase(old(self).player_ammo@[pidx as int]@, shoot),
            ),
            forall|p: int|
                0 <= p < NUM_PLAYERS && p != pidx ==> final(self).player_ammo@[p] == old(
                self).player_ammo@[p],
            (if spec_fired(old(self).player_ammo@[pidx as int]@, shoot) {
                if old(self).bullets@.len() < NUM_BULLETS {
                    final(self).bullets@.len() == old(self).bullets@.len() + 1 && final(
                    self).bullets@.subrange(0, old(self).bullets@.len() as int) == old(
                    self).bullets@ && {
                        let b = final(self).bullets@.last();
                        b.owner == pidx && b.x == old(self).player_x@[pidx as int] && b.y == old(
                        self).player_y@[pidx as int] && b.inflight && exists|j: int|
                            -JITTER_HALF_FX <= j <= JITTER_HALF_FX && #[trigger] spec_jittered(
                                old(self).player_angle@[pidx as int] as int,
                                j,
                                b.angle as int,
                            )
                    }
                } else {
                    final(self).bullets == old(self).bullets
                }
            } else {
                final(self).bullets == old(self).bullets && final(self).seed == old(self).seed
            }),
            final(self).events@ == old(self).events@ + spec_ammo_events(
                old(self).player_ammo@[pidx as int]@,
                shoot,
                old(self).bullets@.len() as int,
            ),
            final(self).bullets@.len() == old(self).bullets@.len() + spec_fire_inc(
                old(self).player_ammo@[pidx as int]@,
                shoot,
                old(self).bullets@.len() as int,
            ),
            final(self).player_x == old(self).player_x,
            final(self).player_y == old(self).player_y,
            final(self).player_angle == old(self).player_angle,
            final(self).player_life == old(self).player_life,
            final(self).player_view == old(self).player_view,
            final(self).passages == old(self).passages,
            final(self).horizontal_walls == old(self).horizontal_walls,
            final(self).vertical_walls == old(self).vertical_walls,
    {
        let ghost a0 = self.player_ammo@[pidx as int]@;
        let num_slots = self.player_ammo[pidx].len();

        // Fire: find the first loaded slot.
        if shoot {
            let mut i: usize = 0;
            let mut fire_slot: usize = num_slots;
            while i < num_slots && fire_slot == num_slots
                invariant
                    num_slots == BULLETS_PER_PLAYER,
                    i <= num_slots,
                    fire_slot <= num_slots,
                    self == old(self),
                    a0 == self.player_ammo@[pidx as int]@,
                    fire_slot == num_slots ==> forall|t: int| 0 <= t < i ==> a0[t]
                        != Ammo::Loaded,
                    fire_slot < num_slots ==> spec_first_loaded(a0, 0) == fire_slot,
                decreases
                        num_slots - i,
                        (if fire_slot == num_slots {
                            1int
                        } else {
                            0int
                        }),
            {
                if self.player_ammo[pidx][i] == Ammo::Loaded {
                    fire_slot = i;
                    proof {
                        lemma_first_loaded_from(a0, i as int);
                    }
                } else {
                    i += 1;
                }
            }
            proof {
                if fire_slot == num_slots {
                    lemma_first_loaded_from(a0, num_slots as int);
                }
            }
            if fire_slot < num_slots {
                self.player_ammo[pidx][fire_slot] = Ammo::Reloading(RELOAD_TIME);
                proof {
                    assert(self.player_ammo@[pidx as int]@ =~= a0.update(
                        fire_slot as int,
                        Ammo::Reloading(RELOAD_TIME),
                    ));
                }
                self.events.push(GameEvent::FireTone);
                let mut rng = crate::rng::rng_from_seed(self.seed);
                self.seed = rng_next_u64(&mut rng);
                let draw = crate::rng::rng_next_u32(&mut rng);
                let jitter: i64 = ((draw % 6555) as i64) - JITTER_HALF_FX;
                let angle = reduce_angle(self.player_angle[pidx] + jitter);
                if self.bullets.len() < NUM_BULLETS {
                    let b = Bullet::new(
                        self.player_x[pidx],
                        self.player_y[pidx],
                        pidx,
                        angle,
                        true,
                    );
                    self.bullets.push(b);
                    proof {
                        assert(self.bullets@.subrange(0, old(self).bullets@.len() as int)
                            =~= old(self).bullets@);
                        assert(spec_jittered(
                            old(self).player_angle@[pidx as int] as int,
                            jitter as int,
                            b.angle as int,
                        ));
                        assert(self.bullets@.last() == b);
                        assert(bullet_wf(b));
                        assert forall|t: int| 0 <= t < self.bullets@.len() implies bullet_wf(
                            #[trigger] self.bullets@[t],
                        ) by {
                            if t < old(self).bullets@.len() {
                                assert(self.bullets@[t] == old(self).bullets@[t]);
                            }
                        }
                    }
                } else {
                    self.events.push(GameEvent::ShotDropped);
                }
            } else {
                self.events.push(GameEvent::AmmoEmpty);
            }
        }

        // Reload: find the first slot that is not loaded and count it down.
        let ghost a1 = self.player_ammo@[pidx as int]@;
        proof {
            assert(a1 =~= spec_fire_phase(a0, shoot));
        }
        let mut i: usize = 0;
        let mut reload_slot: usize = num_slots;
        while i < num_slots && reload_slot == num_slots
            invariant
                num_slots == BULLETS_PER_PLAYER,
                i <= num_slots,
                reload_slot <= num_slots,
                self.player_ammo@.len() == NUM_PLAYERS,
                pidx < NUM_PLAYERS,
                a1 == self.player_ammo@[pidx as int]@,
                a1.len() == BULLETS_PER_PLAYER,
                reload_slot == num_slots ==> forall|t: int| 0 <= t < i ==> a1[t] == Ammo::Loaded,
                reload_slot < num_slots ==> spec_first_not_loaded(a1, 0) == reload_slot,
            decreases
                    num_slots - i,
                    (if reload_slot == num_slots {
                        1int
                    } else {
                        0int
                    }),
        {
            if self.player_ammo[pidx][i] != Ammo::Loaded {
                reload_slot = i;
                proof {
                    lemma_first_not_loaded_from(a1, i as int);
                }
            } else {
                i += 1;
            }
        }
        proof {
            if reload_slot == num_slots {
                lemma_first_not_loaded_from(a1, num_slots as int);
            }
        }
        if reload_slot < num_slots {
            let slot = self.player_ammo[pidx][reload_slot];
            match slot {
                Ammo::Reloading(t) => {
                    if t > 0 {
                        self.player_ammo[pidx][reload_slot] = Ammo::Reloading(t - 1);
                        proof {
                            assert(self.player_ammo@[pidx as int]@ =~= a1.update(
                                reload_slot as int,
                                Ammo::Reloading((t - 1) as u8),
                            ));
                        }
                    } else {
                        self.player_ammo[pidx][reload_slot] = Ammo::Loaded;
                        self.events.push(GameEvent::ReloadTone);
                        proof {
                            assert(self.player_ammo@[pidx as int]@ =~= a1.update(
                                reload_slot as int,
                                Ammo::Loaded,
                            ));
                        }
                    }
                },
                _ => {},
            }
        }
        proof {
            assert(self.player_ammo@[pidx as int]@ =~= spec_reload_phase(a1));
            assert(self.events@ =~= old(self).events@ + spec_ammo_events(
                a0,
                shoot,
                old(self).bullets@.len() as int,
            ));
        }
    }
}

/// Where one tick's flight takes a bullet: a fixed step along its heading.
pub open spec fn spec_bullet_moved(b: Bullet) -> Bullet {
    Bullet {
        x: (b.x + spec_mul_fx(spec_cos_fx(b.angle as int), BULLET_SPEED_FX as int)) as i64,
        y: (b.y + spec_mul_fx(-spec_sin_fx(b.angle as int), BULLET_SPEED_FX as int)) as i64,
        owner: b.owner,
        angle: b.angle,
        inflight: b.inflight,
    }
}

/// Whether the moved bullet `b1` (flown from `b0`) scores on player `p`:
/// same cell, not the owner, and within the angular hit window, which
/// narrows as the target is seen edge-on from the shooter.
pub open spec fn spec_bullet_hits(
    b0: Bullet,
    b1: Bullet,
    p: int,
    px: Seq<i64>,
    py: Seq<i64>,
    pang: Seq<i64>,
) -> bool {
    &&& p != b0.owner
    &&& spec_cell_index(px[p] as int, py[p] as int, WIDTH as int) == spec_cell_index(
        b1.x as int,
        b1.y as int,
        WIDTH as int,
    )
    &&& {
        let rise = py[p] - py[b0.owner as int];
        let run = px[p] - px[b0.owner as int];
        let angle_to = -spec_atan2_fx(rise, run);
        let rel = pang[p] - angle_to;
        let striking = spec_mul_fx(PLAYER_WIDTH_FX as int, spec_abs(spec_cos_fx(rel)));
        let sep = spec_distance(b1.x - px[p], b1.y - py[p]);
        sep <= striking
    }
}

/// The bullets still in flight after the tick, among those from index `i`
/// on: each moves one step, dies on a wall or grid exit, dies on any hit,
/// and survivors keep their order.
pub open spec fn spec_bullets_left(
    bs: Seq<Bullet>,
    i: int,
    ps: Seq<(usize, usize)>,
    px: Seq<i64>,
    py: Seq<i64>,
    pang: Seq<i64>,
) -> Seq<Bullet>
    decreases bs.len() - i,
{
    if i < 0 || i >= bs.len() {
        Seq::empty()
    } else {
        let b1 = spec_bullet_moved(bs[i]);
        let rest = spec_bullets_left(bs, i + 1, ps, px, py, pang);
        if spec_move_allowed(ps, bs[i].x as int, bs[i].y as int, b1.x as int, b1.y as int) && !(
        exists|p: int| 0 <= p < NUM_PLAYERS && spec_bullet_hits(bs[i], b1, p, px, py, pang)) {
            seq![b1] + rest
        } else {
            rest
        }
    }
}

/// Hits player `p` takes from the bullets from index `i` on.
pub open spec fn spec_hits_on(
    bs: Seq<Bullet>,
    i: int,
    p: int,
    ps: Seq<(usize, usize)>,
    px: Seq<i64>,
    py: Seq<i64>,
    pang: Seq<i64>,
) -> int
    decreases bs.len() - i,
{
    if i < 0 || i >= bs.len() {
        0
    } else {
        let b1 = spec_bullet_moved(bs[i]);
        let rest = spec_hits_on(bs, i + 1, p, ps, px, py, pang);
        if spec_move_allowed(ps, bs[i].x as int, bs[i].y as int, b1.x as int, b1.y as int)
            && spec_bullet_hits(bs[i], b1, p, px, py, pang) {
            rest + 1
        } else {
            rest
        }
    }
}

/// A hit count is never negative.
pub proof fn lemma_hits_on_nonneg(
    bs: Seq<Bullet>,
    i: int,
    p: int,
    ps: Seq<(usize, usize)>,
    px: Seq<i64>,
    py: Seq<i64>,
    pang: Seq<i64>,
)
    ensures
        spec_hits_on(bs, i, p, ps, px, py, pang) >= 0,
    decreases bs.len() - i,
{
    if 0 <= i < bs.len() {
        lemma_hits_on_nonneg(bs, i + 1, p, ps, px, py, pang);
    }
}

/// A life total after `n` hits, saturating at the type's floor.
pub open spec fn spec_sat_dec(l: int, n: int) -> int {
    if l - n < i32::MIN {
        i32::MIN as int
    } else {
        l - n
    }
}

impl State {
    /// Tests one moved bullet against every player in its cell and takes a
    /// life from each player it strikes; reports whether anyone was hit.
    #[verifier::loop_isolation(false)]
    fn apply_bullet_hits(&mut self, b0: Bullet, nx: i64, ny: i64) -> (hit_any: bool)
        requires
            old(self).players_wf(),
            b0.owner < NUM_PLAYERS,
            spec_in_grid(nx as int, ny as int),
        ensures
            final(self).players_wf(),
            final(self).player_life@.len() == NUM_PLAYERS,
            ({
                let b1 = Bullet {
                    x: nx,
                    y: ny,
                    owner: b0.owner,
                    angle: b0.angle,
                    inflight: b0.inflight,
                };
                &&& forall|q: int|
                    0 <= q < NUM_PLAYERS ==> final(self).player_life@[q] == (
                    if spec_bullet_hits(
                        b0,
                        b1,
                        q,
                        old(self).player_x@,
                        old(self).player_y@,
                        old(self).player_angle@,
                    ) {
                        spec_sat_dec(old(self).player_life@[q] as int, 1)
                    } else {
                        old(self).player_life@[q] as int
                    })
                &&& hit_any == exists|q: int|
                    0 <= q < NUM_PLAYERS && spec_bullet_hits(
                        b0,
                        b1,
                        q,
                        old(self).player_x@,
                        old(self).player_y@,
                        old(self).player_angle@,
                    )
            }),
            final(self).player_x == old(self).player_x,
            final(self).player_y == old(self).player_y,
            final(self).player_angle == old(self).player_angle,
            final(self).player_ammo == old(self).player_ammo,
            final(self).player_view == old(self).player_view,
            final(self).bullets == old(self).bullets,
            final(self).events == old(self).events,
            final(self).passages == old(self).passages,
            final(self).horizontal_walls == old(self).horizontal_walls,
            final(self).vertical_walls == old(self).vertical_walls,
            final(self).seed == old(self).seed,
    {
        let ghost b1g = Bullet { x: nx, y: ny, owner: b0.owner, angle: b0.angle, inflight: b0.inflight };
        let ghost px0 = self.player_x@;
        let ghost py0 = self.player_y@;
        let ghost pang0 = self.player_angle@;
        let ghost life_pre = self.player_life@;
        let mut hit_any = false;
        let cur = get_index(nx, ny, WIDTH, HEIGHT);
        let mut p: usize = 0;
        while p < NUM_PLAYERS
            invariant
                p <= NUM_PLAYERS,
                self.player_life@.len() == NUM_PLAYERS,
                self.player_x == old(self).player_x,
                self.player_y == old(self).player_y,
                self.player_angle == old(self).player_angle,
                self.player_ammo == old(self).player_ammo,
                self.player_view == old(self).player_view,
                self.bullets == old(self).bullets,
                self.events == old(self).events,
                self.passages == old(self).passages,
                self.horizontal_walls == old(self).horizontal_walls,
                self.vertical_walls == old(self).vertical_walls,
                self.seed == old(self).seed,
                forall|q: int|
                    0 <= q < NUM_PLAYERS && q >= p ==> self.player_life@[q] == life_pre[q],
                forall|q: int|
                    0 <= q < p ==> self.player_life@[q] == (
                    if spec_bullet_hits(b0, b1g, q, px0, py0, pang0) {
                        spec_sat_dec(life_pre[q] as int, 1)
                    } else {
                        life_pre[q] as int
                    }),
                hit_any == exists|q: int|
                    0 <= q < p && spec_bullet_hits(b0, b1g, q, px0, py0, pang0),
            decreases NUM_PLAYERS - p,
        {
            if p != b0.owner {
                let pi = get_index(self.player_x[p], self.player_y[p], WIDTH, HEIGHT);
                if pi == cur {
                    let rise = self.player_y[p] - self.player_y[b0.owner];
                    let run = self.player_x[p] - self.player_x[b0.owner];
                    let angle_to = -crate::fixed::atan2_fx(rise, run);
                    let rel = self.player_angle[p] - angle_to;
                    let ccos = cos_fx(rel);
                    let striking = mul_fx(
                        PLAYER_WIDTH_FX,
                        if ccos < 0 {
                            -ccos
                        } else {
                            ccos
                        },
                    );
                    let sep = crate::util::distance(nx - self.player_x[p], ny - self.player_y[p]);
                    if sep <= striking {
                        let lv = self.player_life[p];
                        if lv > i32::MIN {
                            self.player_life[p] = lv - 1;
                        }
                        hit_any = true;
                        proof {
                            assert(spec_bullet_hits(b0, b1g, p as int, px0, py0, pang0));
                        }
                    } else {
                        proof {
                            assert(!spec_bullet_hits(b0, b1g, p as int, px0, py0, pang0));
                        }
                    }
                }
            }
            p += 1;
        }
        hit_any
    }

    /// Advances every bullet one step along its heading, clears those that
    /// leave the grid, cross a wall, or score a hit (decrementing each hit
    /// player's life), and rebuilds the collection from the survivors.
    #[verifier::loop_isolation(false)]
    #[verifier::rlimit(100)]
    pub fn update_bullets(&mut self)
        requires
            old(self).players_wf(),
        ensures
            final(self).players_wf(),
            final(self).bullets@ == spec_bullets_left(
                old(self).bullets@,
                0,
                old(self).passages@,
                old(self).player_x@,
                old(self).player_y@,
                old(self).player_angle@,
            ),
            final(self).player_life@.len() == NUM_PLAYERS,
            forall|p: int|
                0 <= p < NUM_PLAYERS ==> final(self).player_life@[p] == spec_sat_dec(
                    old(self).player_life@[p] as int,
                    spec_hits_on(
                        old(self).bullets@,
                        0,
                        p,
                        old(self).passages@,
                        old(self).player_x@,
                        old(self).player_y@,
                        old(self).player_angle@,
                    ),
                ),
            final(self).player_x == old(self).player_x,
            final(self).player_y == old(self).player_y,
            final(self).player_angle == old(self).player_angle,
            final(self).player_ammo == old(self).player_ammo,
            final(self).player_view == old(self).player_view,
            final(self).events == old(self).events,
            final(self).passages == old(self).passages,
            final(self).horizontal_walls == old(self).horizontal_walls,
            final(self).vertical_walls == old(self).vertical_walls,
            final(self).seed == old(self).seed,
    {
        let ghost bs0 = self.bullets@;
        let ghost ps0 = self.passages@;
        let ghost px0 = self.player_x@;
        let ghost py0 = self.player_y@;
        let ghost pang0 = self.player_angle@;
        let ghost l0 = self.player_life@;

        let mut kept: Vec<Bullet> = Vec::new();
        let n = self.bullets.len();
        proof {
            assert forall|q: int| 0 <= q < NUM_PLAYERS implies spec_hits_on(
                bs0,
                0,
                q,
                ps0,
                px0,
                py0,
                pang0,
            ) >= 0 by {
                lemma_hits_on_nonneg(bs0, 0, q, ps0, px0, py0, pang0);
            }
        }
        let mut i: usize = 0;
        while i < n
            invariant
                i <= n,
                n == bs0.len(),
                self.bullets == old(self).bullets,
                self.passages == old(self).passages,
                self.player_x == old(self).player_x,
                self.player_y == old(self).player_y,
                self.player_angle == old(self).player_angle,
                self.player_ammo == old(self).player_ammo,
                self.player_view == old(self).player_view,
                self.events == old(self).events,
                self.horizontal_walls == old(self).horizontal_walls,
                self.vertical_walls == old(self).vertical_walls,
                self.seed == old(self).seed,
                self.player_life@.len() == NUM_PLAYERS,
                kept@.len() <= i,
                forall|t: int| 0 <= t < kept@.len() ==> bullet_wf(#[trigger] kept@[t]),
                kept@ + spec_bullets_left(bs0, i as int, ps0, px0, py0, pang0)
                    == spec_bullets_left(bs0, 0, ps0, px0, py0, pang0),
                forall|q: int|
                    0 <= q < NUM_PLAYERS ==> self.player_life@[q] == spec_sat_dec(
                        l0[q] as int,
                        spec_hits_on(bs0, 0, q, ps0, px0, py0, pang0) - spec_hits_on(
                            bs0,
                            i as int,
                            q,
                            ps0,
                            px0,
                            py0,
                            pang0,
                        ),
                    ),
            decreases n - i,
        {
            let b = self.bullets[i];
            let ghost b1g = spec_bullet_moved(bs0[i as int]);
            let c = cos_fx(b.angle);
            let s = sin_fx(b.angle);
            let dx = mul_fx(c, BULLET_SPEED_FX);
            let dy = mul_fx(-s, BULLET_SPEED_FX);
            proof {
                assert(spec_abs(c as int) * spec_abs(BULLET_SPEED_FX as int) <= 65536 * 655)
                    by (nonlinear_arith)
                    requires
                        -65536 <= c <= 65536,
                ;
                assert(spec_abs(-s as int) * spec_abs(BULLET_SPEED_FX as int) <= 65536 * 655)
                    by (nonlinear_arith)
                    requires
                        -65536 <= s <= 65536,
                ;
                assert(-655 <= dx <= 655 && -655 <= dy <= 655);
            }
            let nx = b.x + dx;
            let ny = b.y + dy;
            proof {
                assert(b1g.x == nx && b1g.y == ny);
            }
            let alive: bool = if nx <= 0 || ny <= 0 || nx >= GRID_W_FX || ny >= GRID_H_FX {
                false
            } else {
                let prev = get_index(b.x, b.y, WIDTH, HEIGHT);
                let cur = get_index(nx, ny, WIDTH, HEIGHT);
                prev == cur || !there_is_no_passage_here(prev, cur, &self.passages)
            };
            proof {
                assert(alive == spec_move_allowed(
                    ps0,
                    bs0[i as int].x as int,
                    bs0[i as int].y as int,
                    b1g.x as int,
                    b1g.y as int,
                ));
            }

            let mut hit_any = false;
            if alive {
                proof {
                    assert(b1g == (Bullet {
                        x: nx,
                        y: ny,
                        owner: b.owner,
                        angle: b.angle,
                        inflight: b.inflight,
                    }));
                }
                hit_any = self.apply_bullet_hits(b, nx, ny);
            }

            if alive && !hit_any {
                kept.push(Bullet::new(nx, ny, b.owner, b.angle, true));
            }
            i += 1;
            proof {
                let iprev = i as int - 1;
                let left_prev = spec_bullets_left(bs0, iprev, ps0, px0, py0, pang0);
                let left_cur = spec_bullets_left(bs0, i as int, ps0, px0, py0, pang0);
                let whole = spec_bullets_left(bs0, 0, ps0, px0, py0, pang0);
                if alive && !hit_any {
                    assert(left_prev == seq![b1g] + left_cur);
                    assert(kept@ + left_cur =~= whole);
                } else {
                    if alive {
                        assert(exists|q: int|
                            0 <= q < NUM_PLAYERS && spec_bullet_hits(
                                bs0[iprev],
                                b1g,
                                q,
                                px0,
                                py0,
                                pang0,
                            ));
                    }
                    assert(left_prev == left_cur);
                }
                assert forall|q: int| 0 <= q < NUM_PLAYERS implies self.player_life@[q]
                    == spec_sat_dec(
                    l0[q] as int,
                    spec_hits_on(bs0, 0, q, ps0, px0, py0, pang0) - spec_hits_on(
                        bs0,
                        i as int,
                        q,
                        ps0,
                        px0,
                        py0,
                        pang0,
                    ),
                ) by {
                    let h0 = spec_hits_on(bs0, 0, q, ps0, px0, py0, pang0);
                    let hprev = spec_hits_on(bs0, iprev, q, ps0, px0, py0, pang0);
                    let hcur = spec_hits_on(bs0, i as int, q, ps0, px0, py0, pang0);
                    lemma_hits_on_nonneg(bs0, i as int, q, ps0, px0, py0, pang0);
                    if alive && spec_bullet_hits(bs0[iprev], b1g, q, px0, py0, pang0) {
                        assert(hprev == hcur + 1);
                    } else {
                        assert(hprev == hcur);
                    }
                }
            }
        }
        proof {
            assert(spec_bullets_left(bs0, n as int, ps0, px0, py0, pang0) =~= Seq::<
                Bullet,
            >::empty());
            assert(kept@ + spec_bullets_left(bs0, n as int, ps0, px0, py0, pang0) =~= kept@);
            assert(kept@ == spec_bullets_left(bs0, 0, ps0, px0, py0, pang0));
            assert forall|q: int| 0 <= q < NUM_PLAYERS implies spec_hits_on(
                bs0,
                n as int,
                q,
                ps0,
                px0,
                py0,
                pang0,
            ) == 0 by {}
        }
        self.bullets = kept;
    }
}

/// Expands one popped search node: carves it, collects and shuffles its
/// uncarved passage-neighbors, extends or rewinds the spine, and pushes
/// the neighbors for later visits.  The contract carries the search
/// invariants across one step and shrinks the search measure.
#[verifier::rlimit(100)]
fn expand_node(
    node: usize,
    start: usize,
    end: usize,
    width: usize,
    height: usize,
    passages: &Vec<(usize, usize)>,
    visited: &mut Vec<bool>,
    paths: &mut Vec<usize>,
    stack: &mut Vec<usize>,
    checkpoint: &mut usize,
    still_looking: &mut bool,
    rng: &mut rand::rngs::SmallRng,
    Ghost(spre): Ghost<Seq<usize>>,
)
    requires
        0 < width <= 256,
        0 < height <= 256,
        start < width * height,
        end < width * height,
        node < width * height,
        spec_passages_in_grid(passages@, width as int, height as int),
        old(visited)@.len() == width * height,
        *old(still_looking),
        *old(checkpoint) < width * height,
        spre.len() >= 1,
        spre[spre.len() - 1] == node,
        old(stack)@ == spre.subrange(0, spre.len() - 1),
        forall|t: int| 0 <= t < spre.len() ==> (#[trigger] spre[t]) < width * height,
        forall|t: int| 0 <= t < old(paths)@.len() ==> (#[trigger] old(paths)@[t]) < width * height,
        forall|t: int|
            0 <= t < spre.len() ==> reaches(passages@, start as int, (#[trigger] spre[t]) as int),
        forall|cc: int|
            0 <= cc < width * height && old(visited)@[cc] ==> reaches(
                passages@,
                start as int,
                cc,
            ),
        old(visited)@[start as int] || (spre =~= seq![start] && forall|j: int|
            0 <= j < width * height ==> !(#[trigger] old(visited)@[j])),
        start != end ==> !old(visited)@[end as int],
        forall|v: int, n: int|
            0 <= v < width * height && old(visited)@[v] && 0 <= n < width * height && !old(
            visited)@[n] && #[trigger] spec_has_passage(passages@, v, n) ==> spre.contains(
                n as usize,
            ),
        start == end ==> spre =~= seq![start] && old(paths)@.len() == 0,
    ensures
        final(visited)@.len() == width * height,
        forall|c: int|
            0 <= c < width * height ==> (old(visited)@[c] ==> final(visited)@[c]),
        final(visited)@[node as int],
        *final(checkpoint) < width * height,
        forall|t: int| 0 <= t < final(stack)@.len() ==> (#[trigger] final(stack)@[t]) < width
            * height,
        forall|t: int| 0 <= t < final(paths)@.len() ==> (#[trigger] final(paths)@[t]) < width
            * height,
        forall|t: int|
            0 <= t < final(stack)@.len() ==> reaches(
                passages@,
                start as int,
                (#[trigger] final(stack)@[t]) as int,
            ),
        forall|cc: int|
            0 <= cc < width * height && final(visited)@[cc] ==> reaches(
                passages@,
                start as int,
                cc,
            ),
        *final(still_looking) && start != end ==> !final(visited)@[end as int],
        *final(still_looking) ==> forall|v: int, n: int|
            0 <= v < width * height && final(visited)@[v] && 0 <= n < width * height
                && !final(visited)@[n] && #[trigger] spec_has_passage(passages@, v, n)
                ==> final(stack)@.contains(n as usize),
        !*final(still_looking) ==> final(paths)@.len() >= 1
            && final(paths)@[final(paths)@.len() - 1] == end && final(visited)@[end as int],
        start == end ==> !*final(still_looking) && final(paths)@ =~= seq![start],
        5 * ((width * height) - count_true(final(visited)@, (width * height) as int))
            + final(stack)@.len() < 5 * ((width * height) - count_true(
            old(visited)@,
            (width * height) as int,
        )) + spre.len(),
{
    let ghost ps = passages@;
    let ghost num = (width * height) as int;
    let ghost spost = stack@;
    proof {
        lemma_count_bounds(visited@, num);
        assert(width * height <= 65536) by (nonlinear_arith)
            requires
                0 < width <= 256,
                0 < height <= 256,
        ;
    }
    let num_cells = width * height;
    let ghost v_before = visited@;
    let was_carved = visited[node];
    visited[node] = true;
    proof {
        if !was_carved {
            lemma_count_update(v_before, node as int, num);
        } else {
            assert(visited@ =~= v_before);
        }
    }
    let nb = find_neighbors(node, width, height);
    let mut potential: Vec<usize> = Vec::new();
    let mut j: usize = 0;
    while j < 4
    invariant
    j <= 4,
    num_cells == width * height,
    ps == passages@,
    node < num_cells,
    visited@.len() == num_cells,
    potential@.len() <= j,
    forall|t: int|
    0 <= t < 4 && nb@[t].is_some() ==> (#[trigger] nb@[t]).unwrap()
    < num_cells,
    forall|t: int|
    0 <= t < potential@.len() ==> (#[trigger] potential@[t]) < num_cells
    && !visited@[potential@[t] as int] && spec_has_passage(
        ps,
        node as int,
        potential@[t] as int,
    ),
    forall|t: int|
    0 <= t < j && nb@[t].is_some() ==> visited@[(
            #[trigger] nb@[t]).unwrap() as int] || !spec_has_passage(
        ps,
        node as int,
        nb@[t].unwrap() as int,
    ) || potential@.contains(nb@[t].unwrap()),
    decreases 4 - j,
    {
        match nb[j] {
            Some(n) => {
                if !visited[n] && !there_is_no_passage_here(node, n, passages) {
                    let ghost po = potential@;
                    potential.push(n);
                    proof {
                        assert forall|t: int|
                        0 <= t < j && nb@[t].is_some() && !visited@[(
                                #[trigger] nb@[t]).unwrap() as int] && spec_has_passage(
                            ps,
                            node as int,
                            nb@[t].unwrap() as int,
                        ) implies potential@.contains(nb@[t].unwrap()) by {
                            let e = nb@[t].unwrap();
                            assert(po.contains(e));
                            let s = choose|s: int| 0 <= s < po.len() && po[s] == e;
                            assert(potential@[s] == e);
                        }
                        assert(potential@[potential@.len() - 1] == n);
                    }
                }
            },
            None => {},
        }
        j += 1;
    }
    let ghost pot0 = potential@;
    crate::rng::shuffle_cells(rng, &mut potential);
    proof {
        pot0.to_multiset_ensures();
        potential@.to_multiset_ensures();
        assert forall|t: int| 0 <= t < potential@.len() implies (
            #[trigger] potential@[t]) < num_cells && !visited@[potential@[t] as int]
        && spec_has_passage(ps, node as int, potential@[t] as int) by {
            let e = potential@[t];
            assert(potential@.contains(e));
            assert(pot0.to_multiset().count(e) > 0);
            assert(pot0.contains(e));
        }
        assert forall|e: usize| pot0.contains(e) implies potential@.contains(e) by {
            assert(pot0.to_multiset().count(e) > 0);
        }
    }

    if node == end {
        paths.push(node);
        *still_looking = false;
    } else if potential.len() > 1 {
        *checkpoint = node;
        paths.push(node);
    } else if potential.len() == 0 {
        let mut rewound = false;
        while paths.len() > 0 && !rewound
        invariant
        num_cells == width * height,
        *checkpoint < num_cells,
        forall|t: int| 0 <= t < paths@.len() ==> (#[trigger] paths@[t]) < num_cells,
        decreases
        paths@.len(),
        (if rewound {
                0int
            } else {
                1int
        }),
        {
            let p = paths.pop().unwrap();
            if p == *checkpoint {
                paths.push(*checkpoint);
                rewound = true;
            }
        }
    } else {
        paths.push(node);
    }

    if !was_carved {
        let mut t: usize = 0;
        while t < potential.len()
        invariant
        t <= potential@.len(),
        num_cells == width * height,
        num == num_cells,
        ps == passages@,
        node < num_cells,
        visited@.len() == num,
        visited@[node as int],
        forall|cc: int|
        0 <= cc < num && visited@[cc] ==> reaches(ps, start as int, cc),
        forall|u: int|
        0 <= u < potential@.len() ==> (#[trigger] potential@[u]) < num_cells
        && spec_has_passage(ps, node as int, potential@[u] as int),
        forall|u: int| 0 <= u < stack@.len() ==> (#[trigger] stack@[u]) < num_cells,
        stack@.len() <= spost.len() + t,
        forall|e: usize| #[trigger] spost.contains(e) ==> stack@.contains(e),
        forall|u: int| 0 <= u < t ==> stack@.contains(#[trigger] potential@[u]),
        forall|u: int|
        0 <= u < stack@.len() ==> reaches(
            ps,
            start as int,
            (#[trigger] stack@[u]) as int,
        ),
        decreases potential@.len() - t,
        {
            let ghost st0 = stack@;
            stack.push(potential[t]);
            proof {
                assert forall|e: usize| #[trigger] spost.contains(e) implies stack@.contains(
                    e,
                ) by {
                    assert(st0.contains(e));
                    let s = choose|s: int| 0 <= s < st0.len() && st0[s] == e;
                    assert(stack@[s] == e);
                }
                assert forall|u: int| 0 <= u < t + 1 implies stack@.contains(
                    #[trigger] potential@[u],
                ) by {
                    if u < t {
                        assert(st0.contains(potential@[u]));
                        let s = choose|s: int|
                        0 <= s < st0.len() && st0[s] == potential@[u];
                        assert(stack@[s] == potential@[u]);
                    } else {
                        assert(stack@[stack@.len() - 1] == potential@[u]);
                    }
                }
                assert(reaches(ps, start as int, node as int)) by {
                    assert(visited@[node as int]);
                }
                lemma_reaches_extend(
                    ps,
                    start as int,
                    node as int,
                    potential@[t as int] as int,
                );
            }
            t += 1;
        }
    }

    proof {
        // the carved set's frontier is still covered by the stack
        if *still_looking {
            assert forall|n: int|
            0 <= n < num && !visited@[n] && #[trigger] spec_has_passage(
                ps,
                node as int,
                n,
            ) implies potential@.contains(n as usize) by {
                lemma_passage_is_neighbor(ps, node as int, n, width as int, height as int);
                if n == node as int + width {
                    assert(nb@[0] == Some((node + width) as usize));
                } else if n == node as int - width {
                    assert(nb@[1] == Some((node - width) as usize));
                } else if n == node as int - 1 {
                    assert(nb@[2] == Some((node - 1) as usize));
                } else {
                    assert(nb@[3] == Some((node + 1) as usize));
                }
                assert(pot0.contains(n as usize));
            }
            lemma_frontier_covered(
                ps,
                num,
                node,
                v_before,
                visited@,
                potential@,
                spre,
                spost,
                stack@,
                was_carved,
            );
        }
    }
    proof {
        if start == end {
            assert(node == start && !*still_looking);
            assert(paths@ =~= seq![start]);
        }
        lemma_count_bounds(visited@, num);
    }

}

/// After carving `node`, pushing its uncarved passage-neighbors keeps the
/// frontier covered: every carved cell's uncarved passage-neighbor is
/// still waiting in the stack.
proof fn lemma_frontier_covered(
    ps: Seq<(usize, usize)>,
    num: int,
    node: usize,
    v_before: Seq<bool>,
    visited: Seq<bool>,
    potential: Seq<usize>,
    spre: Seq<usize>,
    spost: Seq<usize>,
    stack: Seq<usize>,
    was_carved: bool,
)
    requires
        node < num,
        v_before.len() == num,
        visited == v_before.update(node as int, true),
        spre.len() >= 1,
        spre[spre.len() - 1] == node,
        spost == spre.subrange(0, spre.len() - 1),
        was_carved == v_before[node as int],
        // every uncarved passage-neighbor of the carved cell is collected
        forall|n: int|
            0 <= n < num && !visited[n] && #[trigger] spec_has_passage(ps, node as int, n)
                ==> potential.contains(n as usize),
        // the frontier was covered before this pop
        forall|v: int, n: int|
            0 <= v < num && v_before[v] && 0 <= n < num && !v_before[n]
                && #[trigger] spec_has_passage(ps, v, n) ==> spre.contains(n as usize),
        // what the push phase left in the stack
        forall|e: usize| #[trigger] spost.contains(e) ==> stack.contains(e),
        !was_carved ==> forall|u: int|
            0 <= u < potential.len() ==> stack.contains(#[trigger] potential[u]),
        was_carved ==> stack == spost,
    ensures
        forall|v: int, n: int|
            0 <= v < num && visited[v] && 0 <= n < num && !visited[n]
                && #[trigger] spec_has_passage(ps, v, n) ==> stack.contains(n as usize),
{
    assert forall|v: int, n: int|
        0 <= v < num && visited[v] && 0 <= n < num && !visited[n] && #[trigger] spec_has_passage(
            ps,
            v,
            n,
        ) implies stack.contains(n as usize) by {
        assert(n != node as int);
        assert(!v_before[n]);
        if v == node as int && !was_carved {
            assert(potential.contains(n as usize));
            let u = choose|u: int| 0 <= u < potential.len() && potential[u] == n as usize;
            assert(stack.contains(potential[u]));
        } else {
            assert(v_before[v]);
            assert(spre.contains(n as usize));
            let s = choose|s: int| 0 <= s < spre.len() && spre[s] == n as usize;
            assert(s < spre.len() - 1);
            assert(spost[s] == n as usize);
            assert(spost.contains(n as usize));
        }
    }
}

/// Searches the passage graph depth-first from `start` toward `end` with
/// randomized neighbor order, then prunes the recorded spine to a chain of
/// passage-connected cells.  When `end` is reachable through the passages
/// the chain ends at `end`; when it is not (or when `start` is `end`) the
/// chain degenerates to the single cell `start` and the caller idles.
#[verifier::rlimit(100)]
pub fn find_path(
    start: usize,
    end: usize,
    width: usize,
    height: usize,
    passages: &Vec<(usize, usize)>,
    rng: &mut rand::rngs::SmallRng,
) -> (path: Vec<usize>)
    requires
        0 < width <= 256,
        0 < height <= 256,
        start < width * height,
        end < width * height,
        spec_passages_in_grid(passages@, width as int, height as int),
    ensures
        path@.len() >= 1,
        forall|t: int| 0 <= t < path@.len() ==> (#[trigger] path@[t]) < width * height,
        forall|t: int|
            0 <= t < path@.len() - 1 ==> spec_has_passage(
                passages@,
                #[trigger] path@[t] as int,
                path@[t + 1] as int,
            ),
        start == end ==> path@ =~= seq![start],
        reaches(passages@, start as int, end as int) ==> path@[path@.len() - 1] == end,
        !reaches(passages@, start as int, end as int) ==> path@ =~= seq![start],
{
    let ghost ps = passages@;
    let ghost num = (width * height) as int;
    proof {
        assert(width * height <= 65536) by (nonlinear_arith)
            requires
                0 < width <= 256,
                0 < height <= 256,
        ;
    }
    let num_cells = width * height;
    let mut visited: Vec<bool> = Vec::new();
    let mut c: usize = 0;
    while c < num_cells
        invariant
            c <= num_cells,
            visited@.len() == c,
            forall|j: int| 0 <= j < c ==> !(#[trigger] visited@[j]),
        decreases num_cells - c,
    {
        visited.push(false);
        c += 1;
    }

    let mut stack: Vec<usize> = Vec::new();
    let mut paths: Vec<usize> = Vec::new();
    stack.push(start);
    let mut still_looking = true;
    let mut checkpoint = start;
    proof {
        lemma_count_none(visited@, num);
        lemma_reaches_refl(ps, start as int);
        assert(stack@ =~= seq![start]);
    }

    while stack.len() > 0
        invariant
            0 < width <= 256,
            0 < height <= 256,
            num == width * height,
            num_cells == width * height,
            num_cells <= 65536,
            start < num_cells,
            end < num_cells,
            ps == passages@,
            spec_passages_in_grid(ps, width as int, height as int),
            visited@.len() == num,
            checkpoint < num_cells,
            forall|t: int| 0 <= t < stack@.len() ==> (#[trigger] stack@[t]) < num_cells,
            forall|t: int| 0 <= t < paths@.len() ==> (#[trigger] paths@[t]) < num_cells,
            // only cells that a passage path reaches from the start enter play
            forall|t: int|
                0 <= t < stack@.len() ==> reaches(ps, start as int, (#[trigger] stack@[t]) as int),
            forall|cc: int| 0 <= cc < num && visited@[cc] ==> reaches(ps, start as int, cc),
            // while searching, the start is carved first, the goal is
            // untouched, and every carved cell's uncarved passage-neighbors
            // wait in the stack
            still_looking ==> visited@[start as int] || (stack@ =~= seq![start] && forall|j: int|
                0 <= j < num ==> !(#[trigger] visited@[j])),
            still_looking && start != end ==> !visited@[end as int],
            still_looking ==> forall|v: int, n: int|
                0 <= v < num && visited@[v] && 0 <= n < num && !visited@[n]
                    && #[trigger] spec_has_passage(ps, v, n) ==> stack@.contains(n as usize),
            // the recorded spine ends at the goal once the search stops
            !still_looking ==> paths@.len() >= 1 && paths@[paths@.len() - 1] == end
                && visited@[end as int],
            start == end && still_looking ==> stack@ =~= seq![start] && paths@.len() == 0,
            start == end && !still_looking ==> paths@ =~= seq![start],
        decreases 5 * (num - count_true(visited@, num)) + stack@.len(),
    {
        proof {
            lemma_count_bounds(visited@, num);
        }
        let ghost spre = stack@;
        let node = stack.pop().unwrap();
        let ghost spost = stack@;
        proof {
            assert(node == spre[spre.len() - 1]);
            assert(spost == spre.subrange(0, spre.len() - 1));
        }
        if still_looking {
            expand_node(
                node,
                start,
                end,
                width,
                height,
                passages,
                &mut visited,
                &mut paths,
                &mut stack,
                &mut checkpoint,
                &mut still_looking,
                rng,
                Ghost(spre),
            );
            proof {
                lemma_count_bounds(visited@, num);
            }
        } else {
            proof {
                assert forall|t: int| 0 <= t < stack@.len() implies (#[trigger] stack@[t])
                    < num_cells && reaches(ps, start as int, stack@[t] as int) by {
                    assert(stack@[t] == spre[t]);
                }
            }
        }
    }

    if still_looking {
        // The goal was never reached: the carved region is closed under
        // passages and excludes the goal, so no passage path links them.
        // Degenerate to the searcher's own cell, as tolerated.
        proof {
            assert(visited@[start as int]);
            if reaches(ps, start as int, end as int) {
                let p = choose|p: Seq<int>| crate::maze::is_path(ps, p, start as int, end as int);
                lemma_path_closure(ps, visited@, width as int, height as int, p);
                assert(false);
            }
        }
        let mut degenerate: Vec<usize> = Vec::new();
        degenerate.push(start);
        proof {
            assert(degenerate@ =~= seq![start]);
        }
        return degenerate;
    }

    // Compress the spine: walk it backward keeping only cells that are
    // passage-connected to the previously kept cell.
    let ghost spine = paths@;
    let mut pruned: Vec<usize> = Vec::new();
    let mut last: usize = paths.pop().unwrap();
    pruned.push(last);
    proof {
        assert(last == end);
        assert(reaches(ps, start as int, end as int)) by {
            assert(visited@[end as int]);
        }
    }
    while paths.len() > 0
        invariant
            num_cells == width * height,
            ps == passages@,
            pruned@.len() >= 1,
            pruned@.len() + paths@.len() <= spine.len(),
            pruned@[0] == last,
            pruned@[pruned@.len() - 1] == end,
            last < num_cells,
            forall|t: int| 0 <= t < paths@.len() ==> (#[trigger] paths@[t]) < num_cells,
            forall|t: int| 0 <= t < pruned@.len() ==> (#[trigger] pruned@[t]) < num_cells,
            forall|t: int|
                0 <= t < pruned@.len() - 1 ==> spec_has_passage(
                    ps,
                    #[trigger] pruned@[t] as int,
                    pruned@[t + 1] as int,
                ),
        decreases paths@.len(),
    {
        let node = paths.pop().unwrap();
        if !there_is_no_passage_here(last, node, passages) {
            let ghost pr0 = pruned@;
            pruned.insert(0, node);
            proof {
                assert(pruned@[0] == node);
                assert(pruned@[pruned@.len() - 1] == pr0[pr0.len() - 1]);
                assert forall|t: int| 0 <= t < pruned@.len() - 1 implies spec_has_passage(
                    ps,
                    #[trigger] pruned@[t] as int,
                    pruned@[t + 1] as int,
                ) by {
                    if t >= 1 {
                        assert(pruned@[t] == pr0[t - 1] && pruned@[t + 1] == pr0[t]);
                    } else {
                        assert(pruned@[1] == pr0[0] && pr0[0] == last);
                    }
                }
            }
            last = node;
        }
    }
    proof {
        if start == end {
            assert(spine =~= seq![start]);
            assert(pruned@ =~= seq![start]);
        }
    }
    pruned
}

/// The steering decision toward a cell's center, as a spec value: turn
/// left or right while the unwrapped bearing error exceeds the threshold,
/// walk forward once aligned, or stand still within a tight distance of
/// the center; the fire intent rides along in every branch.
pub open spec fn spec_steer(x: int, y: int, facing: int, t: int, fire: bool) -> (
    bool,
    bool,
    bool,
    bool,
    bool,
    bool,
) {
    let center = spec_cell_center(t, WIDTH as int);
    let rise = center.1 - y;
    let run = center.0 - x;
    let target_angle = -spec_atan2_fx(rise, run);
    let diff = spec_unwrap(target_angle, facing) - facing;
    if spec_abs(diff) <= AI_ANGLE_EPS_FX {
        if spec_distance(rise, run) < AI_NEAR_FX {
            (false, false, false, false, fire, false)
        } else {
            (true, false, false, false, fire, false)
        }
    } else if diff > AI_ANGLE_EPS_FX {
        (false, false, true, false, fire, false)
    } else {
        (false, false, false, true, fire, false)
    }
}

/// Steers an enemy from its pose toward the center of a target cell,
/// carrying the given fire intent.
fn steer(x: i64, y: i64, facing: i64, target_index: usize, fire: bool) -> (intents: (
    bool,
    bool,
    bool,
    bool,
    bool,
    bool,
))
    requires
        spec_in_grid(x as int, y as int),
        0 <= facing < TAU_FX,
        target_index < NUM_CELLS,
    ensures
        intents == spec_steer(x as int, y as int, facing as int, target_index as int, fire),
{
    let center = get_center_from_index(target_index, WIDTH, HEIGHT);
    let rise = center.1 - y;
    let run = center.0 - x;
    let target_angle = -crate::fixed::atan2_fx(rise, run);

    let unwrapped = crate::fixed::unwrap_angle(target_angle, facing);
    let angle_diff = unwrapped - facing;

    let adiff_abs = if angle_diff < 0 {
        -angle_diff
    } else {
        angle_diff
    };
    if adiff_abs <= AI_ANGLE_EPS_FX {
        let target_distance = crate::util::distance(rise, run);
        if target_distance < AI_NEAR_FX {
            (false, false, false, false, fire, false)
        } else {
            (true, false, false, false, fire, false)
        }
    } else if angle_diff > AI_ANGLE_EPS_FX {
        (false, false, true, false, fire, false)
    } else {
        (false, false, false, true, fire, false)
    }
}

impl State {
    /// Decides one enemy's intents for this tick: re-derives a path to the
    /// human player and steers toward the next cell of the pruned path (or
    /// its own cell when the path degenerates).  The fire intent is
    /// asserted exactly when the human player is within firing range,
    /// independent of line of sight or heading.  Only the session seed
    /// changes.
    pub fn update_enemy(&mut self, pid: usize) -> (intents: (bool, bool, bool, bool, bool, bool))
        requires
            old(self).players_wf(),
            spec_passages_in_grid(old(self).passages@, WIDTH as int, HEIGHT as int),
            2 <= pid <= NUM_PLAYERS,
        ensures
            final(self).players_wf(),
            final(self).player_x == old(self).player_x,
            final(self).player_y == old(self).player_y,
            final(self).player_angle == old(self).player_angle,
            final(self).player_ammo == old(self).player_ammo,
            final(self).player_life == old(self).player_life,
            final(self).player_view == old(self).player_view,
            final(self).bullets == old(self).bullets,
            final(self).events == old(self).events,
            final(self).passages == old(self).passages,
            final(self).horizontal_walls == old(self).horizontal_walls,
            final(self).vertical_walls == old(self).vertical_walls,
            ({
                let fire = spec_distance(
                    old(self).player_y@[0] - old(self).player_y@[pid - 1],
                    old(self).player_x@[0] - old(self).player_x@[pid - 1],
                ) <= AI_FIRE_RANGE_FX;
                &&& intents.4 == fire
                &&& exists|t: int|
                    0 <= t < NUM_CELLS && intents == #[trigger] spec_steer(
                        old(self).player_x@[pid - 1] as int,
                        old(self).player_y@[pid - 1] as int,
                        old(self).player_angle@[pid - 1] as int,
                        t,
                        fire,
                    )
            }),
    {
        let idx = pid - 1;
        let mut rng = crate::rng::rng_from_seed(self.seed);
        self.seed = rng_next_u64(&mut rng);

        let enemy_index = get_index(self.player_x[idx], self.player_y[idx], WIDTH, HEIGHT);
        let player_index = get_index(self.player_x[0], self.player_y[0], WIDTH, HEIGHT);

        let pruned = find_path(enemy_index, player_index, WIDTH, HEIGHT, &self.passages, &mut rng);
        let target_index: usize = if pruned.len() > 1 {
            pruned[1]
        } else {
            enemy_index
        };

        let distance_to_player = crate::util::distance(
            self.player_y[0] - self.player_y[idx],
            self.player_x[0] - self.player_x[idx],
        );
        let fire = distance_to_player <= AI_FIRE_RANGE_FX;

        let intents = steer(
            self.player_x[idx],
            self.player_y[idx],
            self.player_angle[idx],
            target_index,
            fire,
        );
        proof {
            assert(intents == spec_steer(
                old(self).player_x@[idx as int] as int,
                old(self).player_y@[idx as int] as int,
                old(self).player_angle@[idx as int] as int,
                target_index as int,
                fire,
            ));
        }
        intents
    }

    /// Applies one living player's intents for the tick: movement with
    /// rollback, the ammo machine with its possible shot, and the view
    /// toggle.  An eliminated player is left entirely untouched.
    pub fn update_living_player(
        &mut self,
        pidx: usize,
        up: bool,
        down: bool,
        left: bool,
        right: bool,
        shoot: bool,
        toggle_view: bool,
    )
        requires
            old(self).players_wf(),
            pidx < NUM_PLAYERS,
        ensures
            final(self).players_wf(),
            final(self).passages == old(self).passages,
            final(self).horizontal_walls == old(self).horizontal_walls,
            final(self).vertical_walls == old(self).vertical_walls,
            final(self).player_life == old(self).player_life,
            forall|q: int|
                0 <= q < NUM_PLAYERS && q != pidx ==> final(self).player_x@[q] == old(
                self).player_x@[q] && final(self).player_y@[q] == old(self).player_y@[q] && final(
                self).player_angle@[q] == old(self).player_angle@[q] && final(
                self).player_view@[q] == old(self).player_view@[q] && final(self).player_ammo@[q]
                == old(self).player_ammo@[q],
            old(self).player_life@[pidx as int] <= 0 ==> final(self).player_x == old(
            self).player_x && final(self).player_y == old(self).player_y && final(
            self).player_angle == old(self).player_angle && final(self).player_ammo == old(
            self).player_ammo && final(self).player_view == old(self).player_view && final(
            self).bullets == old(self).bullets && final(self).events == old(self).events
                && final(self).seed == old(self).seed,
            final(self).events@ == old(self).events@ + (if old(self).player_life@[pidx as int]
                > 0 {
                spec_ammo_events(
                    old(self).player_ammo@[pidx as int]@,
                    shoot,
                    old(self).bullets@.len() as int,
                )
            } else {
                Seq::<GameEvent>::empty()
            }),
            final(self).bullets@.len() == old(self).bullets@.len() + (if old(
            self).player_life@[pidx as int] > 0 {
                spec_fire_inc(
                    old(self).player_ammo@[pidx as int]@,
                    shoot,
                    old(self).bullets@.len() as int,
                )
            } else {
                0int
            }),
            old(self).player_life@[pidx as int] > 0 ==> ({
                let x = old(self).player_x@[pidx as int] as int;
                let y = old(self).player_y@[pidx as int] as int;
                let ang = old(self).player_angle@[pidx as int] as int;
                let step = spec_step_size(pidx as int);
                let nx = spec_move_x(x, ang, up, down, step);
                let ny = spec_move_y(y, ang, up, down, step);
                &&& final(self).player_angle@[pidx as int] == spec_turn(ang, left, right, step)
                    % (TAU_FX as int)
                &&& (if spec_move_allowed(old(self).passages@, x, y, nx, ny) {
                    final(self).player_x@[pidx as int] == nx && final(self).player_y@[pidx as int]
                        == ny
                } else {
                    final(self).player_x@[pidx as int] == x && final(self).player_y@[pidx as int]
                        == y
                })
                &&& final(self).player_ammo@[pidx as int]@ == spec_reload_phase(
                    spec_fire_phase(old(self).player_ammo@[pidx as int]@, shoot),
                )
                &&& final(self).player_view@[pidx as int] == (if toggle_view {
                    if old(self).player_view@[pidx as int] == ViewMode::FirstPerson {
                        ViewMode::TopDown
                    } else {
                        ViewMode::FirstPerson
                    }
                } else {
                    old(self).player_view@[pidx as int]
                })
            }),
    {
        if self.player_life[pidx] > 0 {
            self.update_player(pidx, up, down, left, right);
            self.update_ammo(pidx, shoot);
            self.update_view(pidx, toggle_view);
        } else {
            proof {
                assert(self.events@ =~= old(self).events@ + Seq::<GameEvent>::empty());
            }
        }
    }

    /// Advances the session one tick: the enemy players decide their
    /// intents, every living player applies movement, fire and view
    /// intents in player order, and the bullets fly.  The maze never
    /// changes; no player's life ever rises; an eliminated player is not
    /// advanced at all; while the human player lives, their pose, ammo
    /// and view answer exactly to the passed intents; and the event list
    /// is rebuilt with exactly this tick's tones and diagnostics.
    pub fn update(
        &mut self,
        p1_up: bool,
        p1_down: bool,
        p1_left: bool,
        p1_right: bool,
        p1_shoot: bool,
        p1_toggle_view: bool,
    )
        requires
            old(self).wf(),
        ensures
            final(self).wf(),
            final(self).passages == old(self).passages,
            final(self).horizontal_walls == old(self).horizontal_walls,
            final(self).vertical_walls == old(self).vertical_walls,
            final(self).player_life@.len() == NUM_PLAYERS,
            forall|p: int|
                0 <= p < NUM_PLAYERS ==> final(self).player_life@[p] <= old(
                self).player_life@[p],
            old(self).player_life@[0] > 0 ==> {
                let x = old(self).player_x@[0] as int;
                let y = old(self).player_y@[0] as int;
                let ang = old(self).player_angle@[0] as int;
                let nx = spec_move_x(x, ang, p1_up, p1_down, STEP_FX as int);
                let ny = spec_move_y(y, ang, p1_up, p1_down, STEP_FX as int);
                &&& final(self).player_angle@[0] == spec_turn(
                    ang,
                    p1_left,
                    p1_right,
                    STEP_FX as int,
                ) % (TAU_FX as int)
                &&& (if spec_move_allowed(old(self).passages@, x, y, nx, ny) {
                    final(self).player_x@[0] == nx && final(self).player_y@[0] == ny
                } else {
                    final(self).player_x@[0] == x && final(self).player_y@[0] == y
                })
            },
            old(self).player_life@[0] <= 0 ==> final(self).player_x@[0] == old(
            self).player_x@[0] && final(self).player_y@[0] == old(self).player_y@[0] && final(
            self).player_angle@[0] == old(self).player_angle@[0],
            old(self).player_life@[0] > 0 ==> final(self).player_ammo@[0]@ == spec_reload_phase(
                spec_fire_phase(old(self).player_ammo@[0]@, p1_shoot),
            ),
            old(self).player_life@[0] <= 0 ==> final(self).player_ammo@[0] == old(
            self).player_ammo@[0],
            old(self).player_life@[0] > 0 ==> final(self).player_view@[0] == (
            if p1_toggle_view {
                if old(self).player_view@[0] == ViewMode::FirstPerson {
                    ViewMode::TopDown
                } else {
                    ViewMode::FirstPerson
                }
            } else {
                old(self).player_view@[0]
            }),
            forall|p: int|
                0 <= p < NUM_PLAYERS && old(self).player_life@[p] <= 0
                    ==> final(self).player_x@[p] == old(self).player_x@[p] && final(
                self).player_y@[p] == old(self).player_y@[p] && final(self).player_angle@[p]
                    == old(self).player_angle@[p] && final(self).player_ammo@[p] == old(
                self).player_ammo@[p] && final(self).player_view@[p] == old(
                self).player_view@[p],
            final(self).events@ == spec_tick_events(*old(self), p1_shoot),
    {
        self.events.clear();
        proof {
            assert forall|k: int| 0 <= k < self.passages@.len() implies (
            #[trigger] self.passages@[k]).0 < WIDTH * HEIGHT && self.passages@[k].1 < WIDTH
                * HEIGHT && spec_adjacent(
                self.passages@[k].0 as int,
                self.passages@[k].1 as int,
                WIDTH as int,
                HEIGHT as int,
            ) by {
                assert(passage_entry_ok(
                    self.passages@[k],
                    all_cells(),
                    WIDTH as int,
                    HEIGHT as int,
                ));
            }
            assert(spec_passages_in_grid(self.passages@, WIDTH as int, HEIGHT as int));
        }
        let e2 = self.update_enemy(2);
        let e3 = self.update_enemy(3);
        let e4 = self.update_enemy(4);

        self.update_living_player(0, p1_up, p1_down, p1_left, p1_right, p1_shoot, p1_toggle_view);
        self.update_living_player(1, e2.0, e2.1, e2.2, e2.3, e2.4, e2.5);
        self.update_living_player(2, e3.0, e3.1, e3.2, e3.3, e3.4, e3.5);
        self.update_living_player(3, e4.0, e4.1, e4.2, e4.3, e4.4, e4.5);
        let ghost smid = *self;
        self.update_bullets();
        proof {
            assert(self.events@ =~= spec_tick_events(*old(self), p1_shoot));
            assert forall|p: int| 0 <= p < NUM_PLAYERS implies self.player_life@[p] <= old(
                self,
            ).player_life@[p] by {
                lemma_hits_on_nonneg(
                    smid.bullets@,
                    0,
                    p,
                    smid.passages@,
                    smid.player_x@,
                    smid.player_y@,
                    smid.player_angle@,
                );
            }
        }
    }
}

/// Law: the ammo state machine is monotonic.  Across one tick each slot
/// either stays as it was, goes from loaded to reloading at full duration
/// (a fresh fire), counts down by exactly one, or completes from zero to
/// loaded; no slot's countdown ever moves backward.
pub proof fn lemma_ammo_reload_monotonic(a: Seq<Ammo>, shoot: bool)
    ensures
        forall|i: int|
            #![trigger a[i]]
            0 <= i < a.len() ==> {
                let after = spec_reload_phase(spec_fire_phase(a, shoot));
                ||| after[i] == a[i]
                ||| (a[i] == Ammo::Loaded && (after[i] == Ammo::Reloading(RELOAD_TIME)
                    || after[i] == Ammo::Reloading((RELOAD_TIME - 1) as u8)))
                ||| (a[i] is Reloading && a[i]->Reloading_0 > 0 && after[i] == Ammo::Reloading(
                    (a[i]->Reloading_0 - 1) as u8,
                ))
                ||| (a[i] == Ammo::Reloading(0) && after[i] == Ammo::Loaded)
            },
{
    let mid = spec_fire_phase(a, shoot);
    let after = spec_reload_phase(mid);
    let fl = spec_first_loaded(a, 0);
    let fr = spec_first_not_loaded(mid, 0);
    lemma_first_loaded_in_range(a, 0);
    lemma_first_not_loaded_in_range(mid, 0);
    assert forall|i: int| #![trigger a[i]] 0 <= i < a.len() implies {
        ||| after[i] == a[i]
        ||| (a[i] == Ammo::Loaded && (after[i] == Ammo::Reloading(RELOAD_TIME) || after[i]
            == Ammo::Reloading((RELOAD_TIME - 1) as u8)))
        ||| (a[i] is Reloading && a[i]->Reloading_0 > 0 && after[i] == Ammo::Reloading(
            (a[i]->Reloading_0 - 1) as u8,
        ))
        ||| (a[i] == Ammo::Reloading(0) && after[i] == Ammo::Loaded)
    } by {
        if i == fl && shoot {
            assert(a[i] == Ammo::Loaded);
        } else if i == fr && fr >= 0 {
            if mid[i] is Reloading {
                let t = mid[i]->Reloading_0;
                if mid[i] != a[i] {
                    assert(a[i] == Ammo::Loaded && t == RELOAD_TIME);
                } else {
                    if t > 0 {
                        assert(a[i] == Ammo::Reloading(t) && after[i] == Ammo::Reloading(
                            (t - 1) as u8,
                        ));
                    }
                }
            }
        }
    }
}

/// The first-loaded search lands in range or at -1, on a loaded slot.
proof fn lemma_first_loaded_in_range(a: Seq<Ammo>, i: int)
    requires
        0 <= i <= a.len(),
    ensures
        spec_first_loaded(a, i) == -1 || (i <= spec_first_loaded(a, i) < a.len() && a[
        spec_first_loaded(a, i)] == Ammo::Loaded),
    decreases a.len() - i,
{
    if i < a.len() && a[i] != Ammo::Loaded {
        lemma_first_loaded_in_range(a, i + 1);
    }
}

/// The first-not-loaded search lands in range or at -1, off a loaded slot.
proof fn lemma_first_not_loaded_in_range(a: Seq<Ammo>, i: int)
    requires
        0 <= i <= a.len(),
    ensures
        spec_first_not_loaded(a, i) == -1 || (i <= spec_first_not_loaded(a, i) < a.len() && a[
        spec_first_not_loaded(a, i)] != Ammo::Loaded),
    decreases a.len() - i,
{
    if i < a.len() && a[i] == Ammo::Loaded {
        lemma_first_not_loaded_in_range(a, i + 1);
    }
}

/// Law: a generated maze is a spanning tree of the grid.  The passage list
/// holds exactly one entry fewer than there are cells; each entry joins
/// two distinct adjacent cells; no unordered pair appears twice; and every
/// cell is connected to cell 0 through passages.
pub proof fn lemma_spanning_tree(s: State)
    requires
        s.maze_wf(),
    ensures
        s.passages@.len() == NUM_CELLS - 1,
        forall|k: int|
            0 <= k < s.passages@.len() ==> spec_adjacent(
                (#[trigger] s.passages@[k]).0 as int,
                s.passages@[k].1 as int,
                WIDTH as int,
                HEIGHT as int,
            ) && s.passages@[k].0 != s.passages@[k].1 && s.passages@[k].0 < NUM_CELLS
                && s.passages@[k].1 < NUM_CELLS,
        forall|j: int, k: int|
            0 <= j < k < s.passages@.len() ==> !((#[trigger] s.passages@[j]).0
                == (#[trigger] s.passages@[k]).0 && s.passages@[j].1 == s.passages@[k].1) && !(
            s.passages@[j].0 == s.passages@[k].1 && s.passages@[j].1 == s.passages@[k].0),
        forall|c: int| 0 <= c < NUM_CELLS ==> reaches(s.passages@, c, 0),
{
    let ps = s.passages@;
    let w = WIDTH as int;
    let h = HEIGHT as int;
    assert forall|k: int| 0 <= k < ps.len() implies spec_adjacent(
        (#[trigger] ps[k]).0 as int,
        ps[k].1 as int,
        w,
        h,
    ) && ps[k].0 != ps[k].1 && ps[k].0 < NUM_CELLS && ps[k].1 < NUM_CELLS by {
        assert(passage_entry_ok(ps[k], all_cells(), w, h));
    }
}

/// Law: a set wall bit blocks the move that would cross it.  When the
/// tentative position lies in the side-by-side or stacked neighbor cell
/// of the current one and the wall bit on their shared boundary is set,
/// the move is rejected — and `update_player`'s contract then keeps the
/// position unchanged while still applying the turn.
pub proof fn lemma_wall_blocks_move(s: State, x: int, y: int, nx: int, ny: int)
    requires
        s.maze_wf(),
        spec_in_grid(x, y),
        spec_in_grid(nx, ny),
        ({
            let px = x / (FX_ONE as int);
            let py = y / (FX_ONE as int);
            let qx = nx / (FX_ONE as int);
            let qy = ny / (FX_ONE as int);
            ||| (qy == py && qx == px + 1 && spec_wall_bit(s.vertical_walls@[qx], py))
            ||| (qy == py && px == qx + 1 && spec_wall_bit(s.vertical_walls@[px], py))
            ||| (qx == px && qy == py + 1 && spec_wall_bit(s.horizontal_walls@[qy], px))
            ||| (qx == px && py == qy + 1 && spec_wall_bit(s.horizontal_walls@[py], px))
        }),
    ensures
        !spec_move_allowed(s.passages@, x, y, nx, ny),
{
    let w = WIDTH as int;
    let px = x / (FX_ONE as int);
    let py = y / (FX_ONE as int);
    let qx = nx / (FX_ONE as int);
    let qy = ny / (FX_ONE as int);
    let prev = spec_cell_index(x, y, w);
    let cur = spec_cell_index(nx, ny, w);
    proof_cols_in_grid(x, y);
    proof_cols_in_grid(nx, ny);
    if qy == py && qx == px + 1 && spec_wall_bit(s.vertical_walls@[qx], py) {
        assert(spec_wall_bit(s.vertical_walls@[qx], py) == spec_v_wall(
            s.passages@,
            qx,
            py,
            w,
            HEIGHT as int,
        ));
        assert(!spec_has_passage(s.passages@, (qx - 1) + py * w, qx + py * w));
        assert(prev == (qx - 1) + py * w && cur == qx + py * w);
    } else if qy == py && px == qx + 1 && spec_wall_bit(s.vertical_walls@[px], py) {
        assert(spec_wall_bit(s.vertical_walls@[px], py) == spec_v_wall(
            s.passages@,
            px,
            py,
            w,
            HEIGHT as int,
        ));
        assert(!spec_has_passage(s.passages@, (px - 1) + py * w, px + py * w));
        assert(cur == (px - 1) + py * w && prev == px + py * w);
    } else if qx == px && qy == py + 1 && spec_wall_bit(s.horizontal_walls@[qy], px) {
        assert(spec_wall_bit(s.horizontal_walls@[qy], px) == spec_h_wall(
            s.passages@,
            qy,
            px,
            w,
            HEIGHT as int,
        ));
        assert(!spec_has_passage(s.passages@, px + (qy - 1) * w, px + qy * w));
        assert(prev == px + (qy - 1) * w && cur == px + qy * w);
    } else {
        assert(spec_wall_bit(s.horizontal_walls@[py], px) == spec_h_wall(
            s.passages@,
            py,
            px,
            w,
            HEIGHT as int,
        ));
        assert(!spec_has_passage(s.passages@, px + (py - 1) * w, px + py * w));
        assert(cur == px + (py - 1) * w && prev == px + py * w);
    }
}

/// An in-grid point's cell coordinates lie on the grid.
proof fn proof_cols_in_grid(x: int, y: int)
    requires
        spec_in_grid(x, y),
    ensures
        0 <= x / (FX_ONE as int) < WIDTH,
        0 <= y / (FX_ONE as int) < HEIGHT,
{
    vstd::arithmetic::div_mod::lemma_fundamental_div_mod(x, FX_ONE as int);
    vstd::arithmetic::div_mod::lemma_mod_bound(x, FX_ONE as int);
    vstd::arithmetic::div_mod::lemma_fundamental_div_mod(y, FX_ONE as int);
    vstd::arithmetic::div_mod::lemma_mod_bound(y, FX_ONE as int);
    assert(0 <= x / 65536 && x / 65536 < 13 && 0 <= y / 65536 && y / 65536 < 13)
        by (nonlinear_arith)
        requires
            0 < x < 851968,
            0 < y < 851968,
            65536 * (x / 65536) + x % 65536 == x,
            0 <= x % 65536 < 65536,
            65536 * (y / 65536) + y % 65536 == y,
            0 <= y % 65536 < 65536,
    ;
}

/// Law: walls and passages complement each other exactly.  On every
/// interior cell boundary the wall bit is clear precisely when the passage
/// list joins the two cells the boundary separates, and the outer boundary
/// of the grid is fully walled.
pub proof fn lemma_walls_complement_passages(s: State)
    requires
        s.maze_wf(),
    ensures
        forall|r: int, c: int|
            1 <= r <= HEIGHT - 1 && 0 <= c < WIDTH ==> (#[trigger] spec_wall_bit(
                s.horizontal_walls@[r],
                c,
            ) <==> !spec_has_passage(s.passages@, c + (r - 1) * WIDTH, c + r * WIDTH)),
        forall|cl: int, rr: int|
            1 <= cl <= WIDTH - 1 && 0 <= rr < HEIGHT ==> (#[trigger] spec_wall_bit(
                s.vertical_walls@[cl],
                rr,
            ) <==> !spec_has_passage(s.passages@, (cl - 1) + rr * WIDTH, cl + rr * WIDTH)),
        forall|c: int|
            0 <= c < WIDTH ==> spec_wall_bit(#[trigger] s.horizontal_walls@[0], c)
                && spec_wall_bit(s.horizontal_walls@[HEIGHT as int], c),
        forall|rr: int|
            0 <= rr < HEIGHT ==> spec_wall_bit(#[trigger] s.vertical_walls@[0], rr)
                && spec_wall_bit(s.vertical_walls@[WIDTH as int], rr),
{
}

} // verus!

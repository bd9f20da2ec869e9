//! Hostile agents: grid pathfinding pursuit with axis-separated collision,
//! a proximity-and-timer driven attack cycle, timed invulnerability, and
//! soft pairwise separation.
use vstd::prelude::*;

verus! {

use std::collections::VecDeque;

use crate::COORD_LIMIT;
use crate::combat::{CombatState, INVULN_MS, CONTACT_RADIUS_SQ};
use crate::geometry::{
    Vec2i,
    dist_sq,
    spec_dist_sq,
    spec_scale_toward,
    scale_toward,
    spec_step_toward,
    step_toward,
};
use crate::movement::{spec_resolve_move, resolve_move};
use crate::pathfinding::{spec_bfs, breadth_first_search, lemma_bfs_sound};
use crate::player::Player;
use crate::tile::{Tile, spec_tiles_in_range};

/// How far from the body an agent's weapon rests.
pub const ENEMY_REST_REACH: i32 = 20;

/// How far from the body an agent's strike point lies.
pub const ENEMY_STRIKE_REACH: i32 = 60;

/// Idle time an agent must accumulate before it commits to an attack.
pub const ENEMY_IDLE_COMMIT_MS: u32 = 2500;

/// Squared radius within which an agent engages its target (50 units).
pub const ENGAGE_RADIUS_SQ: u64 = 2500;

/// Squared distance beyond which the agent re-plans a path (100 units).
pub const REPLAN_RADIUS_SQ: u64 = 10000;

/// Squared arrival radius at the current waypoint (2 units).
pub const WAYPOINT_RADIUS_SQ: u64 = 4;

/// Squared radius of the soft pairwise separation (20 units).
pub const SEPARATION_RADIUS_SQ: u64 = 400;

/// Speed, in units per second, of the soft separation push.
pub const SEPARATION_SPEED: i32 = 10;

/// Relies on `rand::Rng::gen_range` over the non-empty range `90..=105`:
/// it panics only on an empty range and returns a sampled value inside the
/// given one. Nothing more is assumed of the sample.
#[verifier::external_body]
fn random_speed() -> (s: i32)
    ensures
        90 <= s <= 105,
{
    rand::Rng::gen_range(&mut rand::thread_rng(), 90..=105)
}

#[derive(Clone)]
pub struct Enemy {
    pub attack_timer: u32,
    pub invulnerable: bool,
    pub health: i32,
    pub state: CombatState,
    pub health_timer: u32,
    pub speed: i32,
    pub attack_spot: Vec2i,
    pub player_spotted: bool,
    pub move_pos: Vec2i,
    pub prev_goal: Vec2i,
    pub path: VecDeque<Vec2i>,
    pub sword_pos: Vec2i,
    pub pos: Vec2i,
}

impl Enemy {
    /// Well-formedness: coordinates in the world range, waypoints inside
    /// the search range, timers inside their windows.
    pub open spec fn wf(self) -> bool {
        &&& self.pos.spec_in_range()
        &&& -COORD_LIMIT - 100 <= self.sword_pos.x <= COORD_LIMIT + 100
        &&& -COORD_LIMIT - 100 <= self.sword_pos.y <= COORD_LIMIT + 100
        &&& -COORD_LIMIT - 100 <= self.attack_spot.x <= COORD_LIMIT + 100
        &&& -COORD_LIMIT - 100 <= self.attack_spot.y <= COORD_LIMIT + 100
        &&& -COORD_LIMIT - 50 <= self.move_pos.x <= COORD_LIMIT + 50
        &&& -COORD_LIMIT - 50 <= self.move_pos.y <= COORD_LIMIT + 50
        &&& self.prev_goal.spec_in_range()
        &&& forall|i: int|
            0 <= i < self.path@.len() ==> {
                let c = #[trigger] self.path@[i];
                -COORD_LIMIT - 50 <= c.x <= COORD_LIMIT + 50 && -COORD_LIMIT - 50 <= c.y
                    <= COORD_LIMIT + 50
            }
        &&& 0 <= self.health <= 1000
        &&& 0 <= self.speed <= 1000
        &&& (self.invulnerable ==> self.health_timer <= INVULN_MS)
        &&& (!self.invulnerable ==> self.health_timer == 0)
        &&& self.attack_timer <= ENEMY_IDLE_COMMIT_MS
    }

    pub fn health(&self) -> (r: i32)
        ensures
            r == self.health,
    {
        self.health
    }

    pub fn set_pos(&mut self, pos: Vec2i)
        requires
            pos.spec_in_range(),
        ensures
            *final(self) == (Enemy { pos, ..*old(self) }),
    {
        self.pos = pos;
    }

    /// A copy of the remaining waypoint queue.
    pub fn path(&self) -> (r: VecDeque<Vec2i>)
        ensures
            r@ == self.path@,
    {
        let r = self.path.clone();
        proof {
            assert(r@ =~= self.path@);
        }
        r
    }

    pub fn player_spotted(&self) -> (r: bool)
        ensures
            r == self.player_spotted,
    {
        self.player_spotted
    }

    pub fn set_player_spotted(&mut self, spotted: bool)
        ensures
            *final(self) == (Enemy { player_spotted: spotted, ..*old(self) }),
    {
        self.player_spotted = spotted
    }

    pub fn pos(&self) -> (r: Vec2i)
        ensures
            r == self.pos,
    {
        self.pos
    }

    pub fn speed(&self) -> (r: i32)
        ensures
            r == self.speed,
    {
        self.speed
    }

    /// A fresh agent at `pos`: full health, idle with its commit timer
    /// partly elapsed, and a speed drawn from 90..=105 units per second.
    pub fn new(pos: Vec2i) -> (e: Enemy)
        requires
            pos.spec_in_range(),
        ensures
            e.pos == pos,
            e.health == 3,
            !e.invulnerable,
            e.health_timer == 0,
            e.state is Idle,
            e.attack_timer == 2000,
            e.attack_spot == (Vec2i { x: 0, y: 0 }),
            e.sword_pos == (Vec2i { x: 0, y: 0 }),
            90 <= e.speed <= 105,
            !e.player_spotted,
            e.move_pos == (Vec2i { x: 0, y: 0 }),
            e.prev_goal == (Vec2i { x: 0, y: 0 }),
            e.path@.len() == 0,
            e.wf(),
    {
        Enemy {
            health_timer: 0,
            health: 3,
            invulnerable: false,
            state: CombatState::Idle,
            attack_timer: 2000,
            attack_spot: Vec2i { x: 0, y: 0 },
            sword_pos: Vec2i { x: 0, y: 0 },
            speed: random_speed(),
            player_spotted: false,
            move_pos: Vec2i { x: 0, y: 0 },
            pos,
            prev_goal: Vec2i { x: 0, y: 0 },
            path: VecDeque::new(),
        }
    }

    /// One damage event against the agent: ignored while invulnerable,
    /// otherwise health drops by exactly one (floored at zero), the attack
    /// cycle resets to idle, and the invulnerability window opens.
    pub open spec fn spec_take_damage(e: Enemy) -> Enemy {
        if !e.invulnerable {
            Enemy {
                health: if e.health >= 1 {
                    (e.health - 1) as i32
                } else {
                    0
                },
                state: CombatState::Idle,
                invulnerable: true,
                ..e
            }
        } else {
            e
        }
    }

    pub fn take_damage(&mut self)
        requires
            old(self).wf(),
        ensures
            *final(self) == Enemy::spec_take_damage(*old(self)),
            old(self).invulnerable ==> *final(self) == *old(self),
            final(self).wf(),
    {
        if !self.invulnerable {
            self.health = self.health - 1;
            if self.health < 0 {
                self.health = 0;
            }
            self.state = CombatState::Idle;
            self.invulnerable = true;
        }
    }

    /// Advances the invulnerability window by `dt` milliseconds; the flag
    /// clears once more than `INVULN_MS` have accumulated.
    pub open spec fn spec_tick_invulnerability(e: Enemy, dt: u32) -> Enemy {
        if e.invulnerable {
            if e.health_timer + dt > INVULN_MS {
                Enemy { health_timer: 0u32, invulnerable: false, ..e }
            } else {
                Enemy { health_timer: (e.health_timer + dt) as u32, ..e }
            }
        } else {
            e
        }
    }

    pub fn tick_invulnerability(&mut self, dt_ms: u32)
        requires
            old(self).wf(),
            dt_ms <= 1000000,
        ensures
            *final(self) == Enemy::spec_tick_invulnerability(*old(self), dt_ms),
            final(self).wf(),
    {
        if self.invulnerable {
            let t = self.health_timer + dt_ms;
            if t > INVULN_MS {
                self.health_timer = 0;
                self.invulnerable = false;
            } else {
                self.health_timer = t;
            }
        }
    }

    /// The agent's weapon resting position for a target: offset from the
    /// body toward the target by the resting reach.
    pub open spec fn spec_rest_pos(e: Enemy, target: Vec2i) -> Vec2i {
        Vec2i {
            x: (e.pos.x + spec_scale_toward(
                Vec2i { x: (target.x - e.pos.x) as i32, y: (target.y - e.pos.y) as i32 },
                ENEMY_REST_REACH as int,
            ).x) as i32,
            y: (e.pos.y + spec_scale_toward(
                Vec2i { x: (target.x - e.pos.x) as i32, y: (target.y - e.pos.y) as i32 },
                ENEMY_REST_REACH as int,
            ).y) as i32,
        }
    }

    /// The agent's strike point for a target: offset from the body toward
    /// the target by the strike reach.
    pub open spec fn spec_strike_spot(e: Enemy, target: Vec2i) -> Vec2i {
        Vec2i {
            x: (e.pos.x + spec_scale_toward(
                Vec2i { x: (target.x - e.pos.x) as i32, y: (target.y - e.pos.y) as i32 },
                ENEMY_STRIKE_REACH as int,
            ).x) as i32,
            y: (e.pos.y + spec_scale_toward(
                Vec2i { x: (target.x - e.pos.x) as i32, y: (target.y - e.pos.y) as i32 },
                ENEMY_STRIKE_REACH as int,
            ).y) as i32,
        }
    }

    /// One frame of the agent's attack cycle, given the target's position.
    ///
    /// Nothing happens until the target has been spotted. While idle the
    /// weapon tracks its resting offset toward the target and the commit
    /// timer accumulates (saturating); once it has filled and the target is
    /// within engagement range, the agent commits: the strike point is
    /// fixed and the weapon winds up toward it, strikes back toward rest
    /// (dealing contact damage on the way), then recovers. Leaving
    /// engagement range mid-windup or mid-strike aborts the cycle.
    pub open spec fn spec_update_weapon(e: Enemy, target: Vec2i, dt: u32) -> Enemy {
        if !e.player_spotted {
            e
        } else {
            let rest = Enemy::spec_rest_pos(e, target);
            let in_range = spec_dist_sq(e.pos, target) < ENGAGE_RADIUS_SQ;
            match e.state {
                CombatState::Idle => {
                    let t = e.attack_timer + dt;
                    if t > ENEMY_IDLE_COMMIT_MS && in_range {
                        Enemy {
                            attack_timer: 0u32,
                            state: CombatState::WindingUp,
                            attack_spot: Enemy::spec_strike_spot(e, target),
                            sword_pos: rest,
                            ..e
                        }
                    } else if t > ENEMY_IDLE_COMMIT_MS {
                        Enemy { attack_timer: ENEMY_IDLE_COMMIT_MS, sword_pos: rest, ..e }
                    } else {
                        Enemy { attack_timer: t as u32, sword_pos: rest, ..e }
                    }
                },
                CombatState::WindingUp => {
                    if !in_range {
                        Enemy { state: CombatState::Idle, sword_pos: rest, ..e }
                    } else if spec_dist_sq(e.sword_pos, e.attack_spot) < 25 {
                        Enemy { state: CombatState::Striking, ..e }
                    } else {
                        Enemy { sword_pos: spec_step_toward(e.sword_pos, e.attack_spot, 6, 100), ..e }
                    }
                },
                CombatState::Striking => {
                    if !in_range {
                        Enemy { state: CombatState::Idle, sword_pos: rest, ..e }
                    } else if spec_dist_sq(e.sword_pos, rest) < 100 {
                        Enemy { state: CombatState::Recovering, ..e }
                    } else {
                        Enemy { sword_pos: spec_step_toward(e.sword_pos, rest, 1, 10), ..e }
                    }
                },
                CombatState::Recovering => {
                    if spec_dist_sq(e.sword_pos, rest) < 25 {
                        Enemy { state: CombatState::Idle, sword_pos: rest, ..e }
                    } else {
                        Enemy { sword_pos: spec_step_toward(e.sword_pos, rest, 1, 10), ..e }
                    }
                },
            }
        }
    }

    fn rest_pos(&self, target: Vec2i) -> (r: Vec2i)
        requires
            self.wf(),
            target.spec_in_range(),
        ensures
            r == Enemy::spec_rest_pos(*self, target),
            -COORD_LIMIT - 100 <= r.x <= COORD_LIMIT + 100,
            -COORD_LIMIT - 100 <= r.y <= COORD_LIMIT + 100,
    {
        let delta = Vec2i { x: target.x - self.pos.x, y: target.y - self.pos.y };
        let off = scale_toward(delta, ENEMY_REST_REACH);
        Vec2i { x: self.pos.x + off.x, y: self.pos.y + off.y }
    }

    fn strike_spot(&self, target: Vec2i) -> (r: Vec2i)
        requires
            self.wf(),
            target.spec_in_range(),
        ensures
            r == Enemy::spec_strike_spot(*self, target),
            -COORD_LIMIT - 100 <= r.x <= COORD_LIMIT + 100,
            -COORD_LIMIT - 100 <= r.y <= COORD_LIMIT + 100,
    {
        let delta = Vec2i { x: target.x - self.pos.x, y: target.y - self.pos.y };
        let off = scale_toward(delta, ENEMY_STRIKE_REACH);
        Vec2i { x: self.pos.x + off.x, y: self.pos.y + off.y }
    }

    /// Advances the attack cycle one frame toward the target.
    pub fn update_weapon(&mut self, target: Vec2i, dt_ms: u32)
        requires
            old(self).wf(),
            target.spec_in_range(),
            dt_ms <= 1000000,
        ensures
            *final(self) == Enemy::spec_update_weapon(*old(self), target, dt_ms),
            final(self).wf(),
    {
        if !self.player_spotted {
            return ;
        }
        let rest = self.rest_pos(target);
        let in_range = dist_sq(self.pos, target) < ENGAGE_RADIUS_SQ;
        match self.state {
            CombatState::Idle => {
                let t = self.attack_timer + dt_ms;
                if t > ENEMY_IDLE_COMMIT_MS && in_range {
                    self.attack_timer = 0;
                    self.state = CombatState::WindingUp;
                    self.attack_spot = self.strike_spot(target);
                    self.sword_pos = rest;
                } else if t > ENEMY_IDLE_COMMIT_MS {
                    self.attack_timer = ENEMY_IDLE_COMMIT_MS;
                    self.sword_pos = rest;
                } else {
                    self.attack_timer = t;
                    self.sword_pos = rest;
                }
            },
            CombatState::WindingUp => {
                if !in_range {
                    self.state = CombatState::Idle;
                    self.sword_pos = rest;
                } else if dist_sq(self.sword_pos, self.attack_spot) < 25 {
                    self.state = CombatState::Striking;
                } else {
                    self.sword_pos = step_toward(self.sword_pos, self.attack_spot, 6, 100);
                }
            },
            CombatState::Striking => {
                if !in_range {
                    self.state = CombatState::Idle;
                    self.sword_pos = rest;
                } else if dist_sq(self.sword_pos, rest) < 100 {
                    self.state = CombatState::Recovering;
                } else {
                    self.sword_pos = step_toward(self.sword_pos, rest, 1, 10);
                }
            },
            CombatState::Recovering => {
                if dist_sq(self.sword_pos, rest) < 25 {
                    self.state = CombatState::Idle;
                    self.sword_pos = rest;
                } else {
                    self.sword_pos = step_toward(self.sword_pos, rest, 1, 10);
                }
            },
        }
    }

    /// Deals contact damage to the protagonist: only while the weapon is in
    /// its striking phase and the protagonist stands within the contact
    /// radius of the weapon. Whether damage lands is then the defender's
    /// affair (block and invulnerability).
    pub fn damage_player(&self, player: &mut Player)
        requires
            self.wf(),
            old(player).wf(),
        ensures
            *final(player) == if self.state is Striking && spec_dist_sq(
                self.sword_pos,
                old(player).pos,
            ) < CONTACT_RADIUS_SQ {
                Player::spec_take_damage(*old(player))
            } else {
                *old(player)
            },
            final(player).wf(),
    {
        let striking = if let CombatState::Striking = self.state {
            true
        } else {
            false
        };
        if striking && dist_sq(self.sword_pos, player.pos()) < CONTACT_RADIUS_SQ {
            player.take_damage();
        }
    }

    /// What re-planning does to the waypoint queue, the immediate sub-goal
    /// and the remembered goal: beyond the re-plan radius a fresh path is
    /// requested (an unreachable goal yields an empty queue and the agent
    /// falls back to moving directly at the target); closer in, the queue
    /// is dropped and the target itself becomes the sub-goal.
    pub open spec fn spec_chase_plan(e: Enemy, target: Vec2i, tiles: Seq<Tile>) -> (
        Seq<Vec2i>,
        Vec2i,
        Vec2i,
    ) {
        if spec_dist_sq(e.pos, target) > REPLAN_RADIUS_SQ {
            let s = match spec_bfs(e.pos, target, tiles) {
                Some(s) => s,
                None => Seq::<Vec2i>::empty(),
            };
            if s.len() > 0 {
                (s.drop_first(), s[0], target)
            } else {
                (s, target, target)
            }
        } else {
            (Seq::<Vec2i>::empty(), target, e.prev_goal)
        }
    }

    /// Waypoint consumption: once within the arrival radius of the current
    /// sub-goal (and still far from the target), the next waypoint is
    /// popped, the target itself standing in when the queue is exhausted.
    pub open spec fn spec_chase_advance(
        path: Seq<Vec2i>,
        move_pos: Vec2i,
        pos: Vec2i,
        target: Vec2i,
    ) -> (Seq<Vec2i>, Vec2i) {
        if spec_dist_sq(pos, target) > ENGAGE_RADIUS_SQ && spec_dist_sq(pos, move_pos)
            < WAYPOINT_RADIUS_SQ {
            if path.len() > 0 {
                (path.drop_first(), path[0])
            } else {
                (path, target)
            }
        } else {
            (path, move_pos)
        }
    }

    /// The frame's movement: beyond the engagement radius the agent steps
    /// toward its sub-goal at its own speed, resolved axis by axis against
    /// the grid; within it, it stands still.
    pub open spec fn spec_chase_pos(
        pos: Vec2i,
        move_pos: Vec2i,
        speed: int,
        dt: int,
        target: Vec2i,
        tiles: Seq<Tile>,
    ) -> Vec2i {
        if spec_dist_sq(pos, target) > ENGAGE_RADIUS_SQ {
            let mag = speed * dt / 1000;
            let disp = spec_scale_toward(
                Vec2i { x: (move_pos.x - pos.x) as i32, y: (move_pos.y - pos.y) as i32 },
                mag,
            );
            let cand = Vec2i { x: (pos.x + disp.x) as i32, y: (pos.y + disp.y) as i32 };
            spec_resolve_move(pos, cand, disp, tiles)
        } else {
            pos
        }
    }

    /// One frame of pursuit toward `new_pos`: re-plan the path if the
    /// target is far, consume a waypoint on arrival, and advance with
    /// axis-separated collision resolution.
    pub fn move_to(&mut self, new_pos: Vec2i, dt_ms: u32, tiles: &Vec<Tile>)
        requires
            old(self).wf(),
            new_pos.spec_in_range(),
            dt_ms <= 1000,
            spec_tiles_in_range(tiles@),
            -COORD_LIMIT + 2000 <= old(self).pos.x <= COORD_LIMIT - 2000,
            -COORD_LIMIT + 2000 <= old(self).pos.y <= COORD_LIMIT - 2000,
        ensures
            ({
                let plan = Enemy::spec_chase_plan(*old(self), new_pos, tiles@);
                let adv = Enemy::spec_chase_advance(plan.0, plan.1, old(self).pos, new_pos);
                &&& final(self).path@ == adv.0
                &&& final(self).move_pos == adv.1
                &&& final(self).prev_goal == plan.2
                &&& final(self).pos == Enemy::spec_chase_pos(
                    old(self).pos,
                    adv.1,
                    old(self).speed as int,
                    dt_ms as int,
                    new_pos,
                    tiles@,
                )
                &&& *final(self) == Enemy {
                    path: final(self).path,
                    move_pos: adv.1,
                    prev_goal: plan.2,
                    pos: final(self).pos,
                    ..*old(self)
                }
            }),
            final(self).wf(),
    {
        let far = dist_sq(self.pos, new_pos) > REPLAN_RADIUS_SQ;
        if far {
            self.prev_goal = new_pos;
            proof {
                lemma_bfs_sound(self.pos, new_pos, tiles@);
            }
            let found = breadth_first_search(self.pos, new_pos, tiles);
            self.path = match found {
                Some(q) => q,
                None => VecDeque::new(),
            };
            self.move_pos = match self.path.pop_front() {
                Some(w) => w,
                None => new_pos,
            };
        } else {
            self.path.clear();
            self.move_pos = new_pos;
        }
        if dist_sq(self.pos, new_pos) > ENGAGE_RADIUS_SQ {
            if dist_sq(self.pos, self.move_pos) < WAYPOINT_RADIUS_SQ {
                self.move_pos = match self.path.pop_front() {
                    Some(w) => w,
                    None => new_pos,
                };
            }
            let sp = self.speed;
            proof {
                assert(0 <= sp * dt_ms <= 1000000) by (nonlinear_arith)
                    requires
                        0 <= sp <= 1000,
                        0 <= dt_ms <= 1000,
                ;
            }
            let mag: i32 = ((sp as i64 * dt_ms as i64) / 1000) as i32;
            proof {
                assert(mag == old(self).speed * dt_ms / 1000);
            }
            let delta = Vec2i { x: self.move_pos.x - self.pos.x, y: self.move_pos.y - self.pos.y };
            let disp = scale_toward(delta, mag);
            let cand = Vec2i { x: self.pos.x + disp.x, y: self.pos.y + disp.y };
            self.pos = resolve_move(self.pos, cand, disp, tiles);
        }
    }

    /// The soft separation push this agent receives from another: when the
    /// two stand within the separation radius, a nudge directly away from
    /// the other, scaled by elapsed time.
    pub open spec fn spec_displace(e: Enemy, other: Enemy, dt: u32) -> Enemy {
        if spec_dist_sq(other.pos, e.pos) < SEPARATION_RADIUS_SQ {
            let mag = SEPARATION_SPEED * dt / 1000;
            let push = spec_scale_toward(
                Vec2i { x: (e.pos.x - other.pos.x) as i32, y: (e.pos.y - other.pos.y) as i32 },
                mag,
            );
            Enemy {
                pos: Vec2i { x: (e.pos.x + push.x) as i32, y: (e.pos.y + push.y) as i32 },
                ..e
            }
        } else {
            e
        }
    }

    /// Applies the soft pairwise separation from `other`.
    pub fn displace(&mut self, other: &Enemy, dt_ms: u32)
        requires
            old(self).wf(),
            other.wf(),
            dt_ms <= 1000,
            -COORD_LIMIT + 2000 <= old(self).pos.x <= COORD_LIMIT - 2000,
            -COORD_LIMIT + 2000 <= old(self).pos.y <= COORD_LIMIT - 2000,
        ensures
            *final(self) == Enemy::spec_displace(*old(self), *other, dt_ms),
            final(self).wf(),
    {
        if dist_sq(other.pos, self.pos) < SEPARATION_RADIUS_SQ {
            let mag: i32 = SEPARATION_SPEED * (dt_ms as i32) / 1000;
            let delta = Vec2i { x: self.pos.x - other.pos.x, y: self.pos.y - other.pos.y };
            let push = scale_toward(delta, mag);
            proof {
                assert(mag == SEPARATION_SPEED * dt_ms / 1000);
            }
            self.pos = Vec2i { x: self.pos.x + push.x, y: self.pos.y + push.y };
        }
    }
}

/// An agent roster after a sequence of frames that only advance the
/// invulnerability timer.
pub open spec fn spec_enemy_frames(e: Enemy, dts: Seq<u32>) -> Enemy
    decreases dts.len(),
{
    if dts.len() == 0 {
        e
    } else {
        spec_enemy_frames(Enemy::spec_tick_invulnerability(e, dts[0]), dts.drop_first())
    }
}

proof fn lemma_enemy_frames_keep_invulnerable(e: Enemy, dts: Seq<u32>)
    requires
        e.invulnerable,
        e.health_timer + crate::player::spec_sum_ms(dts) <= INVULN_MS,
    ensures
        spec_enemy_frames(e, dts).invulnerable,
        spec_enemy_frames(e, dts).health == e.health,
    decreases dts.len(),
{
    if dts.len() > 0 {
        let q = Enemy::spec_tick_invulnerability(e, dts[0]);
        crate::player::lemma_sum_ms_nonneg(dts.drop_first());
        lemma_enemy_frames_keep_invulnerable(q, dts.drop_first());
    }
}

/// Invulnerability, agent side: two damage events within the
/// invulnerability window (1.5 simulated seconds), with any sequence of
/// frames in between, reduce health by exactly one, not two.
pub proof fn lemma_enemy_invulnerability_window(e: Enemy, dts: Seq<u32>)
    requires
        e.wf(),
        !e.invulnerable,
        crate::player::spec_sum_ms(dts) <= INVULN_MS,
    ensures
        ({
            let afterwards = Enemy::spec_take_damage(
                spec_enemy_frames(Enemy::spec_take_damage(e), dts),
            );
            afterwards.health == if e.health >= 1 {
                e.health - 1
            } else {
                0
            }
        }),
{
    let e1 = Enemy::spec_take_damage(e);
    crate::player::lemma_sum_ms_nonneg(dts);
    lemma_enemy_frames_keep_invulnerable(e1, dts);
}

/// The roster that survives a frame: the agents with health left, in their
/// original order.
pub open spec fn spec_surviving(s: Seq<Enemy>) -> Seq<Enemy>
    decreases s.len(),
{
    if s.len() == 0 {
        Seq::<Enemy>::empty()
    } else {
        let front = spec_surviving(s.drop_last());
        if s.last().health > 0 {
            front.push(s.last())
        } else {
            front
        }
    }
}

/// Removes the defeated agents from the roster, keeping the order of the
/// survivors. The roster is read in full before anything is removed, so
/// removal cannot skip over an agent.
pub fn remove_defeated(enemies: &mut Vec<Enemy>)
    ensures
        final(enemies)@ == spec_surviving(old(enemies)@),
{
    let mut kept: Vec<Enemy> = Vec::new();
    let n = enemies.len();
    let mut i: usize = 0;
    while i < n
        invariant
            n == old(enemies)@.len(),
            0 <= i <= n,
            enemies@ == old(enemies)@.skip(i as int),
            kept@ == spec_surviving(old(enemies)@.take(i as int)),
        decreases n - i,
    {
        proof {
            assert(old(enemies)@.take(i as int + 1).drop_last() =~= old(enemies)@.take(i as int));
            assert(old(enemies)@.take(i as int + 1).last() == old(enemies)@[i as int]);
            assert(enemies@[0] == old(enemies)@[i as int]);
        }
        let e = enemies.remove(0);
        proof {
            assert(enemies@ =~= old(enemies)@.skip(i as int + 1));
        }
        if e.health() > 0 {
            kept.push(e);
        }
        i = i + 1;
    }
    proof {
        assert(old(enemies)@.take(n as int) =~= old(enemies)@);
    }
    *enemies = kept;
}

} // verus!

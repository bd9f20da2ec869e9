//! The protagonist: direct-control movement with axis-separated collision,
//! an input-triggered attack cycle, timed invulnerability and a timed,
//! cooldown-gated block.
use vstd::prelude::*;

verus! {

use crate::COORD_LIMIT;
use crate::combat::{CombatState, INVULN_MS, BLOCK_ACTIVE_MS, BLOCK_COOLDOWN_MS, CONTACT_RADIUS_SQ};
use crate::geometry::{
    Vec2i,
    dist_sq,
    spec_dist_sq,
    spec_scale_toward,
    scale_toward,
    spec_step_toward,
    step_toward,
};
use crate::movement::{spec_resolve_move, resolve_move};
use crate::tile::{Tile, spec_is_spawn, spec_tiles_in_range};

/// How far (from the body) the protagonist's weapon rests, in world units.
pub const PLAYER_REST_REACH: i32 = 23;

/// How far the strike point lies from the body.
pub const PLAYER_STRIKE_REACH: i32 = 43;

pub struct Player {
    pub block_timer: u32,
    pub block: bool,
    pub health: i32,
    pub size: Vec2i,
    pub pos: Vec2i,
    pub speed: i32,
    pub sword_pos: Vec2i,
    pub strike_pos: Vec2i,
    pub invulnerable: bool,
    pub damage_timer: u32,
    pub state: CombatState,
}

impl Player {
    /// Well-formedness: coordinates inside the world range, timers inside
    /// their windows, health and speed inside sane machine bounds.
    pub open spec fn wf(self) -> bool {
        &&& self.pos.spec_in_range()
        &&& -COORD_LIMIT - 50 <= self.sword_pos.x <= COORD_LIMIT + 50
        &&& -COORD_LIMIT - 50 <= self.sword_pos.y <= COORD_LIMIT + 50
        &&& -COORD_LIMIT - 50 <= self.strike_pos.x <= COORD_LIMIT + 50
        &&& -COORD_LIMIT - 50 <= self.strike_pos.y <= COORD_LIMIT + 50
        &&& 0 <= self.health <= 1000
        &&& 0 <= self.speed <= 1000
        &&& (self.invulnerable ==> self.damage_timer <= INVULN_MS)
        &&& (!self.invulnerable ==> self.damage_timer == 0)
        &&& (self.block ==> self.block_timer <= BLOCK_ACTIVE_MS)
        &&& (!self.block ==> self.block_timer <= BLOCK_COOLDOWN_MS)
        &&& -1000 <= self.size.x <= 1000
        &&& -1000 <= self.size.y <= 1000
    }

    pub fn pos(&self) -> (r: Vec2i)
        ensures
            r == self.pos,
    {
        self.pos
    }

    pub fn health(&self) -> (r: i32)
        ensures
            r == self.health,
    {
        self.health
    }

    pub fn set_health(&mut self, health: i32)
        requires
            0 <= health <= 1000,
    ensures
            *final(self) == (Player { health, ..*old(self) }),
    {
        self.health = health;
    }

    /// A fresh protagonist at `(x, y)` with the given body size and speed:
    /// full health, idle, able to attack, not blocking, not invulnerable.
    pub fn new(x: i32, y: i32, w: i32, h: i32, speed: i32) -> (p: Player)
        requires
            -COORD_LIMIT <= x <= COORD_LIMIT,
            -COORD_LIMIT <= y <= COORD_LIMIT,
            -1000 <= w <= 1000,
            -1000 <= h <= 1000,
            0 <= speed <= 1000,
        ensures
            p == (Player {
                block_timer: 0u32,
                block: false,
                health: 3i32,
                size: Vec2i { x: w, y: h },
                pos: Vec2i { x, y },
                speed,
                sword_pos: Vec2i { x: 0, y: 0 },
                strike_pos: Vec2i { x: 0, y: 0 },
                invulnerable: false,
                damage_timer: 0u32,
                state: CombatState::Idle,
            }),
            p.wf(),
    {
        Player {
            block_timer: 0,
            block: false,
            health: 3,
            size: Vec2i { x: w, y: h },
            pos: Vec2i { x, y },
            speed,
            sword_pos: Vec2i { x: 0, y: 0 },
            strike_pos: Vec2i { x: 0, y: 0 },
            invulnerable: false,
            damage_timer: 0,
            state: CombatState::Idle,
        }
    }

    /// One damage event against the protagonist. A raised block suppresses
    /// it entirely; an active invulnerability window ignores it; otherwise
    /// health drops by exactly one (floored at zero) and the
    /// invulnerability window opens.
    pub open spec fn spec_take_damage(p: Player) -> Player {
        if !p.invulnerable && !p.block {
            Player {
                invulnerable: true,
                health: if p.health >= 1 {
                    (p.health - 1) as i32
                } else {
                    0
                },
                ..p
            }
        } else {
            p
        }
    }

    pub fn take_damage(&mut self)
        requires
            old(self).wf(),
        ensures
            *final(self) == Player::spec_take_damage(*old(self)),
            old(self).block ==> *final(self) == *old(self),
            old(self).invulnerable ==> *final(self) == *old(self),
            final(self).wf(),
    {
        if !self.invulnerable && !self.block {
            self.invulnerable = true;
            self.health = self.health - 1;
            if self.health < 0 {
                self.health = 0;
            }
        }
    }

    /// Advances the invulnerability window by `dt` milliseconds; the flag
    /// clears once more than `INVULN_MS` have accumulated.
    pub open spec fn spec_tick_damage(p: Player, dt: u32) -> Player {
        if p.invulnerable {
            if p.damage_timer + dt > INVULN_MS {
                Player { damage_timer: 0u32, invulnerable: false, ..p }
            } else {
                Player { damage_timer: (p.damage_timer + dt) as u32, ..p }
            }
        } else {
            p
        }
    }

    /// Advances the block and its cooldown by `dt` milliseconds: an active
    /// block drops after `BLOCK_ACTIVE_MS` and enters the cooldown, which
    /// then counts down to zero.
    pub open spec fn spec_tick_block(p: Player, dt: u32) -> Player {
        if p.block {
            if p.block_timer + dt > BLOCK_ACTIVE_MS {
                Player { block: false, block_timer: BLOCK_COOLDOWN_MS, ..p }
            } else {
                Player { block_timer: (p.block_timer + dt) as u32, ..p }
            }
        } else if p.block_timer > 0 {
            Player {
                block_timer: if p.block_timer >= dt {
                    (p.block_timer - dt) as u32
                } else {
                    0u32
                },
                ..p
            }
        } else {
            p
        }
    }

    /// What one frame does to both timed flags.
    pub open spec fn spec_update_timers(p: Player, dt: u32) -> Player {
        Player::spec_tick_block(Player::spec_tick_damage(p, dt), dt)
    }

    /// Advances the invulnerability window and the block/cooldown timers by
    /// one frame of `dt_ms` milliseconds.
    pub fn update_timers(&mut self, dt_ms: u32)
        requires
            old(self).wf(),
            dt_ms <= 1000000,
        ensures
            *final(self) == Player::spec_update_timers(*old(self), dt_ms),
            final(self).wf(),
            final(self).health == old(self).health,
            final(self).pos == old(self).pos,
    {
        if self.invulnerable {
            let t = self.damage_timer + dt_ms;
            if t > INVULN_MS {
                self.damage_timer = 0;
                self.invulnerable = false;
            } else {
                self.damage_timer = t;
            }
        }
        if self.block {
            let t = self.block_timer + dt_ms;
            if t > BLOCK_ACTIVE_MS {
                self.block = false;
                self.block_timer = BLOCK_COOLDOWN_MS;
            } else {
                self.block_timer = t;
            }
        } else if self.block_timer > 0 {
            if self.block_timer >= dt_ms {
                self.block_timer = self.block_timer - dt_ms;
            } else {
                self.block_timer = 0;
            }
        }
    }

    /// Raises the block, allowed only when no block is up, its cooldown has
    /// fully elapsed, and no attack cycle is in progress.
    pub fn try_block(&mut self)
        requires
            old(self).wf(),
        ensures
            *final(self) == if !old(self).block && old(self).block_timer == 0 && old(self).state
                is Idle {
                Player { block: true, ..*old(self) }
            } else {
                *old(self)
            },
            final(self).wf(),
    {
        if !self.block && self.block_timer == 0 {
            if let CombatState::Idle = self.state {
                self.block = true;
            }
        }
    }

    /// What the attack input does to the protagonist: only when idle, not
    /// blocking and actually pressed does a new cycle start, fixing the
    /// strike point from the body toward the aim.
    pub open spec fn spec_attack_self(p: Player, aim: Vec2i, attack_pressed: bool) -> Player {
        if p.state is Idle && attack_pressed && !p.block {
            Player {
                state: CombatState::WindingUp,
                strike_pos: Vec2i {
                    x: (p.pos.x + spec_scale_toward(
                        Vec2i { x: (aim.x - p.pos.x) as i32, y: (aim.y - p.pos.y) as i32 },
                        PLAYER_STRIKE_REACH as int,
                    ).x) as i32,
                    y: (p.pos.y + spec_scale_toward(
                        Vec2i { x: (aim.x - p.pos.x) as i32, y: (aim.y - p.pos.y) as i32 },
                        PLAYER_STRIKE_REACH as int,
                    ).y) as i32,
                },
                ..p
            }
        } else {
            p
        }
    }

    /// Handles the frame's attack input and contact: a press while idle
    /// (and not blocking) starts a new cycle toward the aim point; while
    /// the weapon is in its striking phase, every hostile within the
    /// contact radius of the weapon suffers one damage event (each guarded
    /// by its own invulnerability, not by the attacker).
    pub fn attack(&mut self, enemies: &mut Vec<crate::enemy::Enemy>, aim: Vec2i, attack_pressed: bool)
        requires
            old(self).wf(),
            aim.spec_in_range(),
            forall|i: int| 0 <= i < old(enemies)@.len() ==> (#[trigger] old(enemies)@[i]).wf(),
        ensures
            *final(self) == Player::spec_attack_self(*old(self), aim, attack_pressed),
            final(self).wf(),
            final(enemies)@.len() == old(enemies)@.len(),
            forall|i: int|
                0 <= i < old(enemies)@.len() ==> final(enemies)@[i] == (
                if old(self).state is Striking && spec_dist_sq(
                    (#[trigger] old(enemies)@[i]).pos,
                    old(self).sword_pos,
                ) < CONTACT_RADIUS_SQ {
                    crate::enemy::Enemy::spec_take_damage(old(enemies)@[i])
                } else {
                    old(enemies)@[i]
                }),
            forall|i: int| 0 <= i < final(enemies)@.len() ==> (#[trigger] final(enemies)@[i]).wf(),
    {
        let striking = if let CombatState::Striking = self.state {
            true
        } else {
            false
        };
        if striking {
            let n = enemies.len();
            let mut i: usize = 0;
            while i < n
                invariant
                    n == enemies@.len(),
                    n == old(enemies)@.len(),
                    0 <= i <= n,
                    old(self).wf(),
                    forall|j: int|
                        0 <= j < old(enemies)@.len() ==> (#[trigger] old(enemies)@[j]).wf(),
                    forall|j: int| i <= j < n ==> #[trigger] enemies@[j] == old(enemies)@[j],
                    forall|j: int|
                        0 <= j < i ==> #[trigger] enemies@[j] == (
                        if spec_dist_sq(old(enemies)@[j].pos, old(self).sword_pos)
                            < CONTACT_RADIUS_SQ {
                            crate::enemy::Enemy::spec_take_damage(old(enemies)@[j])
                        } else {
                            old(enemies)@[j]
                        }),
                    forall|j: int| 0 <= j < n ==> (#[trigger] enemies@[j]).wf(),
                decreases n - i,
            {
                let hit = {
                    let e = &enemies[i];
                    dist_sq(e.pos(), self.sword_pos) < CONTACT_RADIUS_SQ
                };
                if hit {
                    let ghost pre = enemies@;
                    let mut e = enemies.remove(i);
                    e.take_damage();
                    enemies.insert(i, e);
                    proof {
                        assert(enemies@ =~= pre.update(i as int, e));
                    }
                }
                i = i + 1;
            }
        }
        if attack_pressed && !self.block {
            if let CombatState::Idle = self.state {
                self.state = CombatState::WindingUp;
                let delta = Vec2i { x: aim.x - self.pos.x, y: aim.y - self.pos.y };
                let off = scale_toward(delta, PLAYER_STRIKE_REACH);
                self.strike_pos = Vec2i { x: self.pos.x + off.x, y: self.pos.y + off.y };
            }
        }
    }

    /// The weapon's resting position for an aim point: offset from the body
    /// toward the aim by the resting reach.
    pub open spec fn spec_rest_pos(p: Player, aim: Vec2i) -> Vec2i {
        Vec2i {
            x: (p.pos.x + spec_scale_toward(
                Vec2i { x: (aim.x - p.pos.x) as i32, y: (aim.y - p.pos.y) as i32 },
                PLAYER_REST_REACH as int,
            ).x) as i32,
            y: (p.pos.y + spec_scale_toward(
                Vec2i { x: (aim.x - p.pos.x) as i32, y: (aim.y - p.pos.y) as i32 },
                PLAYER_REST_REACH as int,
            ).y) as i32,
        }
    }

    /// One frame of the weapon state machine, given the current aim point.
    ///
    /// Idle keeps the weapon at rest. WindingUp interpolates it toward the
    /// strike point and fires once within 5 units of it. Striking swings
    /// back toward rest (contact is dealt by `attack` in this phase) and
    /// yields to Recovering within 6 units of rest; Recovering settles and
    /// returns to Idle within 3 units of rest.
    pub open spec fn spec_update_weapon(p: Player, aim: Vec2i) -> Player {
        let rest = Player::spec_rest_pos(p, aim);
        match p.state {
            CombatState::Idle => Player { sword_pos: rest, ..p },
            CombatState::WindingUp => {
                if spec_dist_sq(p.sword_pos, p.strike_pos) < 25 {
                    Player { state: CombatState::Striking, ..p }
                } else {
                    Player { sword_pos: spec_step_toward(p.sword_pos, p.strike_pos, 1, 10), ..p }
                }
            },
            CombatState::Striking => {
                if spec_dist_sq(p.sword_pos, rest) < 36 {
                    Player { state: CombatState::Recovering, ..p }
                } else {
                    Player { sword_pos: spec_step_toward(p.sword_pos, rest, 1, 2), ..p }
                }
            },
            CombatState::Recovering => {
                if spec_dist_sq(p.sword_pos, rest) < 9 {
                    Player { state: CombatState::Idle, sword_pos: rest, ..p }
                } else {
                    Player { sword_pos: spec_step_toward(p.sword_pos, rest, 1, 2), ..p }
                }
            },
        }
    }

    fn rest_pos(&self, aim: Vec2i) -> (r: Vec2i)
        requires
            self.wf(),
            aim.spec_in_range(),
        ensures
            r == Player::spec_rest_pos(*self, aim),
            -COORD_LIMIT - 50 <= r.x <= COORD_LIMIT + 50,
            -COORD_LIMIT - 50 <= r.y <= COORD_LIMIT + 50,
    {
        let delta = Vec2i { x: aim.x - self.pos.x, y: aim.y - self.pos.y };
        let off = scale_toward(delta, PLAYER_REST_REACH);
        Vec2i { x: self.pos.x + off.x, y: self.pos.y + off.y }
    }

    /// Advances the weapon animation one frame toward the current aim.
    pub fn update_weapon(&mut self, aim: Vec2i)
        requires
            old(self).wf(),
            aim.spec_in_range(),
        ensures
            *final(self) == Player::spec_update_weapon(*old(self), aim),
            final(self).wf(),
    {
        let rest = self.rest_pos(aim);
        match self.state {
            CombatState::Idle => {
                self.sword_pos = rest;
            },
            CombatState::WindingUp => {
                if dist_sq(self.sword_pos, self.strike_pos) < 25 {
                    self.state = CombatState::Striking;
                } else {
                    self.sword_pos = step_toward(self.sword_pos, self.strike_pos, 1, 10);
                }
            },
            CombatState::Striking => {
                if dist_sq(self.sword_pos, rest) < 36 {
                    self.state = CombatState::Recovering;
                } else {
                    self.sword_pos = step_toward(self.sword_pos, rest, 1, 2);
                }
            },
            CombatState::Recovering => {
                if dist_sq(self.sword_pos, rest) < 9 {
                    self.state = CombatState::Idle;
                    self.sword_pos = rest;
                } else {
                    self.sword_pos = step_toward(self.sword_pos, rest, 1, 2);
                }
            },
        }
    }

    /// The magnitude moved in one frame: speed scaled by elapsed time, with
    /// the diagonal case scaled down by `707 / 1000` so diagonal movement
    /// is no faster than movement along an axis.
    pub open spec fn spec_move_mag(speed: int, dt: int, diagonal: bool) -> int {
        if diagonal {
            speed * dt * 707 / 1000000
        } else {
            speed * dt / 1000
        }
    }

    /// The candidate position for a frame's movement intent, before
    /// collision resolution.
    pub open spec fn spec_move_candidate(p: Player, intent: Vec2i, dt: int) -> Vec2i {
        let d = Player::spec_move_mag(p.speed as int, dt, intent.x != 0 && intent.y != 0);
        Vec2i { x: (p.pos.x + intent.x * d) as i32, y: (p.pos.y + intent.y * d) as i32 }
    }

    /// Integrates a movement intent over the elapsed frame time and
    /// resolves collisions per axis: a blocked axis keeps its old
    /// coordinate, the other still applies.
    pub fn move_player(&mut self, intent: Vec2i, dt_ms: u32, tiles: &Vec<Tile>)
        requires
            old(self).wf(),
            -1 <= intent.x <= 1,
            -1 <= intent.y <= 1,
            dt_ms <= 1000,
            -COORD_LIMIT + 2000 <= old(self).pos.x <= COORD_LIMIT - 2000,
            -COORD_LIMIT + 2000 <= old(self).pos.y <= COORD_LIMIT - 2000,
        ensures
            ({
                let cand = Player::spec_move_candidate(*old(self), intent, dt_ms as int);
                *final(self) == Player {
                    pos: spec_resolve_move(old(self).pos, cand, intent, tiles@),
                    ..*old(self)
                }
            }),
            final(self).wf(),
    {
        let sp = self.speed;
        proof {
            assert((sp as u64) * (dt_ms as u64) <= 1000000) by (nonlinear_arith)
                requires
                    0 <= sp <= 1000,
                    0 <= dt_ms <= 1000,
            ;
        }
        let prod: u64 = (sp as u64) * (dt_ms as u64);
        proof {
            assert(prod * 707 <= 707000000) by (nonlinear_arith)
                requires
                    0 <= prod <= 1000000,
            ;
        }
        let d: i32 = if intent.x != 0 && intent.y != 0 {
            ((prod * 707) / 1000000) as i32
        } else {
            (prod / 1000) as i32
        };
        proof {
            assert(-1000 <= intent.x * d <= 1000) by (nonlinear_arith)
                requires
                    -1 <= intent.x <= 1,
                    0 <= d <= 1000,
            ;
            assert(-1000 <= intent.y * d <= 1000) by (nonlinear_arith)
                requires
                    -1 <= intent.y <= 1,
                    0 <= d <= 1000,
            ;
        }
        let cand = Vec2i { x: self.pos.x + intent.x * d, y: self.pos.y + intent.y * d };
        self.pos = resolve_move(self.pos, cand, intent, tiles);
    }

    /// Moves the protagonist onto the first `PlayerSpawn` tile, if the grid
    /// has one; otherwise leaves the position unchanged.
    pub fn spawn_player(&mut self, tiles: &Vec<Tile>)
        requires
            old(self).wf(),
            spec_tiles_in_range(tiles@),
        ensures
            ({
                let ts = tiles@;
                match spec_first_spawn(ts) {
                    Some(p) => *final(self) == Player { pos: p, ..*old(self) },
                    None => *final(self) == *old(self),
                }
            }),
            final(self).wf(),
    {
        let n = tiles.len();
        let mut i: usize = 0;
        let ghost self0 = *self;
        while i < n
            invariant
                n == tiles@.len(),
                0 <= i <= n,
                *self == self0,
                self0 == *old(self),
                self0.wf(),
                spec_tiles_in_range(tiles@),
                forall|j: int| 0 <= j < i ==> !spec_is_spawn(tiles@[j].tile_type),
                spec_first_spawn(tiles@) == spec_first_spawn_from(tiles@, i as int),
            decreases n - i,
        {
            let t = &tiles[i];
            if let crate::tile::TileType::PlayerSpawn(_) = t.tile_type() {
                proof {
                    assert(tiles@[i as int].pos.spec_in_range());
                }
                self.pos = t.pos();
                return ;
            }
            i = i + 1;
        }
    }
}

/// Total simulated time of a sequence of frame durations, in milliseconds.
pub open spec fn spec_sum_ms(dts: Seq<u32>) -> int
    decreases dts.len(),
{
    if dts.len() == 0 {
        0
    } else {
        dts[0] + spec_sum_ms(dts.drop_first())
    }
}

/// The protagonist after a sequence of frames that only advance timers.
pub open spec fn spec_frames(p: Player, dts: Seq<u32>) -> Player
    decreases dts.len(),
{
    if dts.len() == 0 {
        p
    } else {
        spec_frames(Player::spec_update_timers(p, dts[0]), dts.drop_first())
    }
}

/// While the accumulated time stays within the invulnerability window, the
/// flag stays up and health is untouched, however the frames are divided.
proof fn lemma_frames_keep_invulnerable(p: Player, dts: Seq<u32>)
    requires
        p.invulnerable,
        p.damage_timer + spec_sum_ms(dts) <= INVULN_MS,
    ensures
        spec_frames(p, dts).invulnerable,
        spec_frames(p, dts).damage_timer == p.damage_timer + spec_sum_ms(dts),
        spec_frames(p, dts).health == p.health,
    decreases dts.len(),
{
    if dts.len() > 0 {
        let q = Player::spec_update_timers(p, dts[0]);
        assert(spec_sum_ms(dts.drop_first()) >= 0) by {
            lemma_sum_ms_nonneg(dts.drop_first());
        }
        lemma_frames_keep_invulnerable(q, dts.drop_first());
    }
}

pub proof fn lemma_sum_ms_nonneg(dts: Seq<u32>)
    ensures
        spec_sum_ms(dts) >= 0,
    decreases dts.len(),
{
    if dts.len() > 0 {
        lemma_sum_ms_nonneg(dts.drop_first());
    }
}

/// Invulnerability: two damage events within the invulnerability window
/// (1.5 simulated seconds), with any sequence of frames in between, reduce
/// health by exactly one, not two.
pub proof fn lemma_invulnerability_window(p: Player, dts: Seq<u32>)
    requires
        p.wf(),
        !p.invulnerable,
        !p.block,
        spec_sum_ms(dts) <= INVULN_MS,
    ensures
        ({
            let afterwards = Player::spec_take_damage(
                spec_frames(Player::spec_take_damage(p), dts),
            );
            afterwards.health == if p.health >= 1 {
                p.health - 1
            } else {
                0
            }
        }),
{
    let p1 = Player::spec_take_damage(p);
    lemma_sum_ms_nonneg(dts);
    lemma_frames_keep_invulnerable(p1, dts);
}

/// Blocking: a raised block suppresses a damage event entirely; in
/// particular, health does not change.
pub proof fn lemma_block_suppresses_damage(p: Player)
    requires
        p.block,
    ensures
        Player::spec_take_damage(p) == p,
{
}

/// The position of the first `PlayerSpawn` tile at or after index `i`.
pub open spec fn spec_first_spawn_from(tiles: Seq<Tile>, i: int) -> Option<Vec2i>
    decreases tiles.len() - i when 0 <= i <= tiles.len()
{
    if i >= tiles.len() {
        None
    } else if spec_is_spawn(tiles[i].tile_type) {
        Some(tiles[i].pos)
    } else {
        spec_first_spawn_from(tiles, i + 1)
    }
}

/// The position of the first `PlayerSpawn` tile of the grid, if any.
pub open spec fn spec_first_spawn(tiles: Seq<Tile>) -> Option<Vec2i> {
    spec_first_spawn_from(tiles, 0)
}

} // verus!

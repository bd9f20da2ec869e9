use dungeon_core::combat::CombatState;
use dungeon_core::enemy::{remove_defeated, Enemy};
use dungeon_core::geometry::Vec2i;
use dungeon_core::player::Player;

fn v(x: i32, y: i32) -> Vec2i {
    Vec2i::new(x, y)
}

#[test]
fn player_damage_and_floor() {
    let mut p = Player::new(0, 0, 32, 32, 100);
    assert_eq!(p.health(), 3);
    p.take_damage();
    assert_eq!(p.health(), 2);
    assert!(p.invulnerable);
}

#[test]
fn invulnerability_window_absorbs_second_hit() {
    // two damage events within 1.5 simulated seconds lose exactly 1 health
    let mut p = Player::new(0, 0, 32, 32, 100);
    p.take_damage();
    p.update_timers(700);
    p.update_timers(800);
    p.take_damage();
    assert_eq!(p.health(), 2);
    // once the window has passed, damage lands again
    p.update_timers(1501);
    p.take_damage();
    assert_eq!(p.health(), 1);
}

#[test]
fn enemy_invulnerability_window() {
    let mut e = Enemy::new(v(0, 0));
    e.take_damage();
    e.tick_invulnerability(1000);
    e.take_damage();
    assert_eq!(e.health(), 2);
    e.tick_invulnerability(1501);
    e.take_damage();
    assert_eq!(e.health(), 1);
}

#[test]
fn blocking_suppresses_damage() {
    // protagonist at health 3 takes damage while blocking: health stays 3
    let mut p = Player::new(0, 0, 32, 32, 100);
    p.try_block();
    assert!(p.block);
    p.take_damage();
    assert_eq!(p.health(), 3);
    assert!(!p.invulnerable, "a blocked hit opens no invulnerability window");
}

#[test]
fn block_cooldown_gates_reblock() {
    let mut p = Player::new(0, 0, 32, 32, 100);
    p.try_block();
    assert!(p.block);
    // block expires after 2 s and enters a 3 s cooldown
    p.update_timers(2001);
    assert!(!p.block);
    assert_eq!(p.block_timer, 3000);
    p.try_block();
    assert!(!p.block, "cannot re-block during the cooldown");
    p.update_timers(3000);
    assert_eq!(p.block_timer, 0);
    p.try_block();
    assert!(p.block);
}

#[test]
fn health_floors_at_zero() {
    let mut p = Player::new(0, 0, 32, 32, 100);
    for _ in 0..5 {
        p.take_damage();
        p.update_timers(1501);
    }
    assert_eq!(p.health(), 0);
}

#[test]
fn enemy_strike_damages_player_in_contact() {
    let mut e = Enemy::new(v(0, 0));
    e.state = CombatState::Striking;
    e.sword_pos = v(40, 0);
    let mut p = Player::new(50, 0, 32, 32, 100);
    e.damage_player(&mut p);
    assert_eq!(p.health(), 2, "within the 19-unit contact radius");
    let mut q = Player::new(100, 0, 32, 32, 100);
    e.damage_player(&mut q);
    assert_eq!(q.health(), 3, "outside the contact radius");
    let mut idle = Enemy::new(v(0, 0));
    idle.sword_pos = v(40, 0);
    let mut r = Player::new(50, 0, 32, 32, 100);
    idle.damage_player(&mut r);
    assert_eq!(r.health(), 3, "no contact outside the striking phase");
}

#[test]
fn player_attack_cycle_reaches_strike() {
    let mut p = Player::new(0, 0, 32, 32, 100);
    let aim = v(200, 0);
    let enemies: &mut Vec<Enemy> = &mut Vec::new();
    p.update_weapon(aim);
    p.attack(enemies, aim, true);
    assert!(matches!(p.state, CombatState::WindingUp));
    for _ in 0..200 {
        p.update_weapon(aim);
    }
    assert!(
        matches!(p.state, CombatState::Idle),
        "the cycle must wind up, strike, recover and come back to idle"
    );
}

#[test]
fn player_strike_hits_enemy_once_guarded_by_enemy_invulnerability() {
    let mut p = Player::new(0, 0, 32, 32, 100);
    p.state = CombatState::Striking;
    p.sword_pos = v(40, 0);
    let mut enemies = vec![Enemy::new(v(45, 0)), Enemy::new(v(500, 500))];
    p.attack(&mut enemies, v(200, 0), false);
    assert_eq!(enemies[0].health(), 2);
    assert_eq!(enemies[1].health(), 3);
    // the same strike cannot hit again: the defender is invulnerable
    p.attack(&mut enemies, v(200, 0), false);
    assert_eq!(enemies[0].health(), 2);
}

#[test]
fn enemy_commit_timer_and_windup() {
    let mut e = Enemy::new(v(0, 0));
    e.set_player_spotted(true);
    let target = v(30, 0);
    // the commit timer starts at 2000 ms and must pass 2500 ms in range
    e.update_weapon(target, 400);
    assert!(matches!(e.state, CombatState::Idle));
    e.update_weapon(target, 200);
    assert!(matches!(e.state, CombatState::WindingUp));
    // disengaging aborts the cycle
    e.update_weapon(v(500, 500), 16);
    assert!(matches!(e.state, CombatState::Idle));
}

#[test]
fn enemy_speed_is_sampled_in_range() {
    for _ in 0..32 {
        let e = Enemy::new(v(0, 0));
        assert!((90..=105).contains(&e.speed()));
    }
}

#[test]
fn remove_defeated_keeps_survivors_in_order() {
    let mut enemies = vec![Enemy::new(v(0, 0)), Enemy::new(v(32, 0)), Enemy::new(v(64, 0))];
    enemies[0].health = 0;
    enemies[2].health = 0;
    remove_defeated(&mut enemies);
    assert_eq!(enemies.len(), 1);
    assert_eq!(enemies[0].pos(), v(32, 0));
}

#[test]
fn displacement_pushes_apart() {
    let mut a = Enemy::new(v(0, 0));
    let b = Enemy::new(v(10, 0));
    a.displace(&b, 1000);
    assert!(a.pos().x < 0, "pushed directly away from the other agent");
    assert_eq!(a.pos().y, 0);
    let mut c = Enemy::new(v(0, 0));
    let far = Enemy::new(v(100, 0));
    c.displace(&far, 1000);
    assert_eq!(c.pos(), v(0, 0), "no push outside the separation radius");
}

//! The shared combat state machine: an attack cycle sequences windup,
//! strike and recovery through timed weapon interpolation; defenders carry a
//! timed invulnerability window, and the protagonist a timed block with a
//! cooldown.
use vstd::prelude::*;

verus! {

/// The attacker-side phase of an entity's combat cycle.
#[derive(Clone, Copy, PartialEq, Eq, Structural, Debug)]
pub enum CombatState {
    /// Not attacking; the weapon tracks its resting offset.
    Idle,
    /// The weapon interpolates from rest toward the strike point.
    WindingUp,
    /// The weapon swings back toward rest; contact deals damage.
    Striking,
    /// The weapon settles back to rest; no contact is dealt.
    Recovering,
}

/// How long a defender stays invulnerable after taking damage.
pub const INVULN_MS: u32 = 1500;

/// How long the protagonist's block stays up once raised.
pub const BLOCK_ACTIVE_MS: u32 = 2000;

/// The cooldown that follows a finished block.
pub const BLOCK_COOLDOWN_MS: u32 = 3000;

/// Squared contact radius of a striking weapon (19 world units).
pub const CONTACT_RADIUS_SQ: u64 = 361;

} // verus!

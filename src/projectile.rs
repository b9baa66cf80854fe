use vstd::prelude::*;

verus! {

/// The kinds of projectiles.
#[derive(Debug, Clone, Copy, PartialEq, Eq, Structural)]
pub enum ProjectileType {
    Fireball,
}

/// The replicated part of a projectile.
#[derive(Debug, Clone, Copy, PartialEq, Eq, Structural)]
pub struct ProjectileState {
    pub projectile_type: ProjectileType,
}

} // verus!

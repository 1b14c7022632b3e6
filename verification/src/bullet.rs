//! Bullets: fired by a ship, owned by it, and gone a fixed time later.

use crate::vector::Vec2;
use vstd::prelude::*;

verus! {

/// Bit pattern of the radius of every bullet, the single-precision number
/// two.
pub const BULLET_SIZE: u32 = 0x4000_0000;

/// How long a bullet lives after it was fired, in microseconds.
pub const BULLET_LIFETIME: u64 = 1_500_000;

/// One bullet. `shot_at` is the time at which it was fired, on the clock of
/// the peer that fired it.
#[derive(Clone, Copy, Debug, PartialEq, Eq, Structural)]
pub struct Bullet {
    pub pos: Vec2,
    pub vel: Vec2,
    pub shot_at: u64,
    pub size: u32,
    pub collided: bool,
}

/// A bullet fired at `shot_at` is still in flight at `frame_t`.
pub open spec fn in_flight(bullet: Bullet, frame_t: u64) -> bool {
    bullet.shot_at + BULLET_LIFETIME > frame_t
}

impl Bullet {
    /// A bullet of the standard radius.
    pub fn new(pos: Vec2, vel: Vec2, shot_at: u64, collided: bool) -> (b: Self)
        ensures
            b == (Bullet { pos, vel, shot_at, size: BULLET_SIZE, collided }),
    {
        Bullet { pos, vel, shot_at, collided, size: BULLET_SIZE }
    }

    pub fn shot_at(&self) -> (r: u64)
        ensures
            r == self.shot_at,
    {
        self.shot_at
    }

    pub fn set_collided(&mut self, collided: bool)
        ensures
            *final(self) == (Bullet { collided, ..*old(self) }),
    {
        self.collided = collided;
    }

    pub fn collided(&self) -> (r: bool)
        ensures
            r == self.collided,
    {
        self.collided
    }

    pub fn vel(&self) -> (r: Vec2)
        ensures
            r == self.vel,
    {
        self.vel
    }

    pub fn pos(&self) -> (r: Vec2)
        ensures
            r == self.pos,
    {
        self.pos
    }

    pub fn size(&self) -> (r: u32)
        ensures
            r == self.size,
    {
        self.size
    }

    /// Whether the bullet is still in flight at `frame_t`.
    pub fn is_in_flight(&self, frame_t: u64) -> (r: bool)
        ensures
            r == in_flight(*self, frame_t),
    {
        frame_t < BULLET_LIFETIME || frame_t - BULLET_LIFETIME < self.shot_at
    }
}

} // verus!

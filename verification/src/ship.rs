//! Ships: one per player, matched across peers by the player's name.

use crate::bullet::{in_flight, Bullet};
use crate::vector::Vec2;
use vstd::prelude::*;

verus! {

/// Bit pattern of the radius of every new ship: a third of the ship's
/// height of twenty-five, in single precision.
pub const SHIP_SIZE: u32 = 0x4105_5555;

/// One ship with the bullets it has fired.
pub struct Ship {
    pub name: String,
    pub pos: Vec2,
    pub vel: Vec2,
    pub acc: Vec2,
    pub rot: u32,
    pub size: u32,
    pub collided: bool,
    pub bullets: Vec<Bullet>,
}

/// What a ship holds, with its name as a sequence of characters and its
/// bullets as a sequence.
pub struct ShipView {
    pub name: Seq<char>,
    pub pos: Vec2,
    pub vel: Vec2,
    pub acc: Vec2,
    pub rot: u32,
    pub size: u32,
    pub collided: bool,
    pub bullets: Seq<Bullet>,
}

impl View for Ship {
    type V = ShipView;

    open spec fn view(&self) -> ShipView {
        ShipView {
            name: self.name@,
            pos: self.pos,
            vel: self.vel,
            acc: self.acc,
            rot: self.rot,
            size: self.size,
            collided: self.collided,
            bullets: self.bullets@,
        }
    }
}

/// The ship of a player who has just joined: at rest at `center`, heading
/// up, intact, with no bullets.
pub open spec fn new_ship(name: Seq<char>, center: Vec2) -> ShipView {
    ShipView {
        name,
        pos: center,
        vel: Vec2 { x: 0, y: 0 },
        acc: Vec2 { x: 0, y: 0 },
        rot: 0,
        size: SHIP_SIZE,
        collided: false,
        bullets: Seq::empty(),
    }
}

/// The views of a list of ships.
pub open spec fn ship_views(ships: Seq<Ship>) -> Seq<ShipView> {
    Seq::new(ships.len(), |i: int| ships[i]@)
}

impl Ship {
    /// The ship of the player `name`, placed at `center`.
    pub fn new(name: String, center: Vec2) -> (ship: Self)
        ensures
            ship@ == new_ship(name@, center),
    {
        Ship {
            name,
            pos: center,
            vel: Vec2::zero(),
            acc: Vec2::zero(),
            rot: 0,
            size: SHIP_SIZE,
            collided: false,
            bullets: Vec::new(),
        }
    }

    pub fn name(&self) -> (r: String)
        ensures
            r@ == self@.name,
    {
        self.name.clone()
    }

    pub fn pos(&self) -> (r: Vec2)
        ensures
            r == self.pos,
    {
        self.pos
    }

    pub fn size(&self) -> (r: u32)
        ensures
            r == self.size,
    {
        self.size
    }

    pub fn vel(&self) -> (r: Vec2)
        ensures
            r == self.vel,
    {
        self.vel
    }

    pub fn rot(&self) -> (r: u32)
        ensures
            r == self.rot,
    {
        self.rot
    }

    pub fn set_rot(&mut self, rot: u32)
        ensures
            final(self)@ == (ShipView { rot, ..old(self)@ }),
    {
        self.rot = rot;
    }

    pub fn collided(&self) -> (r: bool)
        ensures
            r == self.collided,
    {
        self.collided
    }

    pub fn set_collided(&mut self, collided: bool)
        ensures
            final(self)@ == (ShipView { collided, ..old(self)@ }),
    {
        self.collided = collided;
    }

    /// Fires a bullet at `frame_t`: a fresh bullet that leaves from `muzzle`
    /// with velocity `vel` joins the end of the ship's bullets.
    pub fn shoot(&mut self, muzzle: Vec2, vel: Vec2, frame_t: u64)
        ensures
            final(self)@ == (ShipView {
                bullets: old(self)@.bullets.push(
                    Bullet { pos: muzzle, vel, shot_at: frame_t, size: crate::bullet::BULLET_SIZE, collided: false },
                ),
                ..old(self)@
            }),
    {
        self.bullets.push(Bullet::new(muzzle, vel, frame_t, false));
    }

    /// Drops the bullets that are no longer in flight at `frame_t` and
    /// keeps the others in their order.
    pub fn expire_bullets(&mut self, frame_t: u64)
        ensures
            final(self)@ == (ShipView {
                bullets: old(self)@.bullets.filter(|b: Bullet| in_flight(b, frame_t)),
                ..old(self)@
            }),
    {
        let ghost before = self.bullets@;
        let mut kept: Vec<Bullet> = Vec::new();
        let mut i: usize = 0;
        proof {
            reveal(Seq::filter);
        }
        while i < self.bullets.len()
            invariant
                i <= self.bullets.len(),
                self.bullets@ == before,
                self@ == old(self)@,
                kept@ == before.take(i as int).filter(|b: Bullet| in_flight(b, frame_t)),
            decreases self.bullets.len() - i,
        {
            let bullet = self.bullets[i];
            proof {
                reveal(Seq::filter);
                assert(before.take(i + 1).drop_last() =~= before.take(i as int));
            }
            if bullet.is_in_flight(frame_t) {
                kept.push(bullet);
            }
            i += 1;
        }
        proof {
            assert(before.take(i as int) =~= before);
        }
        self.bullets = kept;
    }
}

impl Clone for Ship {
    fn clone(&self) -> (copy: Self)
        ensures
            copy@ == self@,
    {
        let mut bullets: Vec<Bullet> = Vec::new();
        let mut i: usize = 0;
        while i < self.bullets.len()
            invariant
                i <= self.bullets.len(),
                bullets@ == self.bullets@.take(i as int),
            decreases self.bullets.len() - i,
        {
            bullets.push(self.bullets[i]);
            proof {
                assert(self.bullets@.take(i + 1) =~= self.bullets@.take(i as int).push(
                    self.bullets@[i as int],
                ));
            }
            i += 1;
        }
        proof {
            assert(self.bullets@.take(i as int) =~= self.bullets@);
        }
        Ship {
            name: self.name.clone(),
            pos: self.pos,
            vel: self.vel,
            acc: self.acc,
            rot: self.rot,
            size: self.size,
            collided: self.collided,
            bullets,
        }
    }
}

/// Copies of the ships in `players`, in the same order.
pub fn copy_ships(players: &Vec<Ship>) -> (copies: Vec<Ship>)
    ensures
        ship_views(copies@) == ship_views(players@),
{
    let mut copies: Vec<Ship> = Vec::new();
    let mut i: usize = 0;
    while i < players.len()
        invariant
            i <= players.len(),
            copies@.len() == i,
            forall|j: int| 0 <= j < i ==> (#[trigger] copies@[j])@ == players@[j]@,
        decreases players.len() - i,
    {
        copies.push(players[i].clone());
        i += 1;
    }
    assert(ship_views(copies@) =~= ship_views(players@));
    copies
}

} // verus!

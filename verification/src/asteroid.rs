//! The asteroid record and the keys under which asteroids are filed.
//!
//! Times are whole microseconds on the session clock. Coordinates, sizes
//! and angles are carried as bit patterns (see [`crate::vector`]).

use crate::text::{chars_of, digit_str, lemma_six_digits_injective, matches_at, six_digits};
use crate::vector::Vec2;
use core::cmp::Ordering;
use vstd::prelude::*;
use vstd::std_specs::cmp::{PartialEqSpecImpl, PartialOrdSpecImpl};
use vstd::string::*;

verus! {

/// Number of sides of a freshly created asteroid.
pub const INITIAL_SIDES: u8 = 8;

/// An asteroid that is hit splits only while it has more sides than this.
pub const SPLIT_THRESHOLD: u8 = 4;

/// One asteroid.
///
/// `last_updated` is the session time of the last authoritative change to
/// the record: its creation, its split, or the hit that marked it collided.
#[derive(Clone, Copy, Debug)]
pub struct Asteroid {
    pub pos: Vec2,
    pub vel: Vec2,
    pub rot: u32,
    pub rot_speed: u32,
    pub size: u32,
    pub sides: u8,
    pub collided: bool,
    pub last_updated: u64,
}

/// What the simulation draws for one fragment of a split asteroid: its
/// velocity, its initial angle and its spin.
#[derive(Clone, Copy, Debug)]
pub struct Fragment {
    pub vel: Vec2,
    pub rot: u32,
    pub rot_speed: u32,
}

impl Asteroid {
    /// A fresh eight-sided asteroid at `pos`, not yet collided, stamped with
    /// time zero and with angle zero.
    pub fn new(pos: Vec2, vel: Vec2, rot_speed: u32, size: u32) -> (a: Self)
        ensures
            a == (Asteroid {
                pos,
                vel,
                rot: 0,
                rot_speed,
                size,
                sides: INITIAL_SIDES,
                collided: false,
                last_updated: 0,
            }),
    {
        Asteroid {
            pos,
            vel,
            rot: 0,
            rot_speed,
            size,
            sides: INITIAL_SIDES,
            collided: false,
            last_updated: 0,
        }
    }

    /// A fresh asteroid like that of [`Asteroid::new`], placed at `(x, y)`.
    pub fn new_pos_and_size(x: u32, y: u32, size: u32, vel: Vec2, rot_speed: u32) -> (a: Self)
        ensures
            a == (Asteroid {
                pos: Vec2 { x, y },
                vel,
                rot: 0,
                rot_speed,
                size,
                sides: INITIAL_SIDES,
                collided: false,
                last_updated: 0,
            }),
    {
        Asteroid::new(Vec2::new(x, y), vel, rot_speed, size)
    }

    /// The two children of an asteroid of `sides` sides that was hit at
    /// `pos`: both start there with the given `size`, have one side less
    /// than their parent, are not collided and inherit `last_updated`.
    /// They differ in the motion drawn for each.
    pub fn new_split(
        pos: Vec2,
        first: Fragment,
        second: Fragment,
        size: u32,
        sides: u8,
        last_updated: u64,
    ) -> (children: Vec<Asteroid>)
        requires
            sides >= 1,
        ensures
            children@ == seq![
                split_child(pos, first, size, sides, last_updated),
                split_child(pos, second, size, sides, last_updated),
            ],
    {
        let mut new_asteroids: Vec<Asteroid> = Vec::new();
        let asteroid1 = Asteroid {
            pos,
            vel: first.vel,
            rot: first.rot,
            rot_speed: first.rot_speed,
            size,
            sides: sides - 1,
            collided: false,
            last_updated,
        };
        let asteroid2 = Asteroid {
            pos,
            vel: second.vel,
            rot: second.rot,
            rot_speed: second.rot_speed,
            size,
            sides: sides - 1,
            collided: false,
            last_updated,
        };
        new_asteroids.push(asteroid1);
        new_asteroids.push(asteroid2);
        assert(new_asteroids@ =~= seq![
            split_child(pos, first, size, sides, last_updated),
            split_child(pos, second, size, sides, last_updated),
        ]);
        new_asteroids
    }

    pub fn sides(&self) -> (r: u8)
        ensures
            r == self.sides,
    {
        self.sides
    }

    pub fn collided(&self) -> (r: bool)
        ensures
            r == self.collided,
    {
        self.collided
    }

    pub fn set_collided(&mut self, collided: bool)
        ensures
            *final(self) == (Asteroid { collided, ..*old(self) }),
    {
        self.collided = collided;
    }

    pub fn last_updated(&self) -> (r: u64)
        ensures
            r == self.last_updated,
    {
        self.last_updated
    }

    pub fn set_last_updated(&mut self, last_updated: u64)
        ensures
            *final(self) == (Asteroid { last_updated, ..*old(self) }),
    {
        self.last_updated = last_updated;
    }

    pub fn pos(&self) -> (r: Vec2)
        ensures
            r == self.pos,
    {
        self.pos
    }

    pub fn size(&self) -> (r: u32)
        ensures
            r == self.size,
    {
        self.size
    }

    /// Whether a hit splits this asteroid instead of only destroying it.
    pub fn splits(&self) -> (r: bool)
        ensures
            r == (self.sides > SPLIT_THRESHOLD),
    {
        self.sides > SPLIT_THRESHOLD
    }
}

/// The child that a split at `pos` creates from the motion `fragment`.
pub open spec fn split_child(
    pos: Vec2,
    fragment: Fragment,
    size: u32,
    sides: u8,
    last_updated: u64,
) -> Asteroid {
    Asteroid {
        pos,
        vel: fragment.vel,
        rot: fragment.rot,
        rot_speed: fragment.rot_speed,
        size,
        sides: (sides - 1) as u8,
        collided: false,
        last_updated,
    }
}

/// Two asteroids compare equal when they were last updated at the same
/// time, whatever else they hold.
impl PartialEq for Asteroid {
    fn eq(&self, other: &Self) -> (r: bool) {
        self.last_updated == other.last_updated
    }
}

impl PartialEqSpecImpl for Asteroid {
    open spec fn obeys_eq_spec() -> bool {
        true
    }

    open spec fn eq_spec(&self, other: &Self) -> bool {
        self.last_updated == other.last_updated
    }
}

/// Asteroids are ordered by the time of their last update.
impl PartialOrd for Asteroid {
    fn partial_cmp(&self, other: &Self) -> (r: Option<Ordering>) {
        if self.last_updated < other.last_updated {
            Some(Ordering::Less)
        } else if self.last_updated > other.last_updated {
            Some(Ordering::Greater)
        } else {
            Some(Ordering::Equal)
        }
    }
}

impl PartialOrdSpecImpl for Asteroid {
    open spec fn obeys_partial_cmp_spec() -> bool {
        true
    }

    open spec fn partial_cmp_spec(&self, other: &Self) -> Option<Ordering> {
        if self.last_updated < other.last_updated {
            Some(Ordering::Less)
        } else if self.last_updated > other.last_updated {
            Some(Ordering::Greater)
        } else {
            Some(Ordering::Equal)
        }
    }
}

/// The key under which the owner `owner` files its asteroid number `index`:
/// the owner's name, an underscore, and the index in six decimal digits.
pub open spec fn key_text(owner: Seq<char>, index: nat) -> Seq<char> {
    owner + seq!['_'] + six_digits(index)
}

/// A key determines both the owner and the index it was made from.
pub proof fn lemma_key_text_injective(owner1: Seq<char>, index1: nat, owner2: Seq<char>, index2: nat)
    requires
        index1 < 1000000,
        index2 < 1000000,
        key_text(owner1, index1) == key_text(owner2, index2),
    ensures
        owner1 == owner2,
        index1 == index2,
{
    let k1 = key_text(owner1, index1);
    let k2 = key_text(owner2, index2);
    assert(k1.len() == owner1.len() + 7);
    assert(k2.len() == owner2.len() + 7);
    assert(owner1 =~= k1.subrange(0, owner1.len() as int));
    assert(owner2 =~= k2.subrange(0, owner2.len() as int));
    assert(six_digits(index1) =~= k1.subrange(owner1.len() + 1 as int, owner1.len() + 7 as int));
    assert(six_digits(index2) =~= k2.subrange(owner2.len() + 1 as int, owner2.len() + 7 as int));
    lemma_six_digits_injective(index1, index2);
}

/// Builds the key of the asteroid number `index` of `owner`.
pub fn entity_key(owner: &str, index: u8) -> (key: String)
    ensures
        key@ == key_text(owner@, index as nat),
{
    proof {
        reveal_strlit("_000");
    }
    let mut key = String::from_str(owner);
    key.append("_000");
    key.append(digit_str(index / 100));
    key.append(digit_str((index / 10) % 10));
    key.append(digit_str(index % 10));
    assert(key@ =~= key_text(owner@, index as nat));
    key
}

/// `c` is one of the ten decimal digits.
pub open spec fn is_digit(c: char) -> bool {
    '0' as int <= c as int <= '9' as int
}

/// `key` has the form of a key of the peer `name`: the name, an underscore
/// and six decimal digits.
pub open spec fn made_by(name: Seq<char>, key: Seq<char>) -> bool {
    &&& key.len() == name.len() + 7
    &&& key.subrange(0, name.len() as int) == name
    &&& key[name.len() as int] == '_'
    &&& forall|j: int| 1 <= j <= 6 ==> is_digit(#[trigger] key[name.len() + j])
}

/// Every key that a peer makes for one of its asteroids has the form of
/// its keys.
pub proof fn lemma_own_key_is_made_by(name: Seq<char>, index: nat)
    requires
        index < 1000000,
    ensures
        made_by(name, key_text(name, index)),
{
    let key = key_text(name, index);
    assert(key.subrange(0, name.len() as int) =~= name);
    assert forall|j: int| 1 <= j <= 6 implies is_digit(#[trigger] key[name.len() + j]) by {
        assert(key[name.len() + j] == six_digits(index)[j - 1]);
    }
}

/// Whether `key` has the form of a key of the peer `name`.
pub fn is_made_by(name: &str, key: &str) -> (r: bool)
    ensures
        r == made_by(name@, key@),
{
    let owner = chars_of(name);
    let text = chars_of(key);
    if text.len() < 7 || text.len() - 7 != owner.len() {
        return false;
    }
    if !matches_at(&text, &owner, 0) {
        return false;
    }
    if text[owner.len()] != '_' {
        return false;
    }
    let base = owner.len();
    let mut j: usize = 1;
    while j <= 6
        invariant
            1 <= j <= 7,
            owner@ == name@,
            text@ == key@,
            base == owner@.len(),
            base + 7 == text.len(),
            key@.subrange(0, base as int) == name@,
            key@[base as int] == '_',
            forall|k: int| 1 <= k < j ==> is_digit(#[trigger] key@[base + k]),
        decreases 7 - j,
    {
        let c = text[base + j];
        if c < '0' || c > '9' {
            assert(!is_digit(key@[base + j]));
            return false;
        }
        j += 1;
    }
    true
}

} // verus!

//! The collision sweep: which ships, bullets and asteroids count as hit in
//! one tick, and what a hit does to them.
//!
//! Whether two bodies overlap is geometry and is decided outside this
//! library. The sweep receives those answers as plain flags and decides
//! everything else: the order in which bodies are tested, which bullet a
//! hit consumes, what is stamped, and which asteroid splits.

use crate::asteroid::{Asteroid, SPLIT_THRESHOLD};
use crate::bullet::{in_flight, Bullet};
use crate::field::{filed_under, stale, Asteroids};
use crate::listing::Listing;
use crate::ship::{ship_views, Ship, ShipView};
use crate::text::same_text;
use crate::vector::Vec2;
use vstd::prelude::*;

verus! {

/// A body that takes part in collisions: a disc around `pos` with radius
/// `size`, both as bit patterns.
pub trait Collided {
    fn size(&self) -> u32;

    fn pos(&self) -> Vec2;
}

impl Collided for Asteroid {
    fn size(&self) -> (r: u32)
        ensures
            r == self.size,
    {
        self.size
    }

    fn pos(&self) -> (r: Vec2)
        ensures
            r == self.pos,
    {
        self.pos
    }
}

impl Collided for Bullet {
    fn size(&self) -> (r: u32)
        ensures
            r == self.size,
    {
        self.size
    }

    fn pos(&self) -> (r: Vec2)
        ensures
            r == self.pos,
    {
        self.pos
    }
}

impl Collided for Ship {
    fn size(&self) -> (r: u32)
        ensures
            r == self.size,
    {
        self.size
    }

    fn pos(&self) -> (r: Vec2)
        ensures
            r == self.pos,
    {
        self.pos
    }
}

/// What the geometry found for one asteroid and one ship: whether the ship
/// overlaps the asteroid and, bullet by bullet in the ship's order, whether
/// the bullet overlaps it. A bullet without a flag counts as not
/// overlapping.
pub struct Contact {
    pub ship: bool,
    pub bullets: Vec<bool>,
}

/// An asteroid that was hit and has to split: what the simulation needs to
/// know to create the two children.
#[derive(Clone, Copy, Debug)]
pub struct Split {
    /// Where the asteroid was hit.
    pub pos: Vec2,
    /// Velocity of the bullet that hit it.
    pub bullet_vel: Vec2,
    /// Radius of the asteroid that was hit.
    pub size: u32,
    /// Number of sides of the asteroid that was hit.
    pub sides: u8,
    /// Time of the hit, which the children inherit.
    pub last_updated: u64,
}

/// Bullet `j` overlaps and has not hit anything yet.
pub open spec fn live_hit(bullets: Seq<Bullet>, hits: Seq<bool>, j: int) -> bool {
    0 <= j < bullets.len() && j < hits.len() && hits[j] && !bullets[j].collided
}

/// Bullet `j` is the first that overlaps and has not hit anything yet.
pub open spec fn is_first_live_hit(bullets: Seq<Bullet>, hits: Seq<bool>, j: int) -> bool {
    live_hit(bullets, hits, j) && forall|k: int| 0 <= k < j ==> !live_hit(bullets, hits, k)
}

/// The first bullet that overlaps and has not hit anything yet, if any.
pub open spec fn first_live_hit(bullets: Seq<Bullet>, hits: Seq<bool>) -> Option<int> {
    if exists|j: int| is_first_live_hit(bullets, hits, j) {
        Some(choose|j: int| is_first_live_hit(bullets, hits, j))
    } else {
        None
    }
}

/// `bullets` after bullet `j` has hit something.
pub open spec fn spend(bullets: Seq<Bullet>, j: int) -> Seq<Bullet> {
    bullets.update(j, Bullet { collided: true, ..bullets[j] })
}

/// `asteroid` after a bullet hit it at `now`.
pub open spec fn hit_at(asteroid: Asteroid, now: u64) -> Asteroid {
    Asteroid { collided: true, last_updated: now, ..asteroid }
}

/// The split that a hit by `bullet` asks for, once `asteroid` carries the
/// marks of that hit.
pub open spec fn split_of(asteroid: Asteroid, bullet: Bullet) -> Split {
    Split {
        pos: asteroid.pos,
        bullet_vel: bullet.vel,
        size: asteroid.size,
        sides: asteroid.sides,
        last_updated: asteroid.last_updated,
    }
}

/// The outcome of testing the bullets of one ship against one asteroid.
pub struct Strike {
    pub asteroid: Asteroid,
    pub bullets: Seq<Bullet>,
    pub split: Option<Split>,
}

/// Tests `bullets` against `asteroid`. An asteroid that is already collided
/// is left alone. Otherwise the first bullet that overlaps it and has not
/// hit anything yet hits it: both are marked collided, the asteroid is
/// stamped with `now`, and it splits if it has more sides than the
/// threshold. All later bullets are left alone.
pub open spec fn strike(asteroid: Asteroid, bullets: Seq<Bullet>, hits: Seq<bool>, now: u64) -> Strike {
    if asteroid.collided {
        Strike { asteroid, bullets, split: None }
    } else {
        match first_live_hit(bullets, hits) {
            None => Strike { asteroid, bullets, split: None },
            Some(j) => Strike {
                asteroid: hit_at(asteroid, now),
                bullets: spend(bullets, j),
                split: if asteroid.sides > SPLIT_THRESHOLD {
                    Some(split_of(hit_at(asteroid, now), bullets[j]))
                } else {
                    None
                },
            },
        }
    }
}

/// The first live hit is the one position that satisfies
/// [`is_first_live_hit`].
pub proof fn lemma_first_live_hit_found(bullets: Seq<Bullet>, hits: Seq<bool>, j: int)
    requires
        is_first_live_hit(bullets, hits, j),
    ensures
        first_live_hit(bullets, hits) == Some(j),
{
    let chosen = choose|k: int| is_first_live_hit(bullets, hits, k);
    assert(is_first_live_hit(bullets, hits, chosen));
    if chosen < j {
        assert(!live_hit(bullets, hits, chosen));
    } else if j < chosen {
        assert(!live_hit(bullets, hits, j));
    }
}

/// Without a live hit there is no first one.
pub proof fn lemma_first_live_hit_none(bullets: Seq<Bullet>, hits: Seq<bool>)
    requires
        forall|k: int| 0 <= k < bullets.len() ==> !live_hit(bullets, hits, k),
    ensures
        first_live_hit(bullets, hits) is None,
{
}

/// Finds the first bullet that overlaps and has not hit anything yet.
pub fn find_first_live_hit(bullets: &Vec<Bullet>, hits: &Vec<bool>) -> (found: Option<usize>)
    ensures
        match found {
            Some(j) => first_live_hit(bullets@, hits@) == Some(j as int) && j < bullets@.len(),
            None => first_live_hit(bullets@, hits@) is None,
        },
{
    let mut j: usize = 0;
    while j < bullets.len() && j < hits.len()
        invariant
            forall|k: int| 0 <= k < j ==> !live_hit(bullets@, hits@, k),
        decreases bullets.len() - j,
    {
        if hits[j] && !bullets[j].collided {
            proof {
                lemma_first_live_hit_found(bullets@, hits@, j as int);
            }
            return Some(j);
        }
        j += 1;
    }
    proof {
        lemma_first_live_hit_none(bullets@, hits@);
    }
    None
}

/// Tests the bullets of `ship` against `asteroid`, as [`strike`] says.
/// `hits` tells for each bullet whether it overlaps the asteroid. Returns
/// the split that the hit asks for, if any.
pub fn ship_bullet_vs_asteroid(
    ship: &mut Ship,
    asteroid: &mut Asteroid,
    hits: &Vec<bool>,
    now: u64,
) -> (split: Option<Split>)
    ensures
        *final(asteroid) == strike(*old(asteroid), old(ship)@.bullets, hits@, now).asteroid,
        final(ship)@ == (ShipView {
            bullets: strike(*old(asteroid), old(ship)@.bullets, hits@, now).bullets,
            ..old(ship)@
        }),
        split == strike(*old(asteroid), old(ship)@.bullets, hits@, now).split,
{
    if asteroid.collided {
        return None;
    }
    match find_first_live_hit(&ship.bullets, hits) {
        None => None,
        Some(j) => {
            let bullet = ship.bullets[j];
            asteroid.set_collided(true);
            asteroid.set_last_updated(now);
            ship.bullets[j].collided = true;
            assert(ship.bullets@ =~= spend(old(ship)@.bullets, j as int));
            if asteroid.splits() {
                Some(
                    Split {
                        pos: asteroid.pos,
                        bullet_vel: bullet.vel,
                        size: asteroid.size,
                        sides: asteroid.sides,
                        last_updated: asteroid.last_updated,
                    },
                )
            } else {
                None
            }
        },
    }
}

/// The flags of the bullets of a ship against asteroid `i`; none where the
/// geometry gave no contact for that asteroid.
pub open spec fn bullet_flags(contacts: Seq<Contact>, i: int) -> Seq<bool> {
    if 0 <= i < contacts.len() {
        contacts[i].bullets@
    } else {
        Seq::empty()
    }
}

/// The ship overlaps one of the first `upto` asteroids.
pub open spec fn ship_touched(contacts: Seq<Contact>, upto: int) -> bool {
    exists|i: int| 0 <= i < upto && i < contacts.len() && contacts[i].ship
}

/// The state of a sweep of one ship over a field.
pub struct Sweep {
    pub listing: Listing,
    pub bullets: Seq<Bullet>,
    pub split: Option<Split>,
}

/// The sweep of the bullets of one ship over the first `upto` asteroids of
/// `listing`, in listing order. Each asteroid is tested as [`strike`] says
/// against the bullets as the asteroids before it left them. Of the splits
/// asked for on the way, the last one stands.
pub open spec fn sweep(
    listing: Listing,
    bullets: Seq<Bullet>,
    contacts: Seq<Contact>,
    now: u64,
    upto: int,
) -> Sweep
    decreases upto,
{
    if upto <= 0 {
        Sweep { listing, bullets, split: None }
    } else {
        let before = sweep(listing, bullets, contacts, now, upto - 1);
        let i = upto - 1;
        let outcome = strike(before.listing[i].1, before.bullets, bullet_flags(contacts, i), now);
        Sweep {
            listing: before.listing.update(i, (before.listing[i].0, outcome.asteroid)),
            bullets: outcome.bullets,
            split: if outcome.split is Some {
                outcome.split
            } else {
                before.split
            },
        }
    }
}

/// A sweep keeps the length of the listing and every key in it, and leaves
/// the asteroids it has not reached yet as they were.
pub proof fn lemma_sweep_keeps_keys(
    listing: Listing,
    bullets: Seq<Bullet>,
    contacts: Seq<Contact>,
    now: u64,
    upto: int,
)
    requires
        upto <= listing.len(),
    ensures
        sweep(listing, bullets, contacts, now, upto).listing.len() == listing.len(),
        sweep(listing, bullets, contacts, now, upto).bullets.len() == bullets.len(),
        forall|i: int|
            0 <= i < listing.len() ==> (#[trigger] sweep(
                listing,
                bullets,
                contacts,
                now,
                upto,
            ).listing[i]).0 == listing[i].0,
        forall|i: int|
            0 <= i < listing.len() && upto <= i ==> #[trigger] sweep(
                listing,
                bullets,
                contacts,
                now,
                upto,
            ).listing[i] == listing[i],
    decreases upto,
{
    if upto > 0 {
        lemma_sweep_keeps_keys(listing, bullets, contacts, now, upto - 1);
    }
}

/// Tests one ship against every asteroid of the field, in listing order.
///
/// `contacts` holds what the geometry found, one contact per asteroid in
/// listing order. The ship is marked collided if it overlaps any asteroid,
/// unless `god` is set or `mode` is `"spectator"`. Its bullets sweep the
/// field as [`sweep`] says, each hit stamped with `now`. The keys and the
/// counter of the field stay as they are.
///
/// Returns the split that stands at the end of the sweep if the ship
/// belongs to the player `name`, and nothing for any other ship: a peer
/// creates children only for hits of its own player.
pub fn ship_vs_asteroids(
    ship: &mut Ship,
    asteroids: &mut Asteroids,
    name: &str,
    god: bool,
    mode: &str,
    now: u64,
    contacts: &Vec<Contact>,
) -> (split: Option<Split>)
    ensures
        final(asteroids).listing() == sweep(
            old(asteroids).listing(),
            old(ship)@.bullets,
            contacts@,
            now,
            old(asteroids).listing().len() as int,
        ).listing,
        final(asteroids)@.count == old(asteroids)@.count,
        final(ship)@ == (ShipView {
            collided: old(ship)@.collided || (!god && mode@ != "spectator"@ && ship_touched(
                contacts@,
                old(asteroids).listing().len() as int,
            )),
            bullets: sweep(
                old(asteroids).listing(),
                old(ship)@.bullets,
                contacts@,
                now,
                old(asteroids).listing().len() as int,
            ).bullets,
            ..old(ship)@
        }),
        split == (if old(ship)@.name == name@ {
            sweep(
                old(asteroids).listing(),
                old(ship)@.bullets,
                contacts@,
                now,
                old(asteroids).listing().len() as int,
            ).split
        } else {
            None
        }),
{
    let ghost listing0 = asteroids.listing();
    let ghost bullets0 = ship@.bullets;
    let vulnerable = !god && !same_text(mode, "spectator");
    let total = asteroids.len();
    let no_flags: Vec<bool> = Vec::new();
    let mut pending: Option<Split> = None;
    let mut i: usize = 0;
    while i < total
        invariant
            i <= total,
            total == listing0.len(),
            vulnerable == (!god && mode@ != "spectator"@),
            no_flags@ == Seq::<bool>::empty(),
            asteroids.listing() == sweep(listing0, bullets0, contacts@, now, i as int).listing,
            asteroids@.count == old(asteroids)@.count,
            ship@ == (ShipView {
                collided: old(ship)@.collided || (vulnerable && ship_touched(contacts@, i as int)),
                bullets: sweep(listing0, bullets0, contacts@, now, i as int).bullets,
                ..old(ship)@
            }),
            pending == sweep(listing0, bullets0, contacts@, now, i as int).split,
        decreases total - i,
    {
        proof {
            lemma_sweep_keeps_keys(listing0, bullets0, contacts@, now, i as int);
        }
        let mut asteroid = asteroids.asteroid_at(i);
        let split = if i < contacts.len() {
            if contacts[i].ship && vulnerable {
                ship.set_collided(true);
            }
            ship_bullet_vs_asteroid(ship, &mut asteroid, &contacts[i].bullets, now)
        } else {
            ship_bullet_vs_asteroid(ship, &mut asteroid, &no_flags, now)
        };
        asteroids.set_asteroid_at(i, asteroid);
        if split.is_some() {
            pending = split;
        }
        proof {
            assert(ship_touched(contacts@, i + 1) == (ship_touched(contacts@, i as int) || (i
                < contacts@.len() && contacts@[i as int].ship))) by {
                if ship_touched(contacts@, i + 1) {
                    let w = choose|w: int| 0 <= w < i + 1 && w < contacts@.len() && contacts@[w].ship;
                    if w < i {
                        assert(0 <= w < i && w < contacts@.len() && contacts@[w].ship);
                    }
                }
                if ship_touched(contacts@, i as int) {
                    let w = choose|w: int| 0 <= w < i && w < contacts@.len() && contacts@[w].ship;
                    assert(0 <= w < i + 1 && w < contacts@.len() && contacts@[w].ship);
                }
                if i < contacts@.len() && contacts@[i as int].ship {
                    assert(0 <= i < i + 1 && i < contacts@.len() && contacts@[i as int].ship);
                }
            }
        }
        i += 1;
    }
    if same_text(ship.name.as_str(), name) {
        pending
    } else {
        None
    }
}

/// Files the children of a split under the next keys of the peer `name`.
pub fn add_children(asteroids: &mut Asteroids, name: &str, children: &Vec<Asteroid>)
    requires
        old(asteroids)@.count + children@.len() <= u8::MAX,
    ensures
        final(asteroids)@.count == old(asteroids)@.count + children@.len(),
        final(asteroids)@.asteroids == filed_under(
            old(asteroids)@.asteroids,
            name@,
            old(asteroids)@.count as nat,
            children@,
        ),
{
    let ghost start = asteroids@;
    let mut i: usize = 0;
    while i < children.len()
        invariant
            i <= children.len(),
            start.count + children@.len() <= u8::MAX,
            asteroids@.count == start.count + i,
            asteroids@.asteroids == filed_under(
                start.asteroids,
                name@,
                start.count as nat,
                children@.take(i as int),
            ),
        decreases children.len() - i,
    {
        proof {
            assert(children@.take(i + 1).drop_last() =~= children@.take(i as int));
        }
        asteroids.add_asteroid_named(name, children[i]);
        i += 1;
    }
    proof {
        assert(children@.take(i as int) =~= children@);
    }
}

/// The outcome of testing the bullets of one ship against one opponent.
pub struct Duel {
    pub bullets: Seq<Bullet>,
    pub opponent_collided: bool,
}

/// Tests `bullets` against an opponent. An opponent that is already
/// collided is left alone. Otherwise the first bullet that overlaps it and
/// has not hit anything yet hits it: both are marked collided, and all
/// later bullets are left alone.
pub open spec fn duel(opponent_collided: bool, bullets: Seq<Bullet>, hits: Seq<bool>) -> Duel {
    if opponent_collided {
        Duel { bullets, opponent_collided }
    } else {
        match first_live_hit(bullets, hits) {
            None => Duel { bullets, opponent_collided },
            Some(j) => Duel { bullets: spend(bullets, j), opponent_collided: true },
        }
    }
}

/// Tests the bullets of `ship` against `opponent`, as [`duel`] says. `hits`
/// tells for each bullet whether it overlaps the opponent.
pub fn ship_bullet_vs_opponents(ship: &mut Ship, opponent: &mut Ship, hits: &Vec<bool>)
    ensures
        final(ship)@ == (ShipView {
            bullets: duel(old(opponent)@.collided, old(ship)@.bullets, hits@).bullets,
            ..old(ship)@
        }),
        final(opponent)@ == (ShipView {
            collided: duel(old(opponent)@.collided, old(ship)@.bullets, hits@).opponent_collided,
            ..old(opponent)@
        }),
{
    if opponent.collided {
        return ;
    }
    match find_first_live_hit(&ship.bullets, hits) {
        None => {},
        Some(j) => {
            ship.bullets[j].collided = true;
            opponent.set_collided(true);
            assert(ship.bullets@ =~= spend(old(ship)@.bullets, j as int));
        },
    }
}

/// The flags of the bullets of a ship against opponent `o`; none where the
/// geometry gave none for that opponent.
pub open spec fn opponent_flags(contacts: Seq<Vec<bool>>, o: int) -> Seq<bool> {
    if 0 <= o < contacts.len() {
        contacts[o]@
    } else {
        Seq::empty()
    }
}

/// The state of a round of one ship against its opponents.
pub struct Round {
    pub bullets: Seq<Bullet>,
    pub opponents: Seq<ShipView>,
}

/// The round of the bullets of the ship `name` against the first `upto`
/// opponents, in order. An opponent of the same name is the ship itself
/// and is skipped. Every other opponent is tested as [`duel`] says against
/// the bullets as the opponents before it left them.
pub open spec fn round(
    name: Seq<char>,
    bullets: Seq<Bullet>,
    opponents: Seq<ShipView>,
    contacts: Seq<Vec<bool>>,
    upto: int,
) -> Round
    decreases upto,
{
    if upto <= 0 {
        Round { bullets, opponents }
    } else {
        let before = round(name, bullets, opponents, contacts, upto - 1);
        let o = upto - 1;
        if before.opponents[o].name == name {
            before
        } else {
            let outcome = duel(before.opponents[o].collided, before.bullets, opponent_flags(contacts, o));
            Round {
                bullets: outcome.bullets,
                opponents: before.opponents.update(
                    o,
                    ShipView { collided: outcome.opponent_collided, ..before.opponents[o] },
                ),
            }
        }
    }
}

/// A round keeps the number of opponents and changes nothing of an
/// opponent but its collided mark.
pub proof fn lemma_round_keeps_opponents(
    name: Seq<char>,
    bullets: Seq<Bullet>,
    opponents: Seq<ShipView>,
    contacts: Seq<Vec<bool>>,
    upto: int,
)
    requires
        upto <= opponents.len(),
    ensures
        round(name, bullets, opponents, contacts, upto).opponents.len() == opponents.len(),
        forall|o: int|
            0 <= o < opponents.len() ==> (ShipView {
                collided: opponents[o].collided,
                ..#[trigger] round(name, bullets, opponents, contacts, upto).opponents[o]
            }) == opponents[o],
        forall|o: int|
            0 <= o < opponents.len() && upto <= o ==> #[trigger] round(
                name,
                bullets,
                opponents,
                contacts,
                upto,
            ).opponents[o] == opponents[o],
    decreases upto,
{
    if upto > 0 {
        lemma_round_keeps_opponents(name, bullets, opponents, contacts, upto - 1);
    }
}

/// Tests the bullets of `ship` against every opponent of another name, in
/// order, as [`round`] says. `contacts` holds, opponent by opponent, the
/// flags of the bullets of `ship` against that opponent.
pub fn ship_vs_opponents(ship: &mut Ship, opponents: &mut Vec<Ship>, contacts: &Vec<Vec<bool>>)
    ensures
        final(ship)@ == (ShipView {
            bullets: round(
                old(ship)@.name,
                old(ship)@.bullets,
                ship_views(old(opponents)@),
                contacts@,
                old(opponents)@.len() as int,
            ).bullets,
            ..old(ship)@
        }),
        ship_views(final(opponents)@) == round(
            old(ship)@.name,
            old(ship)@.bullets,
            ship_views(old(opponents)@),
            contacts@,
            old(opponents)@.len() as int,
        ).opponents,
{
    let ghost name0 = ship@.name;
    let ghost bullets0 = ship@.bullets;
    let ghost opponents0 = ship_views(opponents@);
    let total = opponents.len();
    let no_flags: Vec<bool> = Vec::new();
    let mut o: usize = 0;
    assert(ship_views(opponents@) =~= round(name0, bullets0, opponents0, contacts@, 0).opponents);
    while o < total
        invariant
            o <= total,
            total == opponents0.len(),
            opponents@.len() == total,
            no_flags@ == Seq::<bool>::empty(),
            ship@ == (ShipView {
                bullets: round(name0, bullets0, opponents0, contacts@, o as int).bullets,
                ..old(ship)@
            }),
            name0 == old(ship)@.name,
            ship_views(opponents@) == round(name0, bullets0, opponents0, contacts@, o as int).opponents,
        decreases total - o,
    {
        let ghost before = ship_views(opponents@);
        proof {
            lemma_round_keeps_opponents(name0, bullets0, opponents0, contacts@, o as int);
            assert(before[o as int] == opponents@[o as int]@);
        }
        if !same_text(opponents[o].name.as_str(), ship.name.as_str()) {
            if o < contacts.len() {
                ship_bullet_vs_opponents(ship, &mut opponents[o], &contacts[o]);
            } else {
                ship_bullet_vs_opponents(ship, &mut opponents[o], &no_flags);
            }
            proof {
                assert(ship_views(opponents@) =~= before.update(o as int, opponents@[o as int]@));
            }
        }
        o += 1;
    }
}

/// What the geometry found for one ship: its contacts with the asteroids,
/// in listing order, and the flags of its bullets against each opponent,
/// in the order of the opponents.
pub struct Contacts {
    pub asteroids: Vec<Contact>,
    pub opponents: Vec<Vec<bool>>,
}

/// The collision step of the ship at `index` in one tick.
///
/// The ship is tested against the asteroids ([`ship_vs_asteroids`]) and
/// then against the copies of the other ships ([`ship_vs_opponents`]). If
/// it is the ship of the player `name`, its bullets that are no longer in
/// flight at `frame_t` are dropped. Last, the stale asteroids leave the
/// field. The returned split, if any, is the one whose children the caller
/// has to create and file for `name`.
pub fn manage_collisions(
    players: &mut Vec<Ship>,
    opponents: &mut Vec<Ship>,
    asteroids: &mut Asteroids,
    index: usize,
    name: &str,
    god: bool,
    mode: &str,
    frame_t: u64,
    now: u64,
    contacts: &Contacts,
) -> (split: Option<Split>)
    requires
        index < old(players)@.len(),
    ensures
        final(players)@.len() == old(players)@.len(),
        forall|i: int|
            0 <= i < old(players)@.len() && i != index ==> #[trigger] final(players)@[i] == old(
                players,
            )@[i],
        final(players)@[index as int]@ == stepped_ship(
            old(players)@[index as int]@,
            old(asteroids).listing(),
            ship_views(old(opponents)@),
            name@,
            god,
            mode@,
            frame_t,
            now,
            contacts,
        ),
        ship_views(final(opponents)@) == round(
            old(players)@[index as int]@.name,
            swept(old(players)@[index as int]@, old(asteroids).listing(), now, contacts).bullets,
            ship_views(old(opponents)@),
            contacts.opponents@,
            old(opponents)@.len() as int,
        ).opponents,
        final(asteroids)@.count == old(asteroids)@.count,
        final(asteroids).listing() == swept(
            old(players)@[index as int]@,
            old(asteroids).listing(),
            now,
            contacts,
        ).listing.filter(|e: (Seq<char>, Asteroid)| !stale(e.1, now)),
        split == (if old(players)@[index as int]@.name == name@ {
            swept(old(players)@[index as int]@, old(asteroids).listing(), now, contacts).split
        } else {
            None
        }),
{
    let split = ship_vs_asteroids(
        &mut players[index],
        asteroids,
        name,
        god,
        mode,
        now,
        &contacts.asteroids,
    );
    ship_vs_opponents(&mut players[index], opponents, &contacts.opponents);
    if same_text(players[index].name.as_str(), name) {
        players[index].expire_bullets(frame_t);
    }
    asteroids.remove_stale(now);
    split
}

/// The sweep of the whole field by the bullets of `ship`.
pub open spec fn swept(ship: ShipView, listing: Listing, now: u64, contacts: &Contacts) -> Sweep {
    sweep(listing, ship.bullets, contacts.asteroids@, now, listing.len() as int)
}

/// The ship after its collision step.
pub open spec fn stepped_ship(
    ship: ShipView,
    listing: Listing,
    opponents: Seq<ShipView>,
    name: Seq<char>,
    god: bool,
    mode: Seq<char>,
    frame_t: u64,
    now: u64,
    contacts: &Contacts,
) -> ShipView {
    let after_round = round(
        ship.name,
        swept(ship, listing, now, contacts).bullets,
        opponents,
        contacts.opponents@,
        opponents.len() as int,
    ).bullets;
    ShipView {
        collided: ship.collided || (!god && mode != "spectator"@ && ship_touched(
            contacts.asteroids@,
            listing.len() as int,
        )),
        bullets: if ship.name == name {
            after_round.filter(|b: Bullet| in_flight(b, frame_t))
        } else {
            after_round
        },
        ..ship
    }
}

/// Closes the tick: every player whose copy was hit during the steps is
/// marked collided.
pub fn mark_hit_players(players: &mut Vec<Ship>, opponents: &Vec<Ship>)
    ensures
        final(players)@.len() == old(players)@.len(),
        forall|i: int|
            0 <= i < old(players)@.len() ==> (#[trigger] final(players)@[i])@ == (ShipView {
                collided: old(players)@[i]@.collided || (i < opponents@.len()
                    && opponents@[i]@.collided),
                ..old(players)@[i]@
            }),
{
    let total = players.len();
    let mut i: usize = 0;
    while i < total
        invariant
            i <= total,
            players@.len() == total,
            total == old(players)@.len(),
            forall|j: int|
                0 <= j < i ==> (#[trigger] players@[j])@ == (ShipView {
                    collided: old(players)@[j]@.collided || (j < opponents@.len()
                        && opponents@[j]@.collided),
                    ..old(players)@[j]@
                }),
            forall|j: int| i <= j < total ==> #[trigger] players@[j] == old(players)@[j],
        decreases total - i,
    {
        if i < opponents.len() && opponents[i].collided {
            players[i].set_collided(true);
        }
        i += 1;
    }
}

} // verus!

//! The keyed field of one peer and the merge that reconciles the field of
//! another peer into it.
//!
//! A field maps entity keys to asteroids and carries the counter from which
//! the peer numbers the asteroids it creates. Contracts speak of a field
//! through its view: the counter and the mapping.

use crate::asteroid::{
    entity_key, is_made_by, key_text, lemma_key_text_injective, made_by, Asteroid,
};
use crate::listing::{
    is_slot, keys_ascend, lemma_listing_dom_finite, lemma_listing_insert, lemma_listing_map_empty,
    lemma_listing_map_entry, lemma_listing_remove, lemma_listing_take, lemma_listing_update,
    lemma_slot_tells_presence, listing_index, listing_map, Listing,
};
use crate::text::{chars_of, key_order, lemma_lex_lt_transitive, lex_lt, KeyOrder};
use vstd::prelude::*;

verus! {

/// How long a collided asteroid stays in the field after its last update,
/// in microseconds, so that the hit reaches the other peers before the
/// entry disappears.
pub const COLLIDED_GRACE: u64 = 200_000;

/// `incoming` was updated later than `existing`.
pub open spec fn newer(incoming: Asteroid, existing: Asteroid) -> bool {
    incoming.last_updated > existing.last_updated
}

/// The field content after one incoming entry was merged into `target`:
/// an unknown key is added, a known key takes the incoming asteroid whole
/// if that one is newer, and otherwise nothing changes.
pub open spec fn merge_one(
    target: Map<Seq<char>, Asteroid>,
    key: Seq<char>,
    incoming: Asteroid,
) -> Map<Seq<char>, Asteroid> {
    if target.dom().contains(key) && !newer(incoming, target[key]) {
        target
    } else {
        target.insert(key, incoming)
    }
}

/// The field content after all of `incoming` was merged into `target`.
/// Every key of either side is present. A key of both sides holds the
/// incoming asteroid if that one is newer and the target's own otherwise.
pub open spec fn merged(
    target: Map<Seq<char>, Asteroid>,
    incoming: Map<Seq<char>, Asteroid>,
) -> Map<Seq<char>, Asteroid> {
    Map::new(
        |k: Seq<char>| target.dom().contains(k) || incoming.dom().contains(k),
        |k: Seq<char>|
            if !incoming.dom().contains(k) {
                target[k]
            } else if !target.dom().contains(k) {
                incoming[k]
            } else if newer(incoming[k], target[k]) {
                incoming[k]
            } else {
                target[k]
            },
    )
}

/// The keys that a merge of `incoming` adds to `target`.
pub open spec fn absorbed_keys(
    target: Map<Seq<char>, Asteroid>,
    incoming: Map<Seq<char>, Asteroid>,
) -> Set<Seq<char>> {
    incoming.dom().difference(target.dom())
}

/// `asteroid` with its time of last update set to `time`.
pub open spec fn restamped(asteroid: Asteroid, time: u64) -> Asteroid {
    Asteroid { last_updated: time, ..asteroid }
}

/// A collided asteroid whose last update lies more than the grace period
/// before `now` is stale: it may leave the field.
pub open spec fn stale(asteroid: Asteroid, now: u64) -> bool {
    asteroid.collided && now - asteroid.last_updated > COLLIDED_GRACE
}

/// `field` with every asteroid stamped `time` and nothing else changed.
pub open spec fn refreshed(field: Map<Seq<char>, Asteroid>, time: u64) -> Map<Seq<char>, Asteroid> {
    Map::new(|k: Seq<char>| field.dom().contains(k), |k: Seq<char>| restamped(field[k], time))
}

/// `field` without its stale asteroids.
pub open spec fn without_stale(field: Map<Seq<char>, Asteroid>, now: u64) -> Map<
    Seq<char>,
    Asteroid,
> {
    Map::new(|k: Seq<char>| field.dom().contains(k) && !stale(field[k], now), |k: Seq<char>| field[k])
}

/// The part of `field` that the peer `name` has made: the asteroids filed
/// under keys of the form of that peer's keys.
pub open spec fn owned_by(field: Map<Seq<char>, Asteroid>, name: Seq<char>) -> Map<
    Seq<char>,
    Asteroid,
> {
    Map::new(|k: Seq<char>| field.dom().contains(k) && made_by(name, k), |k: Seq<char>| field[k])
}

/// The mapping that results from filing `entries` one after the other, a
/// later entry replacing an earlier one with the same key.
pub open spec fn filed(entries: Listing) -> Map<Seq<char>, Asteroid>
    decreases entries.len(),
{
    if entries.len() == 0 {
        Map::empty()
    } else {
        filed(entries.drop_last()).insert(entries.last().0, entries.last().1)
    }
}

/// The field content after `bodies` were filed one after the other under
/// the keys that `name` makes with the indices from `first` on.
pub open spec fn filed_under(
    field: Map<Seq<char>, Asteroid>,
    name: Seq<char>,
    first: nat,
    bodies: Seq<Asteroid>,
) -> Map<Seq<char>, Asteroid>
    decreases bodies.len(),
{
    if bodies.len() == 0 {
        field
    } else {
        filed_under(field, name, first, bodies.drop_last()).insert(
            key_text(name, first + (bodies.len() - 1) as nat),
            bodies.last(),
        )
    }
}

/// One entry of a field: a key and the asteroid filed under it.
struct Entry {
    key: String,
    asteroid: Asteroid,
}

/// The listing that a vector of entries stands for.
spec fn entries_listing(entries: Seq<Entry>) -> Listing {
    Seq::new(entries.len(), |i: int| (entries[i].key@, entries[i].asteroid))
}

/// The field of one peer: every asteroid it knows of, filed under its key,
/// and the index that the peer gives to the next asteroid it creates.
///
/// The entries are kept in ascending key order, which is also the order in
/// which they are visited and handed out.
pub struct Asteroids {
    count: u8,
    entries: Vec<Entry>,
}

/// What a field holds: its counter and its asteroids by key.
pub struct AsteroidsView {
    pub count: u8,
    pub asteroids: Map<Seq<char>, Asteroid>,
}

/// The counter `count` moved on by `by`. A counter that has reached its
/// largest value stays there: it never goes back.
pub open spec fn moved_on(count: u8, by: nat) -> u8 {
    if count + by <= u8::MAX {
        (count + by) as u8
    } else {
        u8::MAX
    }
}

/// The field `target` after the field `incoming` was merged into it: the
/// merged content, and the counter moved on by one for each absorbed key.
pub open spec fn synchronized(target: AsteroidsView, incoming: AsteroidsView) -> AsteroidsView {
    AsteroidsView {
        count: moved_on(target.count, absorbed_keys(target.asteroids, incoming.asteroids).len()),
        asteroids: merged(target.asteroids, incoming.asteroids),
    }
}

impl View for Asteroids {
    type V = AsteroidsView;

    open spec fn view(&self) -> AsteroidsView {
        AsteroidsView { count: self.counter(), asteroids: listing_map(self.listing()) }
    }
}

impl Asteroids {
    /// The index that the next asteroid created by this peer receives.
    pub closed spec fn counter(&self) -> u8 {
        self.count
    }

    /// The entries in the order in which the field visits them.
    pub closed spec fn listing(&self) -> Listing {
        entries_listing(self.entries@)
    }

    #[verifier::type_invariant]
    spec fn ordered(&self) -> bool {
        keys_ascend(entries_listing(self.entries@))
    }

    /// A field without asteroids whose counter stands at `count`.
    pub fn with_count(count: u8) -> (field: Self)
        ensures
            field@.count == count,
            field@.asteroids == Map::<Seq<char>, Asteroid>::empty(),
            field.listing() == Seq::<(Seq<char>, Asteroid)>::empty(),
    {
        let field = Asteroids { count, entries: Vec::new() };
        proof {
            assert(field.listing() =~= Seq::<(Seq<char>, Asteroid)>::empty());
            lemma_listing_map_empty();
        }
        field
    }

    /// The field that results from filing `entries` one after the other
    /// into an empty field whose counter stands at `count`.
    pub fn from_entries(count: u8, entries: Vec<(String, Asteroid)>) -> (field: Self)
        ensures
            field@.count == count,
            field@.asteroids == filed(Seq::new(entries@.len(), |i: int| (entries@[i].0@, entries@[i].1))),
    {
        let ghost all = Seq::new(entries@.len(), |i: int| (entries@[i].0@, entries@[i].1));
        let mut field = Asteroids::with_count(count);
        let mut i: usize = 0;
        while i < entries.len()
            invariant
                i <= entries.len(),
                all == Seq::new(entries@.len(), |i: int| (entries@[i].0@, entries@[i].1)),
                field@.count == count,
                field@.asteroids == filed(all.take(i as int)),
            decreases entries.len() - i,
        {
            proof {
                assert(all.take(i + 1).drop_last() =~= all.take(i as int));
            }
            field.insert(entries[i].0.clone(), entries[i].1);
            i += 1;
        }
        proof {
            assert(all.take(i as int) =~= all);
        }
        field
    }

    /// A field owned by `name` that holds the `number` given bodies, the
    /// body at position `i` under the key made of `name` and `i`, with the
    /// counter at `number`.
    pub fn generate_field(name: String, number: u8, bodies: &Vec<Asteroid>) -> (field: Self)
        requires
            bodies@.len() == number,
        ensures
            field@.count == number,
            field@.asteroids == filed_under(Map::empty(), name@, 0, bodies@),
            forall|k: Seq<char>|
                field@.asteroids.dom().contains(k) <==> exists|i: nat|
                    i < number && k == #[trigger] key_text(name@, i),
            forall|i: nat|
                i < number ==> field@.asteroids[#[trigger] key_text(name@, i)] == bodies@[i as int],
    {
        let mut field = Asteroids::with_count(0);
        let mut item: u8 = 0;
        while item < number
            invariant
                item <= number,
                bodies@.len() == number,
                field@.count == item,
                field@.asteroids == filed_under(Map::empty(), name@, 0, bodies@.take(item as int)),
            decreases number - item,
        {
            proof {
                assert(bodies@.take(item + 1).drop_last() =~= bodies@.take(item as int));
            }
            field.add_asteroid_named(name.as_str(), bodies[item as usize]);
            item += 1;
        }
        proof {
            assert(bodies@.take(item as int) =~= bodies@);
            lemma_generated_keys(name@, bodies@);
        }
        field
    }

    /// The index that the next asteroid created by this peer receives.
    pub fn count(&self) -> (r: u8)
        ensures
            r == self@.count,
    {
        self.count
    }

    /// Number of asteroids in the field. The listing they form is ascending
    /// and maps as many keys as it has entries.
    pub fn len(&self) -> (r: usize)
        ensures
            r == self.listing().len(),
            keys_ascend(self.listing()),
            self@.asteroids.dom().finite(),
            self@.asteroids.dom().len() == r,
    {
        proof {
            use_type_invariant(self);
            lemma_listing_dom_finite(self.listing());
        }
        self.entries.len()
    }

    /// Whether the field holds no asteroid.
    pub fn is_empty(&self) -> (r: bool)
        ensures
            r == (self.listing().len() == 0),
            r == (self@.asteroids == Map::<Seq<char>, Asteroid>::empty()),
    {
        proof {
            use_type_invariant(self);
            if self.listing().len() > 0 {
                lemma_listing_map_entry(self.listing(), 0);
            } else {
                assert(self.listing() =~= Seq::<(Seq<char>, Asteroid)>::empty());
                lemma_listing_map_empty();
            }
        }
        self.entries.len() == 0
    }

    /// The key of the entry at position `at` of the listing.
    pub fn key_at(&self, at: usize) -> (key: &str)
        requires
            at < self.listing().len(),
        ensures
            key@ == self.listing()[at as int].0,
            self@.asteroids.dom().contains(key@),
    {
        proof {
            use_type_invariant(self);
            lemma_listing_map_entry(self.listing(), at as int);
        }
        self.entries[at].key.as_str()
    }

    /// The asteroid of the entry at position `at` of the listing.
    pub fn asteroid_at(&self, at: usize) -> (asteroid: Asteroid)
        requires
            at < self.listing().len(),
        ensures
            asteroid == self.listing()[at as int].1,
            self@.asteroids.dom().contains(self.listing()[at as int].0),
            self@.asteroids[self.listing()[at as int].0] == asteroid,
    {
        proof {
            use_type_invariant(self);
            lemma_listing_map_entry(self.listing(), at as int);
        }
        self.entries[at].asteroid
    }

    /// The entries of the field in ascending key order.
    pub fn get_asteroids(&self) -> (all: Vec<(String, Asteroid)>)
        ensures
            all@.len() == self.listing().len(),
            forall|i: int|
                0 <= i < all@.len() ==> (#[trigger] all@[i]).0@ == self.listing()[i].0 && all@[i].1
                    == self.listing()[i].1,
            keys_ascend(self.listing()),
    {
        proof {
            use_type_invariant(self);
        }
        let mut all: Vec<(String, Asteroid)> = Vec::new();
        let mut i: usize = 0;
        while i < self.entries.len()
            invariant
                i <= self.entries.len(),
                all@.len() == i,
                self.entries@.len() == self.listing().len(),
                forall|j: int|
                    0 <= j < i ==> (#[trigger] all@[j]).0@ == self.listing()[j].0 && all@[j].1
                        == self.listing()[j].1,
            decreases self.entries.len() - i,
        {
            all.push((self.entries[i].key.clone(), self.entries[i].asteroid));
            i += 1;
        }
        all
    }

    /// Where `probe` is or would be filed.
    fn position(&self, probe: &Vec<char>) -> (r: (usize, bool))
        ensures
            is_slot(self.listing(), probe@, r.0 as int, r.1),
            r.1 == self@.asteroids.dom().contains(probe@),
            r.1 ==> self@.asteroids[probe@] == self.listing()[r.0 as int].1,
            keys_ascend(self.listing()),
    {
        proof {
            use_type_invariant(self);
        }
        let ghost listing = self.listing();
        let mut at: usize = 0;
        while at < self.entries.len()
            invariant
                listing == self.listing(),
                keys_ascend(listing),
                at <= self.entries.len(),
                self.entries.len() == listing.len(),
                forall|i: int| 0 <= i < at ==> lex_lt(#[trigger] listing[i].0, probe@),
            decreases self.entries.len() - at,
        {
            let order = key_order(self.entries[at].key.as_str(), probe);
            assert(self.entries[at as int].key@ == listing[at as int].0);
            match order {
                KeyOrder::Less => {},
                KeyOrder::Equal => {
                    proof {
                        lemma_slot_tells_presence(listing, probe@, at as int, true);
                    }
                    return (at, true);
                },
                KeyOrder::Greater => {
                    proof {
                        assert forall|i: int| at <= i < listing.len() implies lex_lt(
                            probe@,
                            #[trigger] listing[i].0,
                        ) by {
                            if at < i {
                                lemma_lex_lt_transitive(probe@, listing[at as int].0, listing[i].0);
                            }
                        }
                        lemma_slot_tells_presence(listing, probe@, at as int, false);
                    }
                    return (at, false);
                },
            }
            at += 1;
        }
        proof {
            lemma_slot_tells_presence(listing, probe@, at as int, false);
        }
        (at, false)
    }

    /// Files `asteroid` under `key` at the slot `at` that
    /// [`Asteroids::position`] found for that key.
    fn put_at(&mut self, at: usize, found: bool, key: String, asteroid: Asteroid)
        requires
            is_slot(old(self).listing(), key@, at as int, found),
        ensures
            final(self)@.asteroids == old(self)@.asteroids.insert(key@, asteroid),
            final(self)@.count == old(self)@.count,
            final(self).listing() == (if found {
                old(self).listing().update(at as int, (key@, asteroid))
            } else {
                old(self).listing().insert(at as int, (key@, asteroid))
            }),
    {
        proof {
            use_type_invariant(&*self);
        }
        let ghost before = self.listing();
        let ghost key_view = key@;
        let mut entries: Vec<Entry> = Vec::new();
        std::mem::swap(&mut entries, &mut self.entries);
        if found {
            entries[at].asteroid = asteroid;
            proof {
                lemma_listing_update(before, at as int, asteroid);
                assert(entries_listing(entries@) =~= before.update(at as int, (key_view, asteroid)));
            }
        } else {
            entries.insert(at, Entry { key, asteroid });
            proof {
                lemma_listing_insert(before, at as int, key_view, asteroid);
                assert(entries_listing(entries@) =~= before.insert(at as int, (key_view, asteroid)));
            }
        }
        self.entries = entries;
    }

    /// Whether an asteroid is filed under `key`.
    pub fn contains_key(&self, key: &str) -> (r: bool)
        ensures
            r == self@.asteroids.dom().contains(key@),
    {
        let probe = chars_of(key);
        self.position(&probe).1
    }

    /// The asteroid filed under `key`, if there is one.
    pub fn get(&self, key: &str) -> (r: Option<Asteroid>)
        ensures
            r == (if self@.asteroids.dom().contains(key@) {
                Some(self@.asteroids[key@])
            } else {
                None
            }),
    {
        let probe = chars_of(key);
        let (at, found) = self.position(&probe);
        if found {
            Some(self.entries[at].asteroid)
        } else {
            None
        }
    }

    /// Files `asteroid` under `key`, in place of what was filed there
    /// before. Returns whether the key is new to the field. The counter
    /// stays as it is.
    pub fn insert(&mut self, key: String, asteroid: Asteroid) -> (fresh: bool)
        ensures
            fresh == !old(self)@.asteroids.dom().contains(key@),
            final(self)@.asteroids == old(self)@.asteroids.insert(key@, asteroid),
            final(self)@.count == old(self)@.count,
            final(self).listing().len() == old(self).listing().len() + (if fresh {
                1int
            } else {
                0int
            }),
    {
        let probe = chars_of(key.as_str());
        let (at, found) = self.position(&probe);
        self.put_at(at, found, key, asteroid);
        !found
    }

    /// Puts `asteroid` in place of the asteroid at position `at`, under the
    /// same key.
    pub fn set_asteroid_at(&mut self, at: usize, asteroid: Asteroid)
        requires
            at < old(self).listing().len(),
        ensures
            final(self).listing() == old(self).listing().update(
                at as int,
                (old(self).listing()[at as int].0, asteroid),
            ),
            final(self)@.asteroids == old(self)@.asteroids.insert(
                old(self).listing()[at as int].0,
                asteroid,
            ),
            final(self)@.count == old(self)@.count,
    {
        proof {
            use_type_invariant(&*self);
        }
        let ghost before = self.listing();
        let mut entries: Vec<Entry> = Vec::new();
        std::mem::swap(&mut entries, &mut self.entries);
        entries[at].asteroid = asteroid;
        proof {
            lemma_listing_update(before, at as int, asteroid);
            assert(entries_listing(entries@) =~= before.update(
                at as int,
                (before[at as int].0, asteroid),
            ));
        }
        self.entries = entries;
    }

    /// Files `asteroid` as the next asteroid that the peer `name` creates:
    /// under the key made of `name` and the counter, which then moves on.
    pub fn add_asteroid(&mut self, name: String, asteroid: Asteroid)
        requires
            old(self)@.count < u8::MAX,
        ensures
            final(self)@.asteroids == old(self)@.asteroids.insert(
                key_text(name@, old(self)@.count as nat),
                asteroid,
            ),
            final(self)@.count == old(self)@.count + 1,
    {
        self.add_asteroid_named(name.as_str(), asteroid);
    }

    /// [`Asteroids::add_asteroid`] for a borrowed name. Also tells how the
    /// listing grows: by one entry if the key is new, otherwise not at all.
    pub fn add_asteroid_named(&mut self, name: &str, asteroid: Asteroid)
        requires
            old(self)@.count < u8::MAX,
        ensures
            final(self)@.asteroids == old(self)@.asteroids.insert(
                key_text(name@, old(self)@.count as nat),
                asteroid,
            ),
            final(self)@.count == old(self)@.count + 1,
            final(self).listing().len() == old(self).listing().len() + (if old(
                self,
            )@.asteroids.dom().contains(key_text(name@, old(self)@.count as nat)) {
                0int
            } else {
                1int
            }),
    {
        let key = entity_key(name, self.count);
        self.insert(key, asteroid);
        proof {
            use_type_invariant(&*self);
        }
        self.count += 1;
    }

    /// Sets the time of last update of every asteroid to `last_updated` and
    /// changes nothing else.
    pub fn refresh_last_updated(&mut self, last_updated: u64)
        ensures
            final(self)@.count == old(self)@.count,
            final(self)@.asteroids == refreshed(old(self)@.asteroids, last_updated),
            final(self).listing().len() == old(self).listing().len(),
    {
        proof {
            use_type_invariant(&*self);
        }
        let ghost before = self.listing();
        let ghost before_map = self@.asteroids;
        let n = self.entries.len();
        let mut i: usize = 0;
        proof {
            assert forall|j: int| 0 <= j < n implies self@.asteroids[#[trigger] before[j].0]
                == before[j].1 by {
                lemma_listing_map_entry(before, j);
            }
        }
        while i < n
            invariant
                i <= n,
                n == before.len(),
                keys_ascend(before),
                before_map == listing_map(before),
                self.listing().len() == n,
                self.counter() == old(self).counter(),
                forall|j: int| 0 <= j < n ==> (#[trigger] self.listing()[j]).0 == before[j].0,
                forall|j: int| i <= j < n ==> #[trigger] self.listing()[j] == before[j],
                self@.asteroids.dom() == before_map.dom(),
                forall|j: int|
                    0 <= j < i ==> self@.asteroids[#[trigger] before[j].0] == restamped(
                        before[j].1,
                        last_updated,
                    ),
                forall|j: int| i <= j < n ==> self@.asteroids[#[trigger] before[j].0] == before[j].1,
            decreases n - i,
        {
            let ghost current = self@.asteroids;
            let mut asteroid = self.asteroid_at(i);
            asteroid.set_last_updated(last_updated);
            self.set_asteroid_at(i, asteroid);
            proof {
                lemma_listing_map_entry(before, i as int);
                assert(self@.asteroids.dom() =~= before_map.dom());
                assert forall|j: int| 0 <= j < n && j != i implies before[j].0 != before[i as int].0 by {
                    lemma_listing_map_entry(before, j);
                }
            }
            i += 1;
        }
        proof {
            assert forall|k: Seq<char>| #[trigger]
                before_map.dom().contains(k) implies self@.asteroids[k] == restamped(
                before_map[k],
                last_updated,
            ) by {
                let j = listing_index(before, k);
                lemma_listing_map_entry(before, j);
            }
            assert(self@.asteroids =~= refreshed(before_map, last_updated));
        }
    }

    /// Removes every stale asteroid and keeps all others as they are.
    pub fn remove_stale(&mut self, now: u64)
        ensures
            final(self)@.count == old(self)@.count,
            final(self)@.asteroids == without_stale(old(self)@.asteroids, now),
            final(self).listing() == old(self).listing().filter(
                |e: (Seq<char>, Asteroid)| !stale(e.1, now),
            ),
    {
        proof {
            use_type_invariant(&*self);
            reveal(Seq::filter);
        }
        let ghost before = self.listing();
        let ghost before_map = self@.asteroids;
        let ghost fresh = |e: (Seq<char>, Asteroid)| !stale(e.1, now);
        assert(before.take(0).filter(fresh) =~= Seq::<(Seq<char>, Asteroid)>::empty());
        assert(before.skip(0) =~= before);
        let mut entries: Vec<Entry> = Vec::new();
        std::mem::swap(&mut entries, &mut self.entries);
        let ghost mut done: int = 0;
        let mut i: usize = 0;
        while i < entries.len()
            invariant
                keys_ascend(before),
                before_map == listing_map(before),
                keys_ascend(entries_listing(entries@)),
                i <= entries.len(),
                0 <= done <= before.len(),
                entries.len() - i == before.len() - done,
                fresh == |e: (Seq<char>, Asteroid)| !stale(e.1, now),
                entries_listing(entries@) == before.take(done).filter(fresh) + before.skip(done),
                before.take(done).filter(fresh).len() == i,
                forall|j: int|
                    i <= j < entries.len() ==> #[trigger] entries_listing(entries@)[j] == before[j
                        - i + done],
                forall|k: Seq<char>|
                    listing_map(entries_listing(entries@)).dom().contains(k) <==> before_map.dom().contains(
                        k,
                    ) && !(stale(before_map[k], now) && listing_index(before, k) < done),
                forall|k: Seq<char>| #[trigger]
                    listing_map(entries_listing(entries@)).dom().contains(k) ==> listing_map(
                        entries_listing(entries@),
                    )[k] == before_map[k],
            decreases entries.len() - i,
        {
            let ghost current = entries_listing(entries@);
            let asteroid = entries[i].asteroid;
            proof {
                assert(current[i as int] == before[done]);
                lemma_listing_map_entry(before, done);
                lemma_listing_map_entry(current, i as int);
            }
            let expired = asteroid.collided && now > asteroid.last_updated && now
                - asteroid.last_updated > COLLIDED_GRACE;
            assert(expired == stale(asteroid, now));
            if expired {
                entries.remove(i);
                proof {
                    lemma_listing_remove(current, i as int);
                    assert(entries_listing(entries@) =~= current.remove(i as int));
                }
            } else {
                i += 1;
            }
            proof {
                reveal(Seq::filter);
                assert(before.take(done + 1).drop_last() =~= before.take(done));
                assert(entries_listing(entries@) =~= before.take(done + 1).filter(fresh)
                    + before.skip(done + 1));
                let next = listing_map(entries_listing(entries@));
                assert forall|k: Seq<char>|
                    next.dom().contains(k) <==> before_map.dom().contains(k) && !(stale(
                        before_map[k],
                        now,
                    ) && listing_index(before, k) < done + 1) by {
                    if before_map.dom().contains(k) {
                        let at = listing_index(before, k);
                        assert(before[at].0 == k);
                        if k != before[done].0 {
                            assert(at != done);
                        }
                    }
                }
                done = done + 1;
            }
        }
        proof {
            assert forall|k: Seq<char>| before_map.dom().contains(k) implies listing_index(before, k)
                < done by {
                lemma_listing_map_entry(before, listing_index(before, k));
            }
            assert(before.take(done) =~= before);
            assert(entries_listing(entries@) =~= before.filter(fresh));
            assert(listing_map(entries_listing(entries@)) =~= without_stale(before_map, now));
        }
        self.entries = entries;
    }

    /// Merges one incoming entry into the field. An unknown key is added and
    /// moves the counter on by one, unless the counter has reached its
    /// largest value. A known key takes the incoming asteroid whole if that
    /// one is newer, and otherwise nothing changes. Returns whether the key
    /// was unknown.
    pub fn absorb(&mut self, key: &str, incoming: Asteroid) -> (fresh: bool)
        ensures
            fresh == !old(self)@.asteroids.dom().contains(key@),
            final(self)@.asteroids == merge_one(old(self)@.asteroids, key@, incoming),
            final(self)@.count == moved_on(
                old(self)@.count,
                if fresh {
                    1nat
                } else {
                    0nat
                },
            ),
    {
        let probe = chars_of(key);
        let (at, found) = self.position(&probe);
        if found {
            if incoming.last_updated > self.entries[at].asteroid.last_updated {
                self.set_asteroid_at(at, incoming);
            }
            false
        } else {
            self.put_at(at, false, key.to_owned(), incoming);
            if self.count < u8::MAX {
                self.count += 1;
            }
            true
        }
    }
}

impl Asteroids {
    /// The part of the field that the peer `name` has made, with the
    /// counter of the whole field.
    pub fn made_by(&self, name: &str) -> (own: Self)
        ensures
            own@.count == self@.count,
            own@.asteroids == owned_by(self@.asteroids, name@),
    {
        proof {
            use_type_invariant(self);
        }
        let ghost all = self.listing();
        let mut own = Asteroids::with_count(self.count);
        let mut i: usize = 0;
        proof {
            assert(all.take(0) =~= Seq::<(Seq<char>, Asteroid)>::empty());
            lemma_listing_map_empty();
            assert(own@.asteroids =~= owned_by(listing_map(all.take(0)), name@));
        }
        while i < self.entries.len()
            invariant
                i <= self.entries.len(),
                all == self.listing(),
                self.entries.len() == all.len(),
                keys_ascend(all),
                own@.count == self@.count,
                own@.asteroids == owned_by(listing_map(all.take(i as int)), name@),
            decreases self.entries.len() - i,
        {
            let ghost before = listing_map(all.take(i as int));
            let ghost key = all[i as int].0;
            let ghost asteroid = all[i as int].1;
            proof {
                lemma_listing_take(all, i as int);
                assert(self.entries@[i as int].key@ == key);
                assert(self.entries@[i as int].asteroid == asteroid);
            }
            if is_made_by(name, self.entries[i].key.as_str()) {
                own.insert(self.entries[i].key.clone(), self.entries[i].asteroid);
                proof {
                    assert(own@.asteroids =~= owned_by(before.insert(key, asteroid), name@));
                }
            } else {
                proof {
                    assert(own@.asteroids =~= owned_by(before.insert(key, asteroid), name@));
                }
            }
            i += 1;
        }
        proof {
            assert(all.take(i as int) =~= all);
        }
        own
    }
}

impl Clone for Asteroids {
    fn clone(&self) -> (copy: Self)
        ensures
            copy@ == self@,
            copy.listing() == self.listing(),
    {
        proof {
            use_type_invariant(self);
        }
        let mut entries: Vec<Entry> = Vec::new();
        let mut i: usize = 0;
        while i < self.entries.len()
            invariant
                i <= self.entries.len(),
                entries@.len() == i,
                forall|j: int|
                    0 <= j < i ==> (#[trigger] entries@[j]).key@ == self.entries@[j].key@
                        && entries@[j].asteroid == self.entries@[j].asteroid,
            decreases self.entries.len() - i,
        {
            entries.push(Entry { key: self.entries[i].key.clone(), asteroid: self.entries[i].asteroid });
            i += 1;
        }
        proof {
            assert(entries_listing(entries@) =~= entries_listing(self.entries@));
        }
        Asteroids { count: self.count, entries }
    }
}

/// Merging one more entry, under a key that `incoming` does not hold yet,
/// adds that key to the absorbed keys exactly when `target` lacks it.
pub proof fn lemma_absorbed_step(
    target: Map<Seq<char>, Asteroid>,
    incoming: Map<Seq<char>, Asteroid>,
    key: Seq<char>,
    asteroid: Asteroid,
)
    requires
        incoming.dom().finite(),
        !incoming.dom().contains(key),
    ensures
        absorbed_keys(target, incoming).finite(),
        absorbed_keys(target, incoming.insert(key, asteroid)).finite(),
        absorbed_keys(target, incoming.insert(key, asteroid)).len() == absorbed_keys(
            target,
            incoming,
        ).len() + (if target.dom().contains(key) {
            0int
        } else {
            1int
        }),
        merged(target, incoming.insert(key, asteroid)) == merge_one(
            merged(target, incoming),
            key,
            asteroid,
        ),
{
    let before = absorbed_keys(target, incoming);
    let after = absorbed_keys(target, incoming.insert(key, asteroid));
    if target.dom().contains(key) {
        assert(after =~= before);
    } else {
        assert(after =~= before.insert(key));
    }
    assert(merged(target, incoming.insert(key, asteroid)) =~= merge_one(
        merged(target, incoming),
        key,
        asteroid,
    ));
}

/// Merges the field `field2` into `field1`, entry by entry: an asteroid
/// under a key that `field1` lacks is added and moves the counter of
/// `field1` on by one; an asteroid under a key that `field1` has replaces
/// the one there, whole, if it was updated later; everything else in
/// `field1` stays as it is. Nothing is ever removed. A counter that has
/// reached its largest value stays there.
pub fn synchronize_asteroids(field1: &mut Asteroids, field2: Asteroids)
    ensures
        final(field1)@ == synchronized(old(field1)@, field2@),
{
    let ghost ours = field1@.asteroids;
    let ghost start = field1@.count;
    let ghost theirs = field2.listing();
    let total = field2.len();
    proof {
        assert(theirs.take(0) =~= Seq::<(Seq<char>, Asteroid)>::empty());
        lemma_listing_map_empty();
        assert(absorbed_keys(ours, listing_map(theirs.take(0))) =~= Set::<Seq<char>>::empty());
        assert(merged(ours, listing_map(theirs.take(0))) =~= ours);
    }
    let mut i: usize = 0;
    while i < total
        invariant
            i <= total,
            total == theirs.len(),
            theirs == field2.listing(),
            keys_ascend(theirs),
            absorbed_keys(ours, listing_map(theirs.take(i as int))).finite(),
            field1@.asteroids == merged(ours, listing_map(theirs.take(i as int))),
            field1@.count == moved_on(
                start,
                absorbed_keys(ours, listing_map(theirs.take(i as int))).len(),
            ),
        decreases total - i,
    {
        proof {
            lemma_listing_take(theirs, i as int);
            lemma_listing_dom_finite(theirs.take(i as int));
            lemma_absorbed_step(
                ours,
                listing_map(theirs.take(i as int)),
                theirs[i as int].0,
                theirs[i as int].1,
            );
        }
        field1.absorb(field2.key_at(i), field2.asteroid_at(i));
        i += 1;
    }
    proof {
        assert(theirs.take(total as int) =~= theirs);
    }
}

/// Merging a field into a field with the same content changes nothing:
/// no key is absorbed, the counter stays, and every asteroid stays.
pub proof fn lemma_merge_of_equal_fields(target: AsteroidsView, incoming: AsteroidsView)
    requires
        incoming.asteroids == target.asteroids,
    ensures
        synchronized(target, incoming) == target,
{
    assert(absorbed_keys(target.asteroids, incoming.asteroids) =~= Set::<Seq<char>>::empty());
    assert(merged(target.asteroids, incoming.asteroids) =~= target.asteroids);
}

/// A key that only the incoming field holds is absorbed: after the merge
/// the target holds the incoming asteroid under it, whole.
pub proof fn lemma_merge_absorbs_new_key(
    target: AsteroidsView,
    incoming: AsteroidsView,
    key: Seq<char>,
)
    requires
        incoming.asteroids.dom().contains(key),
        !target.asteroids.dom().contains(key),
    ensures
        synchronized(target, incoming).asteroids.dom().contains(key),
        synchronized(target, incoming).asteroids[key] == incoming.asteroids[key],
        absorbed_keys(target.asteroids, incoming.asteroids).contains(key),
{
}

/// The absorbed keys are those that only the incoming field holds, and a
/// merge moves the counter of the target on by exactly their number, as
/// long as the counter has room for them.
pub proof fn lemma_merge_counts_absorbed_keys(target: AsteroidsView, incoming: AsteroidsView)
    requires
        target.count + absorbed_keys(target.asteroids, incoming.asteroids).len() <= u8::MAX,
    ensures
        forall|k: Seq<char>|
            absorbed_keys(target.asteroids, incoming.asteroids).contains(k) <==> #[trigger]
            incoming.asteroids.dom().contains(k) && !target.asteroids.dom().contains(k),
        synchronized(target, incoming).count == target.count + absorbed_keys(
            target.asteroids,
            incoming.asteroids,
        ).len(),
{
}

/// Under a key that both fields hold, the later update wins: the merge
/// takes the incoming asteroid, whole, if it was updated strictly later
/// than the target's, and keeps the target's asteroid if it was updated
/// earlier or at the same time.
pub proof fn lemma_merge_last_write_wins(
    target: AsteroidsView,
    incoming: AsteroidsView,
    key: Seq<char>,
)
    requires
        target.asteroids.dom().contains(key),
        incoming.asteroids.dom().contains(key),
    ensures
        target.asteroids[key].last_updated < incoming.asteroids[key].last_updated ==> synchronized(
            target,
            incoming,
        ).asteroids[key] == incoming.asteroids[key],
        target.asteroids[key].last_updated >= incoming.asteroids[key].last_updated ==> synchronized(
            target,
            incoming,
        ).asteroids[key] == target.asteroids[key],
{
}

/// A merge deletes nothing: every key of the target is still there after
/// it, and a key that only the target holds keeps its asteroid, whatever
/// the incoming field holds.
pub proof fn lemma_merge_keeps_target_keys(
    target: AsteroidsView,
    incoming: AsteroidsView,
    key: Seq<char>,
)
    requires
        target.asteroids.dom().contains(key),
    ensures
        synchronized(target, incoming).asteroids.dom().contains(key),
        !incoming.asteroids.dom().contains(key) ==> synchronized(target, incoming).asteroids[key]
            == target.asteroids[key],
{
}

/// After a refresh every asteroid of the field carries the new time, no
/// asteroid has come or gone, and nothing but the time has changed. This
/// holds of a field of any size, the empty one included.
pub proof fn lemma_refresh_reaches_every_entry(field: Map<Seq<char>, Asteroid>, time: u64)
    ensures
        refreshed(field, time).dom() == field.dom(),
        forall|k: Seq<char>| #[trigger]
            field.dom().contains(k) ==> refreshed(field, time)[k].last_updated == time
                && refreshed(field, time)[k] == restamped(field[k], time),
{
    assert(refreshed(field, time).dom() =~= field.dom());
}

/// The keys of a generated field are determined by the owner's name and
/// the number of bodies alone: the field holds exactly the keys that the
/// name makes with the indices below that number, and body `i` is filed
/// under the key of index `i`.
pub proof fn lemma_generated_keys(name: Seq<char>, bodies: Seq<Asteroid>)
    requires
        bodies.len() <= 1000000,
    ensures
        forall|k: Seq<char>|
            filed_under(Map::empty(), name, 0, bodies).dom().contains(k) <==> exists|i: nat|
                i < bodies.len() && k == #[trigger] key_text(name, i),
        forall|i: nat|
            i < bodies.len() ==> filed_under(Map::empty(), name, 0, bodies)[#[trigger] key_text(
                name,
                i,
            )] == bodies[i as int],
    decreases bodies.len(),
{
    let all = filed_under(Map::empty(), name, 0, bodies);
    if bodies.len() > 0 {
        let head = bodies.drop_last();
        let rest = filed_under(Map::empty(), name, 0, head);
        let last = (bodies.len() - 1) as nat;
        lemma_generated_keys(name, head);
        assert forall|k: Seq<char>| all.dom().contains(k) implies exists|i: nat|
            i < bodies.len() && k == #[trigger] key_text(name, i) by {
            if k == key_text(name, last) {
            } else {
                assert(rest.dom().contains(k));
                let i = choose|i: nat| i < head.len() && k == #[trigger] key_text(name, i);
                assert(i < bodies.len() && k == key_text(name, i));
            }
        }
        assert forall|i: nat| i < bodies.len() implies all.dom().contains(
            #[trigger] key_text(name, i),
        ) && all[key_text(name, i)] == bodies[i as int] by {
            if i < last {
                assert(rest.dom().contains(key_text(name, i)));
                if key_text(name, i) == key_text(name, last) {
                    lemma_key_text_injective(name, i, name, last);
                }
            }
        }
    }
}

/// A merge never turns time back and never takes the counter back: an
/// asteroid of the target is, after the merge, at least as recently
/// updated as it was, and the counter is at least what it was.
pub proof fn lemma_merge_only_moves_forward(
    target: AsteroidsView,
    incoming: AsteroidsView,
    key: Seq<char>,
)
    requires
        target.asteroids.dom().contains(key),
    ensures
        synchronized(target, incoming).asteroids[key].last_updated
            >= target.asteroids[key].last_updated,
        synchronized(target, incoming).count >= target.count,
{
}

} // verus!

//! Listings: the content of a field written out in key order, the mapping
//! that a listing spells out, and how single edits of a listing change
//! that mapping.

use crate::asteroid::Asteroid;
use crate::text::{lemma_lex_lt_asymmetric, lex_lt};
use vstd::prelude::*;

verus! {

/// The content of a field in iteration order: each key with its asteroid.
pub type Listing = Seq<(Seq<char>, Asteroid)>;

/// Every key of `listing` sorts strictly before the keys that follow it.
pub open spec fn keys_ascend(listing: Listing) -> bool {
    forall|i: int, j: int| 0 <= i < j < listing.len() ==> lex_lt(listing[i].0, listing[j].0)
}

/// `key` is the key of some entry of `listing`.
pub open spec fn listing_has(listing: Listing, key: Seq<char>) -> bool {
    exists|i: int| 0 <= i < listing.len() && listing[i].0 == key
}

/// The position of an entry of `listing` filed under `key`.
pub open spec fn listing_index(listing: Listing, key: Seq<char>) -> int {
    choose|i: int| 0 <= i < listing.len() && listing[i].0 == key
}

/// The mapping from key to asteroid that `listing` spells out.
pub open spec fn listing_map(listing: Listing) -> Map<Seq<char>, Asteroid> {
    Map::new(|k: Seq<char>| listing_has(listing, k), |k: Seq<char>| listing[listing_index(listing, k)].1)
}

/// In an ascending listing no key occurs twice, so each entry is what the
/// listing maps its key to.
pub proof fn lemma_listing_map_entry(listing: Listing, i: int)
    requires
        keys_ascend(listing),
        0 <= i < listing.len(),
    ensures
        listing_map(listing).dom().contains(listing[i].0),
        listing_map(listing)[listing[i].0] == listing[i].1,
        listing_index(listing, listing[i].0) == i,
{
    let k = listing[i].0;
    let j = listing_index(listing, k);
    assert(listing_has(listing, k));
    if j < i {
        lemma_lex_lt_asymmetric(listing[j].0, listing[i].0);
    } else if i < j {
        lemma_lex_lt_asymmetric(listing[i].0, listing[j].0);
    }
}

/// Entering a key at the place where the order wants it keeps the listing
/// ascending and adds exactly that key to its mapping.
pub proof fn lemma_listing_insert(listing: Listing, at: int, key: Seq<char>, asteroid: Asteroid)
    requires
        keys_ascend(listing),
        0 <= at <= listing.len(),
        forall|i: int| 0 <= i < at ==> lex_lt(#[trigger] listing[i].0, key),
        forall|i: int| at <= i < listing.len() ==> lex_lt(key, #[trigger] listing[i].0),
    ensures
        keys_ascend(listing.insert(at, (key, asteroid))),
        !listing_map(listing).dom().contains(key),
        listing_map(listing.insert(at, (key, asteroid))) == listing_map(listing).insert(
            key,
            asteroid,
        ),
{
    let grown = listing.insert(at, (key, asteroid));
    assert(keys_ascend(grown)) by {
        assert forall|i: int, j: int| 0 <= i < j < grown.len() implies lex_lt(
            grown[i].0,
            grown[j].0,
        ) by {
            let si = if i < at { i } else { i - 1 };
            let sj = if j < at { j } else { j - 1 };
            if i == at {
                assert(grown[j] == listing[sj]);
            } else if j == at {
                assert(grown[i] == listing[si]);
            } else {
                assert(grown[i] == listing[si]);
                assert(grown[j] == listing[sj]);
            }
        }
    }
    if listing_has(listing, key) {
        let i = listing_index(listing, key);
        if i < at {
            lemma_lex_lt_asymmetric(listing[i].0, key);
        } else {
            lemma_lex_lt_asymmetric(key, listing[i].0);
        }
    }
    let lhs = listing_map(grown);
    let rhs = listing_map(listing).insert(key, asteroid);
    assert forall|k: Seq<char>| lhs.dom().contains(k) <==> rhs.dom().contains(k) by {
        if listing_has(grown, k) {
            let g = listing_index(grown, k);
            if g < at {
                assert(grown[g] == listing[g]);
            } else if g > at {
                assert(grown[g] == listing[g - 1]);
            }
        }
        if k == key {
            assert(grown[at].0 == k);
        } else if listing_has(listing, k) {
            let i = listing_index(listing, k);
            if i < at {
                assert(grown[i] == listing[i]);
            } else {
                assert(grown[i + 1] == listing[i]);
            }
        }
    }
    assert forall|k: Seq<char>| lhs.dom().contains(k) implies lhs[k] == rhs[k] by {
        let g = listing_index(grown, k);
        lemma_listing_map_entry(grown, g);
        if g < at {
            assert(grown[g] == listing[g]);
            lemma_listing_map_entry(listing, g);
        } else if g > at {
            assert(grown[g] == listing[g - 1]);
            lemma_listing_map_entry(listing, g - 1);
        }
    }
    assert(lhs =~= rhs);
}

/// Replacing the asteroid of one entry keeps the keys and rebinds that
/// entry's key in the mapping.
pub proof fn lemma_listing_update(listing: Listing, at: int, asteroid: Asteroid)
    requires
        keys_ascend(listing),
        0 <= at < listing.len(),
    ensures
        keys_ascend(listing.update(at, (listing[at].0, asteroid))),
        listing_map(listing.update(at, (listing[at].0, asteroid))) == listing_map(listing).insert(
            listing[at].0,
            asteroid,
        ),
{
    let key = listing[at].0;
    let changed = listing.update(at, (key, asteroid));
    assert(keys_ascend(changed)) by {
        assert forall|i: int, j: int| 0 <= i < j < changed.len() implies lex_lt(
            changed[i].0,
            changed[j].0,
        ) by {
            assert(changed[i].0 == listing[i].0);
            assert(changed[j].0 == listing[j].0);
        }
    }
    let lhs = listing_map(changed);
    let rhs = listing_map(listing).insert(key, asteroid);
    assert forall|k: Seq<char>| lhs.dom().contains(k) <==> rhs.dom().contains(k) by {
        if listing_has(changed, k) {
            let g = listing_index(changed, k);
            assert(listing[g].0 == k);
        }
        if k == key {
            assert(changed[at].0 == k);
        } else if listing_has(listing, k) {
            let i = listing_index(listing, k);
            assert(changed[i].0 == k);
        }
    }
    assert forall|k: Seq<char>| lhs.dom().contains(k) implies lhs[k] == rhs[k] by {
        let g = listing_index(changed, k);
        lemma_listing_map_entry(changed, g);
        if g != at {
            assert(changed[g] == listing[g]);
            lemma_listing_map_entry(listing, g);
            lemma_listing_map_entry(listing, at);
        }
    }
    assert(lhs =~= rhs);
}

/// Dropping one entry keeps the listing ascending and removes exactly that
/// entry's key from the mapping.
pub proof fn lemma_listing_remove(listing: Listing, at: int)
    requires
        keys_ascend(listing),
        0 <= at < listing.len(),
    ensures
        keys_ascend(listing.remove(at)),
        listing_map(listing.remove(at)) == listing_map(listing).remove(listing[at].0),
{
    let key = listing[at].0;
    let shrunk = listing.remove(at);
    assert(keys_ascend(shrunk)) by {
        assert forall|i: int, j: int| 0 <= i < j < shrunk.len() implies lex_lt(
            shrunk[i].0,
            shrunk[j].0,
        ) by {
            let si = if i < at { i } else { i + 1 };
            let sj = if j < at { j } else { j + 1 };
            assert(shrunk[i] == listing[si]);
            assert(shrunk[j] == listing[sj]);
        }
    }
    let lhs = listing_map(shrunk);
    let rhs = listing_map(listing).remove(key);
    assert forall|k: Seq<char>| lhs.dom().contains(k) <==> rhs.dom().contains(k) by {
        if listing_has(shrunk, k) {
            let g = listing_index(shrunk, k);
            let sg = if g < at { g } else { g + 1 };
            assert(shrunk[g] == listing[sg]);
            lemma_listing_map_entry(listing, sg);
            lemma_listing_map_entry(listing, at);
        }
        if k != key && listing_has(listing, k) {
            let i = listing_index(listing, k);
            if i < at {
                assert(shrunk[i] == listing[i]);
            } else {
                assert(shrunk[i - 1] == listing[i]);
            }
        }
    }
    assert forall|k: Seq<char>| lhs.dom().contains(k) implies lhs[k] == rhs[k] by {
        let g = listing_index(shrunk, k);
        let sg = if g < at { g } else { g + 1 };
        lemma_listing_map_entry(shrunk, g);
        assert(shrunk[g] == listing[sg]);
        lemma_listing_map_entry(listing, sg);
    }
    assert(lhs =~= rhs);
}

/// `at` is where `key` is or would be filed in `listing`: every earlier key
/// sorts before `key`; if `found`, the entry at `at` has that key, and
/// otherwise every key from `at` on sorts after it.
pub open spec fn is_slot(listing: Listing, key: Seq<char>, at: int, found: bool) -> bool {
    &&& 0 <= at <= listing.len()
    &&& forall|i: int| 0 <= i < at ==> lex_lt(#[trigger] listing[i].0, key)
    &&& found ==> at < listing.len() && listing[at].0 == key
    &&& !found ==> forall|i: int| at <= i < listing.len() ==> lex_lt(key, #[trigger] listing[i].0)
}

/// A key is found at its slot exactly when the listing maps it.
pub proof fn lemma_slot_tells_presence(listing: Listing, key: Seq<char>, at: int, found: bool)
    requires
        keys_ascend(listing),
        is_slot(listing, key, at, found),
    ensures
        found == listing_map(listing).dom().contains(key),
        found ==> listing_map(listing)[key] == listing[at].1,
{
    if found {
        lemma_listing_map_entry(listing, at);
    } else {
        lemma_listing_insert(listing, at, key, arbitrary());
    }
}

/// The first `n + 1` entries of an ascending listing map what the first `n`
/// map, and in addition the key of entry `n`, which is new to them.
pub proof fn lemma_listing_take(listing: Listing, n: int)
    requires
        keys_ascend(listing),
        0 <= n < listing.len(),
    ensures
        keys_ascend(listing.take(n)),
        keys_ascend(listing.take(n + 1)),
        !listing_map(listing.take(n)).dom().contains(listing[n].0),
        listing_map(listing.take(n + 1)) == listing_map(listing.take(n)).insert(
            listing[n].0,
            listing[n].1,
        ),
{
    let head = listing.take(n);
    assert(keys_ascend(head)) by {
        assert forall|i: int, j: int| 0 <= i < j < head.len() implies lex_lt(
            head[i].0,
            head[j].0,
        ) by {
            assert(head[i] == listing[i] && head[j] == listing[j]);
        }
    }
    assert forall|i: int| 0 <= i < n implies lex_lt(#[trigger] head[i].0, listing[n].0) by {
        assert(head[i] == listing[i]);
    }
    lemma_listing_insert(head, n, listing[n].0, listing[n].1);
    assert(head.insert(n, (listing[n].0, listing[n].1)) =~= listing.take(n + 1));
}

/// An ascending listing maps as many keys as it has entries.
pub proof fn lemma_listing_dom_finite(listing: Listing)
    requires
        keys_ascend(listing),
    ensures
        listing_map(listing).dom().finite(),
        listing_map(listing).dom().len() == listing.len(),
    decreases listing.len(),
{
    if listing.len() == 0 {
        assert(listing_map(listing).dom() =~= Set::<Seq<char>>::empty());
    } else {
        let n = listing.len() - 1;
        lemma_listing_take(listing, n);
        lemma_listing_dom_finite(listing.take(n));
        assert(listing.take(n + 1) =~= listing);
    }
}

/// The empty listing maps nothing.
pub proof fn lemma_listing_map_empty()
    ensures
        listing_map(Seq::<(Seq<char>, Asteroid)>::empty()) == Map::<
            Seq<char>,
            Asteroid,
        >::empty(),
{
    assert(listing_map(Seq::<(Seq<char>, Asteroid)>::empty()) =~= Map::<
        Seq<char>,
        Asteroid,
    >::empty());
}

} // verus!

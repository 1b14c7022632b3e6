//! The schedule of a session: when a peer sends what, when the game is
//! over, and where the peers meet.

use crate::field::{owned_by, Asteroids, AsteroidsView};
use crate::network::{guest_mode, host_mode, GuestData};
use crate::ship::{ship_views, Ship, ShipView};
use crate::text::{append_decimal, decimal, same_text};
use vstd::prelude::*;
use vstd::string::*;

verus! {

/// The host sends its state once the tick counter has passed this value,
/// that is after every fifth tick.
pub const BROADCAST_AFTER: u32 = 4;

/// The address at which the peers of a session meet.
pub open spec fn server_address(host: Seq<char>, port: u16, name: Seq<char>) -> Seq<char> {
    "ws://"@ + host + ":"@ + decimal(port as nat) + "/gamedata/"@ + name
}

/// Builds the address at which the player `name` joins the session served
/// at `host` and `port`.
pub fn server_url(host: &str, port: u16, name: &str) -> (url: String)
    ensures
        url@ == server_address(host@, port, name@),
{
    let mut url = String::from_str("ws://");
    url.append(host);
    url.append(":");
    append_decimal(&mut url, port);
    url.append("/gamedata/");
    url.append(name);
    url
}

/// What a peer sends at the start of a tick.
#[derive(Clone, Copy, Debug, PartialEq, Eq, Structural)]
pub enum Outbound {
    /// Nothing is due.
    Nothing,
    /// The host sends its state to everyone.
    GameData,
    /// A guest answers the host with its own state.
    GuestData,
}

/// What is due at the start of a tick, when `solo`, `mode` and the two
/// counters stand as given.
pub open spec fn due(solo: bool, mode: Seq<char>, frame_count: u32, host_msg_received: bool) -> Outbound {
    if solo {
        Outbound::Nothing
    } else if mode == host_mode() && frame_count > BROADCAST_AFTER {
        Outbound::GameData
    } else if mode == guest_mode() && host_msg_received {
        Outbound::GuestData
    } else {
        Outbound::Nothing
    }
}

/// Decides what the peer sends at the start of a tick.
///
/// A peer that plays alone sends nothing. The host sends its state once
/// more than four ticks have passed since it last did, and starts counting
/// anew. A guest answers once for each message of the host that it has
/// heard since its last answer. A spectator never sends.
pub fn outbound(solo: bool, mode: &str, frame_count: &mut u32, host_msg_received: &mut bool) -> (out:
    Outbound)
    ensures
        out == due(solo, mode@, *old(frame_count), *old(host_msg_received)),
        *final(frame_count) == (if out == Outbound::GameData {
            0
        } else {
            *old(frame_count)
        }),
        *final(host_msg_received) == (if out == Outbound::GuestData {
            false
        } else {
            *old(host_msg_received)
        }),
{
    proof {
        reveal_strlit("host");
        reveal_strlit("guest");
        assert(host_mode().len() != guest_mode().len());
    }
    if solo {
        return Outbound::Nothing;
    }
    if *frame_count > BROADCAST_AFTER && same_text(mode, "host") {
        *frame_count = 0;
        return Outbound::GameData;
    }
    if *host_msg_received && same_text(mode, "guest") {
        *host_msg_received = false;
        return Outbound::GuestData;
    }
    Outbound::Nothing
}

/// The positions in `players` of the ships of the player `name`, in
/// ascending order.
pub open spec fn own_indices(players: Seq<ShipView>, name: Seq<char>) -> Seq<int> {
    Seq::new(players.len(), |i: int| i).filter(|i: int| players[i].name == name)
}

/// What a guest reports of its field: the asteroids that the guest itself
/// has made, and its counter. Asteroids that came from other peers are
/// not sent back.
pub open spec fn reported_field(asteroids: AsteroidsView, name: Seq<char>) -> AsteroidsView {
    AsteroidsView { count: asteroids.count, asteroids: owned_by(asteroids.asteroids, name) }
}

/// The answers of a guest to the host: one for each ship of the player
/// `name`, in the order of the ships, each with that ship and with the
/// part of the field that the guest itself has made.
pub fn guest_reports(players: &Vec<Ship>, name: &str, asteroids: &Asteroids) -> (reports: Vec<GuestData>)
    ensures
        reports@.len() == own_indices(ship_views(players@), name@).len(),
        forall|k: int|
            0 <= k < reports@.len() ==> (#[trigger] reports@[k]).ship@ == ship_views(
                players@,
            )[own_indices(ship_views(players@), name@)[k]] && reports@[k].asteroids@ == reported_field(
                asteroids@,
                name@,
            ),
{
    let ghost views = ship_views(players@);
    let ghost all = Seq::new(views.len(), |i: int| i);
    let ghost own = |i: int| views[i].name == name@;
    let made = asteroids.made_by(name);
    let mut reports: Vec<GuestData> = Vec::new();
    let mut i: usize = 0;
    proof {
        reveal(Seq::filter);
        assert(all.take(0).filter(own) =~= Seq::<int>::empty());
    }
    while i < players.len()
        invariant
            i <= players.len(),
            views == ship_views(players@),
            all == Seq::new(views.len(), |i: int| i),
            own == |i: int| views[i].name == name@,
            made@ == reported_field(asteroids@, name@),
            reports@.len() == all.take(i as int).filter(own).len(),
            forall|k: int|
                0 <= k < reports@.len() ==> (#[trigger] reports@[k]).ship@ == views[all.take(
                    i as int,
                ).filter(own)[k]] && reports@[k].asteroids@ == reported_field(asteroids@, name@),
        decreases players.len() - i,
    {
        proof {
            reveal(Seq::filter);
            assert(all.take(i + 1).drop_last() =~= all.take(i as int));
            assert(all.take(i + 1).last() == i);
        }
        if same_text(players[i].name.as_str(), name) {
            reports.push(GuestData::snapshot(&players[i], &made));
        }
        i += 1;
    }
    proof {
        assert(all.take(i as int) =~= all);
    }
    reports
}

/// Decides whether the host sends its state one more time because the game
/// has just ended: once per game, so that the guests hear of the end
/// whatever their own tick counters say. Sending it starts the tick
/// counter anew.
pub fn final_frame(solo: bool, mode: &str, gameover_msg_sent: &mut bool, frame_count: &mut u32) -> (send:
    bool)
    ensures
        send == (!solo && mode@ == host_mode() && !*old(gameover_msg_sent)),
        *final(gameover_msg_sent) == (*old(gameover_msg_sent) || send),
        *final(frame_count) == (if send {
            0
        } else {
            *old(frame_count)
        }),
{
    if !solo && !*gameover_msg_sent && same_text(mode, "host") {
        *frame_count = 0;
        *gameover_msg_sent = true;
        true
    } else {
        false
    }
}

/// Every ship in `players` is collided.
pub open spec fn all_collided(players: Seq<ShipView>) -> bool {
    forall|i: int| 0 <= i < players.len() ==> (#[trigger] players[i]).collided
}

/// Whether the game is over: the field is empty, which is a win, or every
/// ship is collided.
pub fn is_game_over(asteroids: &Asteroids, players: &Vec<Ship>) -> (over: bool)
    ensures
        over == (asteroids.listing().len() == 0 || all_collided(ship_views(players@))),
{
    if asteroids.is_empty() {
        return true;
    }
    let mut i: usize = 0;
    while i < players.len()
        invariant
            i <= players.len(),
            asteroids.listing().len() != 0,
            forall|j: int| 0 <= j < i ==> (#[trigger] ship_views(players@)[j]).collided,
        decreases players.len() - i,
    {
        if !players[i].collided {
            proof {
                let views = ship_views(players@);
                assert(0 <= i < views.len() && !views[i as int].collided);
            }
            return false;
        }
        i += 1;
    }
    true
}

/// The tick counter after one more tick.
pub fn next_tick(frame_count: u32) -> (next: u32)
    requires
        frame_count < u32::MAX,
    ensures
        next == frame_count + 1,
{
    frame_count + 1
}

} // verus!

//! The message protocol between the host and its guests.
//!
//! A message is a line of text. Its kind is told by a literal prefix; what
//! follows the prefix is the payload, which is decoded outside this
//! library. This module tells the kind of a message, frames outgoing
//! payloads, and applies decoded messages to the game state.

use crate::asteroid::Asteroid;
use crate::clock::SessionClock;
use crate::field::{refreshed, synchronize_asteroids, synchronized, Asteroids, AsteroidsView};
use crate::ship::{copy_ships, new_ship, ship_views, Ship, ShipView};
use crate::text::{has_prefix, same_text, strip_prefix};
use crate::vector::Vec2;
use vstd::prelude::*;
use vstd::string::*;

verus! {

/// The prefix of the message with which a peer announces itself.
pub open spec fn hello_marker() -> Seq<char> {
    "Hello from "@
}

/// The prefix of the message that carries the state of a guest.
pub open spec fn guest_data_marker() -> Seq<char> {
    "GuestData: "@
}

/// The prefix of the message that carries the state of the host.
pub open spec fn game_data_marker() -> Seq<char> {
    "GameData: "@
}

/// The name of the role that owns the game.
pub open spec fn host_mode() -> Seq<char> {
    "host"@
}

/// The name of the role that plays along.
pub open spec fn guest_mode() -> Seq<char> {
    "guest"@
}

/// What follows the first `skip` characters of `text`.
pub open spec fn after(text: Seq<char>, skip: nat) -> Seq<char> {
    text.subrange(skip as int, text.len() as int)
}

/// The kind of a message, with the text that follows its prefix.
pub enum Frame {
    /// A peer of the given name announces itself.
    Hello(String),
    /// State of a guest; the payload is still encoded.
    GuestData(String),
    /// State of the host; the payload is still encoded.
    GameData(String),
    /// Anything else. Such a message is ignored.
    Unknown,
}

/// A frame with its text as a sequence of characters.
pub enum FrameView {
    Hello(Seq<char>),
    GuestData(Seq<char>),
    GameData(Seq<char>),
    Unknown,
}

impl View for Frame {
    type V = FrameView;

    open spec fn view(&self) -> FrameView {
        match self {
            Frame::Hello(name) => FrameView::Hello(name@),
            Frame::GuestData(payload) => FrameView::GuestData(payload@),
            Frame::GameData(payload) => FrameView::GameData(payload@),
            Frame::Unknown => FrameView::Unknown,
        }
    }
}

/// The frame that the message `text` is for a peer in the role `mode`.
///
/// A message that begins with the hello prefix is a hello, for every role.
/// Only the host reads guest data, and only the other roles read game
/// data. Everything else is unknown.
pub open spec fn frame_of(mode: Seq<char>, text: Seq<char>) -> FrameView {
    if has_prefix(text, hello_marker()) {
        FrameView::Hello(after(text, hello_marker().len()))
    } else if mode == host_mode() && has_prefix(text, guest_data_marker()) {
        FrameView::GuestData(after(text, guest_data_marker().len()))
    } else if mode != host_mode() && has_prefix(text, game_data_marker()) {
        FrameView::GameData(after(text, game_data_marker().len()))
    } else {
        FrameView::Unknown
    }
}

/// Tells the kind of the message `text` for a peer in the role `mode`.
pub fn classify(mode: &str, text: &str) -> (frame: Frame)
    ensures
        frame@ == frame_of(mode@, text@),
{
    let is_host = same_text(mode, "host");
    match strip_prefix(text, "Hello from ") {
        Some(name) => Frame::Hello(name),
        None => {
            if is_host {
                match strip_prefix(text, "GuestData: ") {
                    Some(payload) => Frame::GuestData(payload),
                    None => Frame::Unknown,
                }
            } else {
                match strip_prefix(text, "GameData: ") {
                    Some(payload) => Frame::GameData(payload),
                    None => Frame::Unknown,
                }
            }
        },
    }
}

/// The message with which the peer `name` announces itself.
pub fn hello_message(name: &str) -> (text: String)
    ensures
        text@ == hello_marker() + name@,
{
    let mut text = String::from_str("Hello from ");
    text.append(name);
    text
}

/// The message that carries the encoded state of the host.
pub fn serialize_host_data(payload: &str) -> (text: String)
    ensures
        text@ == game_data_marker() + payload@,
{
    let mut text = String::from_str("GameData: ");
    text.append(payload);
    text
}

/// The message that carries the encoded state of a guest.
pub fn serialize_guest_data(payload: &str) -> (text: String)
    ensures
        text@ == guest_data_marker() + payload@,
{
    let mut text = String::from_str("GuestData: ");
    text.append(payload);
    text
}

/// What the host sends to everyone: its whole field, every player with
/// its bullets, and whether the game is over.
pub struct GameData {
    pub asteroids: Asteroids,
    pub players: Vec<Ship>,
    pub gameover: bool,
}

/// What a guest sends to the host: its own ship with its bullets, and the
/// field of the asteroids that the guest itself has created.
pub struct GuestData {
    pub asteroids: Asteroids,
    pub ship: Ship,
}

impl GameData {
    /// The state of the host as it stands, copied for sending.
    pub fn snapshot(asteroids: &Asteroids, players: &Vec<Ship>, gameover: bool) -> (data: Self)
        ensures
            data.asteroids@ == asteroids@,
            ship_views(data.players@) == ship_views(players@),
            data.gameover == gameover,
    {
        GameData { asteroids: asteroids.clone(), players: copy_ships(players), gameover }
    }
}

impl GuestData {
    /// The state of a guest as it stands, copied for sending.
    pub fn snapshot(ship: &Ship, asteroids: &Asteroids) -> (data: Self)
        ensures
            data.asteroids@ == asteroids@,
            data.ship@ == ship@,
    {
        GuestData { asteroids: asteroids.clone(), ship: ship.clone() }
    }
}

/// `players` with every ship of the player `name` replaced by `with`.
pub open spec fn replace_named(players: Seq<ShipView>, name: Seq<char>, with: ShipView) -> Seq<
    ShipView,
> {
    Seq::new(
        players.len(),
        |i: int|
            if players[i].name == name {
                with
            } else {
                players[i]
            },
    )
}

/// Ship `i` is the last ship of the player `name` in `players`.
pub open spec fn is_last_named(players: Seq<ShipView>, name: Seq<char>, i: int) -> bool {
    &&& 0 <= i < players.len()
    &&& players[i].name == name
    &&& forall|k: int| i < k < players.len() ==> players[k].name != name
}

/// The ship that the player `name` has in `players`: the last of that
/// name, or a new ship at `center` if there is none.
pub open spec fn own_ship(players: Seq<ShipView>, name: Seq<char>, center: Vec2) -> ShipView {
    if exists|i: int| is_last_named(players, name, i) {
        players[choose|i: int| is_last_named(players, name, i)]
    } else {
        new_ship(name, center)
    }
}

/// Replaces every ship of the player `name` by a copy of `with`.
pub fn replace_ships_named(players: &mut Vec<Ship>, name: &str, with: &Ship)
    ensures
        ship_views(final(players)@) == replace_named(ship_views(old(players)@), name@, with@),
{
    let total = players.len();
    let mut i: usize = 0;
    while i < total
        invariant
            i <= total,
            players@.len() == total,
            total == old(players)@.len(),
            forall|j: int|
                0 <= j < i ==> (#[trigger] players@[j])@ == replace_named(
                    ship_views(old(players)@),
                    name@,
                    with@,
                )[j],
            forall|j: int| i <= j < total ==> #[trigger] players@[j] == old(players)@[j],
        decreases total - i,
    {
        if same_text(players[i].name.as_str(), name) {
            players[i] = with.clone();
        }
        i += 1;
    }
    assert(ship_views(players@) =~= replace_named(ship_views(old(players)@), name@, with@));
}

/// A copy of the ship that the player `name` has in `players`.
pub fn find_own_ship(players: &Vec<Ship>, name: &str, center: Vec2) -> (ship: Ship)
    ensures
        ship@ == own_ship(ship_views(players@), name@, center),
{
    let ghost views = ship_views(players@);
    let mut i: usize = players.len();
    while i > 0
        invariant
            i <= players.len(),
            views == ship_views(players@),
            forall|k: int| i <= k < players.len() ==> views[k].name != name@,
        decreases i,
    {
        i -= 1;
        if same_text(players[i].name.as_str(), name) {
            proof {
                assert(is_last_named(views, name@, i as int));
                let chosen = choose|k: int| is_last_named(views, name@, k);
                assert(chosen == i);
            }
            return players[i].clone();
        }
    }
    Ship::new(String::from_str(name), center)
}

/// A peer named `peer` has announced itself at the wall time `now`: a new
/// ship for it joins the players, the session clock starts anew, and every
/// asteroid of the field reads as updated at session time zero.
pub fn apply_hello(
    players: &mut Vec<Ship>,
    asteroids: &mut Asteroids,
    clock: &mut SessionClock,
    peer: String,
    now: u64,
    center: Vec2,
)
    ensures
        ship_views(final(players)@) == ship_views(old(players)@).push(new_ship(peer@, center)),
        final(clock).epoch == now,
        final(asteroids)@ == (AsteroidsView {
            asteroids: refreshed(old(asteroids)@.asteroids, 0),
            ..old(asteroids)@
        }),
{
    players.push(Ship::new(peer, center));
    clock.rebase(now);
    asteroids.refresh_last_updated(clock.now(now));
    assert(ship_views(players@) =~= ship_views(old(players)@).push(new_ship(peer@, center)));
}

/// The host has received the state of a guest: the ship of that guest
/// replaces the host's record of it, whole, and the asteroids of the guest
/// are merged into the field.
pub fn apply_guest_data(players: &mut Vec<Ship>, asteroids: &mut Asteroids, data: GuestData)
    ensures
        ship_views(final(players)@) == replace_named(
            ship_views(old(players)@),
            data.ship@.name,
            data.ship@,
        ),
        final(asteroids)@ == synchronized(old(asteroids)@, data.asteroids@),
{
    let GuestData { asteroids: theirs, ship } = data;
    replace_ships_named(players, ship.name.as_str(), &ship);
    synchronize_asteroids(asteroids, theirs);
}

/// A peer other than the host has received the state of the host: the
/// asteroids of the host are merged into the field, the game is over if
/// the host says so, and the players are those of the host, except that
/// the peer's own ship stays as the peer has it.
pub fn apply_game_data(
    name: &str,
    players: &mut Vec<Ship>,
    asteroids: &mut Asteroids,
    gameover: &mut bool,
    host_msg_received: &mut bool,
    data: GameData,
    center: Vec2,
)
    ensures
        final(asteroids)@ == synchronized(old(asteroids)@, data.asteroids@),
        *final(gameover) == data.gameover,
        ship_views(final(players)@) == replace_named(
            ship_views(data.players@),
            name@,
            own_ship(ship_views(old(players)@), name@, center),
        ),
        *final(host_msg_received),
{
    let current_ship = find_own_ship(players, name, center);
    let GameData { asteroids: theirs, players: their_players, gameover: over } = data;
    synchronize_asteroids(asteroids, theirs);
    *gameover = over;
    *players = their_players;
    replace_ships_named(players, name, &current_ship);
    *host_msg_received = true;
}

/// A message after its payload was decoded.
pub enum Incoming {
    Hello(String),
    GuestData(GuestData),
    GameData(GameData),
    Unknown,
}

/// Applies one decoded message to the state of the peer `name` in the role
/// `mode`.
///
/// A hello is applied by every role ([`apply_hello`]). Guest data is
/// applied by the host only ([`apply_guest_data`]), game data by the other
/// roles only ([`apply_game_data`]). Any other message leaves the state as
/// it is.
pub fn deserialize_host_data(
    name: &str,
    mode: &str,
    msg: Incoming,
    asteroids: &mut Asteroids,
    players: &mut Vec<Ship>,
    gameover: &mut bool,
    host_msg_received: &mut bool,
    clock: &mut SessionClock,
    now: u64,
    center: Vec2,
)
    ensures
        match msg {
            Incoming::Hello(peer) => {
                &&& ship_views(final(players)@) == ship_views(old(players)@).push(
                    new_ship(peer@, center),
                )
                &&& final(clock).epoch == now
                &&& final(asteroids)@ == (AsteroidsView {
                    asteroids: refreshed(old(asteroids)@.asteroids, 0),
                    ..old(asteroids)@
                })
                &&& *final(gameover) == *old(gameover)
                &&& *final(host_msg_received) == *old(host_msg_received)
            },
            Incoming::GuestData(data) if mode@ == host_mode() => {
                &&& ship_views(final(players)@) == replace_named(
                    ship_views(old(players)@),
                    data.ship@.name,
                    data.ship@,
                )
                &&& final(asteroids)@ == synchronized(old(asteroids)@, data.asteroids@)
                &&& *final(clock) == *old(clock)
                &&& *final(gameover) == *old(gameover)
                &&& *final(host_msg_received) == *old(host_msg_received)
            },
            Incoming::GameData(data) if mode@ != host_mode() => {
                &&& ship_views(final(players)@) == replace_named(
                    ship_views(data.players@),
                    name@,
                    own_ship(ship_views(old(players)@), name@, center),
                )
                &&& final(asteroids)@ == synchronized(old(asteroids)@, data.asteroids@)
                &&& *final(clock) == *old(clock)
                &&& *final(gameover) == data.gameover
                &&& *final(host_msg_received)
            },
            _ => {
                &&& ship_views(final(players)@) == ship_views(old(players)@)
                &&& final(asteroids)@ == old(asteroids)@
                &&& *final(clock) == *old(clock)
                &&& *final(gameover) == *old(gameover)
                &&& *final(host_msg_received) == *old(host_msg_received)
            },
        },
{
    let is_host = same_text(mode, "host");
    match msg {
        Incoming::Hello(peer) => {
            apply_hello(players, asteroids, clock, peer, now, center);
        },
        Incoming::GuestData(data) => {
            if is_host {
                apply_guest_data(players, asteroids, data);
            }
        },
        Incoming::GameData(data) => {
            if !is_host {
                apply_game_data(name, players, asteroids, gameover, host_msg_received, data, center);
            }
        },
        Incoming::Unknown => {},
    }
}

/// What a peer does next while it waits to be synchronized.
pub enum WaitStep {
    /// Block until the next message arrives, apply it, and ask again.
    Receive,
    /// The wait is over. A guest then sends the given hello.
    Done(Option<String>),
}

/// The next step of the wait for the first state of the host.
///
/// The host does not wait. Every other role receives at least one message
/// and goes on receiving until its field holds an asteroid. A guest then
/// announces that it is ready; a spectator sends nothing. `received` tells
/// whether a message was applied since the wait began.
pub fn wait_synchronization_data(name: &str, mode: &str, asteroids: &Asteroids, received: bool) -> (step:
    WaitStep)
    ensures
        match step {
            WaitStep::Receive => mode@ != host_mode() && (!received
                || asteroids@.asteroids == Map::<Seq<char>, Asteroid>::empty()),
            WaitStep::Done(hello) => {
                &&& mode@ == host_mode() || (received && asteroids@.asteroids != Map::<
                    Seq<char>,
                    Asteroid,
                >::empty())
                &&& mode@ == guest_mode() ==> hello.is_some() && hello.unwrap()@ == hello_marker()
                    + name@
                &&& mode@ != guest_mode() ==> hello.is_none()
            },
        },
{
    if same_text(mode, "host") {
        proof {
            reveal_strlit("host");
            reveal_strlit("guest");
            assert(host_mode().len() != guest_mode().len());
        }
        WaitStep::Done(None)
    } else if !received || asteroids.is_empty() {
        WaitStep::Receive
    } else if same_text(mode, "guest") {
        WaitStep::Done(Some(hello_message(name)))
    } else {
        WaitStep::Done(None)
    }
}

} // verus!

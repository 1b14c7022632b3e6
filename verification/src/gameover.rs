//! The end of a game: what the players are told, and how the next game
//! starts.

use crate::asteroid::Asteroid;
use crate::field::{filed_under, Asteroids};
use crate::network::host_mode;
use crate::ship::{new_ship, ship_views, Ship};
use crate::text::same_text;
use crate::vector::Vec2;
use vstd::prelude::*;
use vstd::string::*;

verus! {

/// Number of asteroids with which the host starts a game.
pub const MAX_ASTEROIDS: u8 = 10;

/// The line that tells the players how the game ended and how the next
/// one starts. The game was won if no asteroid is left. Only the host can
/// start the next game.
pub open spec fn gameover_line(mode: Seq<char>, won: bool) -> Seq<char> {
    (if won {
        "You win !"@
    } else {
        "Game over."@
    }) + (if mode == host_mode() {
        " Press [enter] to play again."@
    } else {
        " Wait host player to restart game."@
    })
}

/// Builds the line of [`gameover_line`].
pub fn gameover_text(mode: &str, won: bool) -> (text: String)
    ensures
        text@ == gameover_line(mode@, won),
{
    let mut text = if won {
        String::from_str("You win !")
    } else {
        String::from_str("Game over.")
    };
    if same_text(mode, "host") {
        text.append(" Press [enter] to play again.");
    } else {
        text.append(" Wait host player to restart game.");
    }
    text
}

/// What one pass over the end of a game has found and done.
pub struct GameOver {
    /// The game was won: no asteroid was left.
    pub won: bool,
    /// The line to show to the player.
    pub text: String,
    /// The state was reset for the next game.
    pub restarted: bool,
}

/// One pass over the end of a game for the player `name` in the role
/// `mode`.
///
/// The host restarts when `enter` says that its player asked for it. Every
/// other role restarts at once and then waits for the host. A restart
/// leaves one new ship for `name` at `center`, clears the two game-over
/// flags and the tick counter, and replaces the field: by a field of
/// [`MAX_ASTEROIDS`] asteroids, the given `bodies`, for the host, and by
/// an empty field for everyone else. Without a restart nothing changes.
pub fn manage_gameover(
    players: &mut Vec<Ship>,
    asteroids: &mut Asteroids,
    mode: &str,
    name: &str,
    frame_count: &mut u32,
    gameover: &mut bool,
    gameover_msg_sent: &mut bool,
    enter: bool,
    center: Vec2,
    bodies: &Vec<Asteroid>,
) -> (outcome: GameOver)
    requires
        mode@ == host_mode() && enter ==> bodies@.len() == MAX_ASTEROIDS,
    ensures
        outcome.won == (old(asteroids).listing().len() == 0),
        outcome.text@ == gameover_line(mode@, outcome.won),
        outcome.restarted == (mode@ != host_mode() || enter),
        !outcome.restarted ==> {
            &&& ship_views(final(players)@) == ship_views(old(players)@)
            &&& final(asteroids)@ == old(asteroids)@
            &&& *final(frame_count) == *old(frame_count)
            &&& *final(gameover) == *old(gameover)
            &&& *final(gameover_msg_sent) == *old(gameover_msg_sent)
        },
        outcome.restarted ==> {
            &&& ship_views(final(players)@) == seq![new_ship(name@, center)]
            &&& *final(frame_count) == 0
            &&& !*final(gameover)
            &&& !*final(gameover_msg_sent)
            &&& final(asteroids)@.count == (if mode@ == host_mode() {
                MAX_ASTEROIDS
            } else {
                0
            })
            &&& final(asteroids)@.asteroids == (if mode@ == host_mode() {
                filed_under(Map::empty(), name@, 0, bodies@)
            } else {
                Map::<Seq<char>, Asteroid>::empty()
            })
        },
{
    let won = asteroids.is_empty();
    let text = gameover_text(mode, won);
    let is_host = same_text(mode, "host");
    let restarted = !is_host || enter;
    if restarted {
        players.clear();
        players.push(Ship::new(String::from_str(name), center));
        *gameover = false;
        *gameover_msg_sent = false;
        if is_host {
            *asteroids = Asteroids::generate_field(String::from_str(name), MAX_ASTEROIDS, bodies);
        } else {
            *asteroids = Asteroids::with_count(0);
        }
        *frame_count = 0;
        assert(ship_views(players@) =~= seq![new_ship(name@, center)]);
    }
    GameOver { won, text, restarted }
}

} // verus!

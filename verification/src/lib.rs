//! The shared state of a multiplayer asteroids game and the rules by which
//! the peers of a session keep it in step.
//!
//! One peer, the host, owns the game; guests play along and spectators
//! watch. Every peer simulates on its own and the peers exchange their
//! state as lines of text. The heart of the exchange is the merge of one
//! field of asteroids into another ([`field::synchronize_asteroids`]):
//! per key, the asteroid that was updated last wins, and nothing is ever
//! deleted by a merge.
//!
//! Drawing, input, sound, the motion of the bodies and the test whether
//! two bodies overlap are not part of this library. Coordinates pass
//! through it as bit patterns, and times are whole microseconds.

pub mod asteroid;
pub mod bullet;
pub mod clock;
pub mod collision;
pub mod field;
pub mod gameover;
pub mod listing;
pub mod network;
pub mod session;
pub mod ship;
pub mod text;
pub mod transport;
pub mod vector;

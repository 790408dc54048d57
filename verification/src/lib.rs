//! Exhaustive move-enumeration ("perft") engine for a multi-agent grid
//! survival game, together with the verified turn-transition rules it
//! exercises: simultaneous movement, order-independent feeding, and
//! snapshot-based elimination.

pub mod board;
pub mod cartprod;
pub mod coordinate;
pub mod evalboard;
pub mod genmove;
pub mod linalg;
pub mod perft;
pub mod snake;

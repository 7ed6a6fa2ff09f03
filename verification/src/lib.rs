//! Core of a terminal snake game: a fixed 30 by 20 field with a border
//! ring, a snake that advances one cell per tick and grows on schedule,
//! fruit spawned on random interior cells away from the body, and the
//! tick state machine that scores, speeds up and detects crashes. The
//! display surface and the key source live outside this crate; random
//! fruit coordinates come from the `rand` crate.

pub mod fruit;
pub mod game;
pub mod geom;
pub mod grid;
pub mod snake;

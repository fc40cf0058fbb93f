//! Forecasts of ball games from the ratings of those who play them.
//!
//! The ratings change from day to day. `history` keeps what an entity was
//! at each time, `database` gathers the histories from the batches of
//! snapshots that the input brings, and `game` picks out of them everyone
//! who takes part in a contest, as they were when it began. `pitch` throws
//! one pitch, `state` holds the rules by which a game moves on with each
//! thing that chance decides, and `Playable::simulate` in `game` plays a
//! contest from the first pitch to the last out. Chance is asked through
//! functions that the caller hands in, so that a game is decided by their
//! answers alone. `read_dir` orders the files of the input and derives the
//! key of the cache from them, and `time` says when a game began.
//!
//! Ratings are numbers that the library never looks into: it keeps them,
//! compares them and hands them to the caller's functions.
pub mod database;
pub mod game;
pub mod history;
pub mod pitch;
pub mod read_dir;
pub mod state;
pub mod time;
pub mod util;

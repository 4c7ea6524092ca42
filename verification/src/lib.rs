//! Game rules of Vector Storm, a twin-stick arcade shooter: the high-score
//! table and its text file format, wave composition and scoring, the screen
//! flow of a game, shot bookkeeping, and the chiptune sequencer behind the
//! sound effects. Rendering, input devices and audio output live in `app/`.
use vstd::prelude::*;

pub mod ranking;
pub mod score_file;
pub mod leaderboard;
pub mod sound;
pub mod waves;
pub mod combat;
pub mod game;

verus! {

} // verus!

//! A Wordle game engine: the coloring of a guess against an answer, the
//! keyboard summary, hard-mode rules, the candidate filter used by the
//! solver, word-list handling, statistics and the terminal screen's state.

pub mod feedback;
pub mod hard_mode;
pub mod solver;
pub mod text;
pub mod keyboard;
pub mod stats;
pub mod word_list;
pub mod options;
pub mod game;
pub mod record;
pub mod screen;
pub mod round;

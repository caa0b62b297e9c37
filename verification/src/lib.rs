//! Ranks the command names of a shell history by how often they were run.
//!
//! A history is a text of one command per line, plain or behind the prefix
//! that zsh writes (`: 1600000000:0;git status`). Each line contributes the
//! name of its command, the names are counted, and the most frequent ones
//! make the ranking.
//!
//! - `line` says which name a line contributes, and `history` counts the
//!   names of a whole text into a `tally`.
//! - `rank` orders the counts, the most frequent first.
//! - `ranker` puts it together for the two history files below a home
//!   directory, and keeps a log. It reads no file itself: the caller reads
//!   what the ranker asks for.
//! - `screen` holds what a terminal shows of it: the ranking as lines of
//!   text, and the messages typed after it.
//! - `chars` and `run` hold what the others share.

pub mod chars;
pub mod history;
pub mod line;
pub mod rank;
pub mod ranker;
pub mod run;
pub mod screen;
pub mod tally;

//! mixed: the logic of a terminal music player, verified with Verus.

pub mod cli;
pub mod config;
pub mod enqueue;
pub mod events;
pub mod library;
pub mod lyrics;
pub mod media;
pub mod metadata;
pub mod paths;
pub mod player;
pub mod playlist;
pub mod ring;
pub mod sanitizer;
pub mod search;
pub mod text;
pub mod ui;

use vstd::prelude::*;

verus! {

} // verus!

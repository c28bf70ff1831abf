//! Launch wrapper for games: a two-tier configuration model, the substitution
//! of placeholder tokens in a launch command, the merge of the shared
//! configuration into a game's own, and the order in which the commands of a
//! launch are run.

pub mod appid;
pub mod completeness;
pub mod game_config;
pub mod launch;
pub mod merging;
pub mod rendering;
pub mod text;

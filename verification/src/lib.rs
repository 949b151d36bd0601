//! League standings: per-team win/loss records with exact running score
//! averages, game ingestion, and a deterministic ranked-table renderer.
//!
//! Scores and averages are carried in centipoints (hundredths of a point),
//! so every average is an exact rational `total_points / games_played` and
//! repeated updates accumulate no rounding error.

pub mod numfmt;
pub mod rank;
pub mod record;
pub mod render;
pub mod standings;
pub mod team;

pub use record::Record;
pub use standings::{GameError, Standings};
pub use team::Team;

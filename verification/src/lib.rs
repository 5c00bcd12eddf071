//! Dyrics keeps a rate-limited status line in step with the time-synced
//! lyrics of the track that is currently playing.
//!
//! The library holds the rules and leaves the calls to the outside world to
//! whoever uses it:
//!
//! - [`lyrics`] turns the two shapes of synced lyrics into one sequence of
//!   timed lines;
//! - [`schedule`] plans, for the lines that have not ended, the queue of
//!   status updates that keeps the update budget, and [`schedule_laws`] says
//!   what holds of every such queue;
//! - [`rate`] is the window that lets a send through or not;
//! - [`latency`] estimates how early an update has to leave;
//! - [`discord`] puts these together into the rate limiter and into the loop
//!   that decides at each tick what is to be sent, and [`delivery_laws`] says
//!   what holds of them;
//! - [`spotify`] holds the playback snapshot and the rules of its resync;
//! - [`tuning`] holds the values that can be tuned, [`config`] the
//!   configuration, [`error`] the errors and [`text`] the joining of texts.
//!
//! Times are numbers of nanoseconds throughout.

pub mod config;
pub mod delivery_laws;
pub mod discord;
pub mod error;
pub mod latency;
pub mod lyrics;
pub mod rate;
pub mod schedule;
pub mod schedule_laws;
pub mod spotify;
pub mod text;
pub mod tuning;

pub use config::Config;
pub use error::DyricsError;

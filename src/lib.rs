//! Queue triage for a media-management backend: classifies every entry of a
//! download queue, elects one leader among competing downloads of the same
//! episode, and plans the refresh and delete calls of one cycle.

pub mod text;
pub mod queue;
pub mod classify;
pub mod scoreboard;
pub mod cycle;
pub mod schedule;
pub mod query;
pub mod settings;

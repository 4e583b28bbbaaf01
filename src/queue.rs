//! Snapshot of the backend's download queue, as one fetch returns it.

use vstd::prelude::*;

verus! {

/// A series as the backend describes it when a queue entry embeds it.
#[derive(Clone, Debug)]
pub struct SeriesResource {
    pub id: i32,
    pub title: Option<String>,
    pub sort_title: Option<String>,
    pub ended: bool,
    pub profile_name: Option<String>,
    pub overview: Option<String>,
    pub next_airing: Option<String>,
    pub previous_airing: Option<String>,
    pub network: Option<String>,
    pub air_time: Option<String>,
    pub remote_poster: Option<String>,
    pub year: i32,
    pub season_folder: bool,
    pub monitored: bool,
    pub use_scene_numbering: bool,
    pub runtime: i32,
    pub tvdb_id: i32,
    pub tv_rage_id: i32,
    pub tv_maze_id: i32,
    pub first_aired: Option<String>,
    pub last_aired: Option<String>,
    pub clean_title: Option<String>,
    pub imdb_id: Option<String>,
    pub title_slug: Option<String>,
    pub root_folder_path: Option<String>,
    pub folder: Option<String>,
    pub certification: Option<String>,
    pub genres: Vec<String>,
    pub tags: Vec<i32>,
    pub added: String,
    pub episodes_changed: Option<bool>,
}

/// One status entry of a queue item: an optional title and free-text messages.
#[derive(Clone, Debug)]
pub struct StatusMessage {
    pub title: Option<String>,
    pub messages: Vec<String>,
}

/// One entry of the download queue.
#[derive(Clone, Debug)]
pub struct QueueItem {
    /// Unique within one fetch.
    pub id: i32,
    pub series_id: Option<i32>,
    pub episode_id: Option<i32>,
    pub series: Option<SeriesResource>,
    pub status_messages: Vec<StatusMessage>,
    /// Higher is better.
    pub quality_score: i32,
}

/// The media unit that competing downloads share.
#[derive(Clone, Copy, Debug, PartialEq, Eq, Structural)]
pub struct DedupKey {
    pub series_id: i32,
    pub episode_id: i32,
}

/// The dedup key of an item: defined only when both ids are present.
pub open spec fn key_of(item: QueueItem) -> Option<DedupKey> {
    match (item.series_id, item.episode_id) {
        (Some(s), Some(e)) => Some(DedupKey { series_id: s, episode_id: e }),
        _ => None,
    }
}

impl QueueItem {
    pub fn dedup_key(&self) -> (r: Option<DedupKey>)
        ensures
            r == key_of(*self),
    {
        match (self.series_id, self.episode_id) {
            (Some(s), Some(e)) => Some(DedupKey { series_id: s, episode_id: e }),
            _ => None,
        }
    }
}

} // verus!

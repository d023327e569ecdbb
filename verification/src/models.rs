//! The data that the other modules pass around.

use crate::binary64::Binary64;
use vstd::prelude::*;

verus! {

/// A torrent on the tracker's list.
#[derive(Debug)]
pub struct TorrentInfo {
    pub seed_id: String,
    pub category: String,
    pub title: String,
    pub tag: String,
    pub size_text: String,
    pub size_bytes: Option<u64>,
    pub seeders: i32,
    pub leechers: i32,
    pub finished: i32,
    pub is_hot: bool,
    pub is_new: bool,
    pub is_recommended: bool,
}

/// The texts and numbers of a torrent on the list.
#[verifier::ext_equal]
pub struct TorrentView {
    pub seed_id: Seq<char>,
    pub category: Seq<char>,
    pub title: Seq<char>,
    pub tag: Seq<char>,
    pub size_text: Seq<char>,
    pub size_bytes: Option<u64>,
    pub seeders: int,
    pub leechers: int,
    pub finished: int,
    pub is_hot: bool,
    pub is_new: bool,
    pub is_recommended: bool,
}

impl View for TorrentInfo {
    type V = TorrentView;

    open spec fn view(&self) -> TorrentView {
        TorrentView {
            seed_id: self.seed_id@,
            category: self.category@,
            title: self.title@,
            tag: self.tag@,
            size_text: self.size_text@,
            size_bytes: self.size_bytes,
            seeders: self.seeders as int,
            leechers: self.leechers as int,
            finished: self.finished as int,
            is_hot: self.is_hot,
            is_new: self.is_new,
            is_recommended: self.is_recommended,
        }
    }
}

impl Clone for TorrentInfo {
    fn clone(&self) -> (r: Self)
        ensures
            r == *self,
    {
        TorrentInfo {
            seed_id: self.seed_id.clone(),
            category: self.category.clone(),
            title: self.title.clone(),
            tag: self.tag.clone(),
            size_text: self.size_text.clone(),
            size_bytes: self.size_bytes,
            seeders: self.seeders,
            leechers: self.leechers,
            finished: self.finished,
            is_hot: self.is_hot,
            is_new: self.is_new,
            is_recommended: self.is_recommended,
        }
    }
}

/// What the tracker's API wraps its answers in.
#[derive(Debug)]
pub struct ApiEnvelope<T> {
    pub success: bool,
    pub code: i32,
    pub msg: String,
    pub data: T,
}

/// The tracker's answer to a login.
#[derive(Debug)]
pub struct LoginData {
    pub auth_token: Option<String>,
    pub verify_token: Option<String>,
    pub user_id: Option<i64>,
    pub need_mobile_verify: Option<bool>,
    pub need_reset_password: Option<bool>,
}

/// The limits on what may be downloaded.
#[derive(Debug)]
pub struct PlannerConfig {
    pub min_free_space_bytes: u64,
    pub download_budget_bytes: Option<u64>,
}

/// How much room the disk has, and how much of it running downloads will still take.
#[derive(Debug)]
pub struct SpaceSnapshot {
    pub free_space_bytes: u64,
    pub downloading_remaining_bytes: u64,
}

/// A torrent in qBittorrent.
#[derive(Debug)]
pub struct QbTorrent {
    pub name: String,
    pub hash: String,
    pub state: String,
    pub tags: String,
    pub total_size: u64,
    pub completed: u64,
    pub added_on: i64,
    pub upspeed: u64,
    pub num_leechs: i32,
    pub num_seeds: i32,
    pub progress: Binary64,
}

impl Clone for QbTorrent {
    fn clone(&self) -> (r: Self)
        ensures
            r == *self,
    {
        QbTorrent {
            name: self.name.clone(),
            hash: self.hash.clone(),
            state: self.state.clone(),
            tags: self.tags.clone(),
            total_size: self.total_size,
            completed: self.completed,
            added_on: self.added_on,
            upspeed: self.upspeed,
            num_leechs: self.num_leechs,
            num_seeds: self.num_seeds,
            progress: self.progress,
        }
    }
}

} // verus!

//! The decision-making core of a small BitTorrent daemon with a qBittorrent-style web API.
use vstd::prelude::*;

pub mod add;
pub mod api;
pub mod bitfield;
pub mod config;
pub mod engine;
pub mod hex;
pub mod ip;
pub mod limiter;
pub mod meta;
pub mod names;
pub mod password;
pub mod path;
pub mod resume;
pub mod session;
pub mod store;
pub mod table;
pub mod text;
pub mod torrent;
pub mod url;
pub mod views;

verus! {

/// The version that is shown: the release and the commit that it was built from.
pub fn version_string(release: &str, git_hash: &str) -> (r: String)
    ensures
        r@ == release@ + "+"@ + git_hash@,
{
    String::from_str(release).concat("+").concat(git_hash)
}

} // verus!

//! Sync music to a Garmin watch: the rules behind the transfer.

use vstd::prelude::*;

pub mod cli;
pub mod garmin;
pub mod gvfs;
pub mod history;
pub mod mtp;
pub mod paths;
pub mod playlist;
pub mod tags;
pub mod text;
pub mod theme;
pub mod transcode;
pub mod transfer;
pub mod ui;

verus! {
}

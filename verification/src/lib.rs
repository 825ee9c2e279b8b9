//! Decision logic of a media-acquisition daemon: which feed items to queue,
//! when to crawl again, and how many downloads may run at once.
//!
//! Everything that touches the network, the file system or a child process
//! lives outside this crate and hands plain values in.

pub mod config;
pub mod daemon;
pub mod dl;
pub mod error;
pub mod file;
pub mod laws;
pub mod media;
pub mod source;
pub mod text;
pub mod time;
pub mod yt_feed;

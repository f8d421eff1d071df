//! Searching, importing, downloading and playing music from MP3Party, DriveMusic,
//! Pesni.me and YouTube, and sharing texts by link: the rules, verified.
use vstd::prelude::*;

pub mod text;
pub mod batch;
pub mod types;
pub mod playlist;
pub mod session;
pub mod patterns;
pub mod links;
pub mod sources;
pub mod ytdlp;
pub mod downloads;
pub mod html;
pub mod library;
pub mod share;
pub mod tasks;
pub mod display;
pub mod tools;

verus! {
}

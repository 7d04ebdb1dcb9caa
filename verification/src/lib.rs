pub mod bitfield;
pub mod bytes;
pub mod error;
pub mod http;
pub mod networking;
pub mod outside;
pub mod peer;
pub mod server;
pub mod text;
pub mod torrent;

pub use torrent::Torrent;

//! Verified core of the Apple Music playback daemon: MP4 fragment handling,
//! control protocol framing and state, and the request/response shaping logic.
pub mod bytes;
pub mod text;
pub mod mp4;
pub mod control;
pub mod frame;
pub mod api;
pub mod ttml;
pub mod subsonic;
pub mod playlist;
pub mod download;
pub mod config;
pub mod logging;
pub mod daemon_logging;
pub mod http;
pub mod catalog;
pub mod layout;
pub mod ui;
pub mod session;
pub mod subsonic_xml;
pub mod launcher;
pub mod fragment_laws;

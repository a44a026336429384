//! Playback logic of a lightweight video player: the decisions that the
//! decoding threads, the audio thread and the window controls take, the
//! on-screen texts, the recent-files history and the per-file resume
//! positions.  Everything that touches a device, a file or the media
//! libraries lives in the application around this crate.

pub mod text;
pub mod clock;
pub mod logger;
pub mod history;
pub mod positions;
pub mod playback;
pub mod controls;
pub mod overlay;

//! Playback core of a kiosk media player.
//!
//! An operator types a three-digit hip number and the matching video plays.
//! This crate holds the decisions of that player as verified code:
//!
//! - [`clock`]: from a stream's frame rate to the deadline of each frame;
//! - [`frame_channel`]: decoded pictures and the single slot that hands the
//!   latest one to the display;
//! - [`samples`]: decoded audio of any sample format normalised to
//!   interleaved float samples;
//! - [`audio_buffer`]: the queue between the audio loop and the output
//!   callback, which plays silence when it runs dry;
//! - [`decode_loop`]: what a decode loop does next, given what demuxer,
//!   decoder and consumer report and whether a stop was requested;
//! - [`player`]: one playback session with its cancellation flag, its
//!   end-of-stream flag and its first fatal error;
//! - [`file_scanner`]: which files of a directory listing are playable, and in
//!   which order;
//! - [`kiosk`]: the list of files, the one that plays and what was typed;
//! - [`config`]: the settings read by the above;
//! - [`text`]: questions about text that several of them ask.
//!
//! Nothing here touches a file, a decoder, a device or a clock. The program
//! around this crate does, and hands over plain values: paths, stream indices,
//! elapsed nanoseconds, sample planes.

pub mod audio_buffer;
pub mod clock;
pub mod config;
pub mod decode_loop;
pub mod file_scanner;
pub mod frame_channel;
pub mod kiosk;
pub mod player;
pub mod samples;
pub mod text;

//! The core of a desktop application that turns speech into subtitles: videos
//! into bilingual subtitle files, and what the system plays or a microphone
//! hears into subtitles while it is heard.
//!
//! The library decides; it touches neither files nor networks nor devices.
//! Work that lasts is cut into steps: a function takes what happened and says
//! what to do next, and the caller does it. Times that are counted in
//! floating-point seconds pass through as values of a type parameter.

pub mod asr;
pub mod audio;
pub mod checkpoint;
pub mod commands;
pub mod config;
pub mod error;
pub mod http;
pub mod json;
pub mod pipeline;
pub mod subtitle;
pub mod text;
pub mod translate;
pub mod wav_name;

//! Plugins: the ActionTimer scheduler and how the audio plugins read
//! their options and commands.
pub mod action_timer;
pub mod audio_level;
pub mod process;
pub mod web_parser;
pub mod win7_audio;

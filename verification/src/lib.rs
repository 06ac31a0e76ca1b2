//! LoopWire: mute, volume and loopback mapping of a USB audio capture card
//! into PipeWire/PulseAudio, for an OBS plugin and its obs-websocket vendor
//! requests. This crate holds what the plugin reads from `pactl`, what it
//! sends to it, and how it decides.
pub mod text;
pub mod pactl;
pub mod config;
pub mod mapping;
pub mod status;

//! Streaming optimisation toolkit for a Raspberry Pi 4B: GPU firmware
//! settings, kernel module blacklists, systemd services, mpv and ffmpeg
//! argument construction, with their contracts proved by Verus.
pub mod gpu;
pub mod stream;
pub mod sort;
pub mod text;
pub mod transcode;
pub mod dep;
pub mod driver;
pub mod selection;
pub mod service;

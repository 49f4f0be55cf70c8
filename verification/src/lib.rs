//! Verified core of two small terminal and graphics toys: an image-to-ASCII
//! renderer and the control logic of an audio-reactive particle simulator.
pub mod controls;
pub mod pixels;
pub mod text;
pub mod ascii_art;
pub mod resample;
pub mod imaging;
pub mod sequence;
pub mod playback;

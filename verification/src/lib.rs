//! Verified core of a spectrogram-based practice player: the project model
//! of pitch memos with undo, the project and spectrogram-cache file formats,
//! user settings and their repair, mouse bindings, the tool palette, the
//! comparison loop, the frame ring between the render worker and the output,
//! the memo voice allocation, the spectral freeze, and display text.
//! Floating-point values that the logic only carries, compares or clamps are
//! kept as IEEE 754 bit patterns.

pub mod audio_identity;
pub mod colors;
pub mod comparison;
pub mod comparison_control;
pub mod float_bits;
pub mod frame_ring;
pub mod freeze;
pub mod input;
pub mod paths;
pub mod playback;
pub mod project;
pub mod project_ids;
pub mod settings;
pub mod sidecar;
pub mod spectrogram_cache;
pub mod text;
pub mod tone;
pub mod tool_palette;
pub mod view;

//! Core logic of the Trixie compositor's frame pipeline: synthetic glyph
//! rasterisation, the glyph atlas, text segmentation and shaping, the pixel
//! UI command model, the tiling window manager and its chrome,
//! embedded-client bookkeeping, the shader registry, frame pacing, and the
//! reading of configuration text and key presses. Every function here is
//! verified; the surrounding program supplies the display, the sockets and
//! the clock.

pub mod atlas;
pub mod box_drawing;
pub mod cells;
pub mod chrome;
pub mod config;
pub mod embedded;
pub mod embedded_ipc;
pub mod frame;
pub mod geometry;
pub mod input;
pub mod pixelui;
pub mod renderer;
pub mod shader;
pub mod shaper;
pub mod shared_frame_shm;
pub mod text;
pub mod twm;
pub mod twm_laws;
pub mod twm_model;
pub mod util;
pub mod widgets;

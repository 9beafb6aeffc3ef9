//! The logic of the Yutani terminal emulator, verified.
//!
//! Everything here works on plain values. Windows, the GPU, the pty and the
//! file system live in the application around this library, which hands
//! values in and performs what comes back.

pub mod animation;
pub mod completions;
pub mod history;
pub mod images;
pub mod input;
pub mod onboard;
pub mod palette;
pub mod paths;
pub mod perf;
pub mod present;
pub mod pty;
pub mod renderer;
pub mod ring_buffer;
pub mod search;
pub mod selection;
pub mod shaper;
pub mod text;
pub mod text_field;
pub mod window;

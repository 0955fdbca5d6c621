//! Core engine of a multi-monitor wallpaper composer: a gallery selection
//! state machine, a monitor-layout parser, a thumbnail cache keyed by a
//! digest of the source path, cover-resize and canvas-composition geometry,
//! and polling job state machines fed by background channels.

pub mod cache;
pub mod channel;
pub mod compose;
pub mod frame;
pub mod gallery;
pub mod install;
pub mod jobs;
pub mod monitors;
pub mod scan;
pub mod selection;

pub use selection::Selection;

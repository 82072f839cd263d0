//! A replay buffer for the screen: encoded video and sound of the last seconds
//! are kept in memory and become a clip when asked for.

pub mod audio;
pub mod calendar;
pub mod cli;
pub mod config;
pub mod gui;
pub mod instance;
pub mod paths;
pub mod pipeline;
pub mod platform;
pub mod portal;
pub mod recorder;
pub mod ringbuf;
pub mod saver;
pub mod seconds;
pub mod service;
pub mod shortcuts;
pub mod shortcuts_windows;
pub mod text;
pub mod thumbs;
pub mod tray;
pub mod volume;

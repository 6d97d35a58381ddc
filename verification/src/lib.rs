//! The core of a terminal task manager: a tree of tasks addressed by paths,
//! its projection onto the rows of a list, and the state machine that keys
//! and queued commands drive.
//!
//! Every function states what it does over the value of the state
//! ([`app::AppView`]), and what holds of every tree and every state is proved
//! in [`app::display`] and [`app::invariants`].

pub mod app;
pub mod config;
pub mod cursor;
pub mod event;
pub mod helpers;
pub mod keys;
pub mod text;
pub mod ui;

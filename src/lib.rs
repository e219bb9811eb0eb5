//! A music library index and the decision core of a playback engine.
pub mod engine;
pub mod groups;
pub mod library;
pub mod models;
pub mod text;

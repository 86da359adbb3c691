//! Derivation of image locations, file names and download batches for emoji
//! combination pairs and animated emoji.

pub mod animations;
pub mod batch;
pub mod discord;
pub mod emoji;
pub mod order;
pub mod show;
pub mod text;
pub mod upload;
pub mod utils;
pub mod write;

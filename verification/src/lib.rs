//! Verified core of the `pixl` pixel-art tool: gallery navigation, save-path
//! selection, LoRA key mapping, argument parsing, slugs and timestamps, token
//! padding, download-progress coalescing, batch control and the integer parts
//! of the pixelize pipeline.

pub mod text;
pub mod lora;
pub mod lora_payload;
pub mod gallery;
pub mod paths;
pub mod cli;
pub mod naming;
pub mod cache;
pub mod clock;
pub mod pixel;
pub mod tokens;
pub mod models;
pub mod progress;
pub mod batch;
pub mod output;
pub mod tui;

//! The logic of `r-boot-cli`, the tool that inspects and edits `r-boot.toml`.

pub mod config;
pub mod args;
pub mod commands;
pub mod status;
pub mod sign_key;

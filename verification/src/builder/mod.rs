//! The logic of `r-boot-conf-builder`, which installs r-boot on a NixOS
//! system's EFI system partition and writes `r-boot.toml` from the system's
//! boot generations on every rebuild.

pub mod args;
pub mod menu;
pub mod efi;
pub mod generations;

//! Verified core of the r-boot UEFI bootloader and its companion tools.

pub mod text;
pub mod cli;
pub mod bytes;
pub mod elf;
pub mod paging;
pub mod protocol;
pub mod limine;
pub mod linux;
pub mod splash;
pub mod spinner;
pub mod menu;
pub mod builder;
pub mod bgrt;
pub mod secureboot;
pub mod console;
pub mod chainload;
pub mod boot;

pub mod text;
pub mod strmap;
pub mod config;
pub mod kconfig;
pub mod cmdline;
pub mod blk;
pub mod microhop;
pub mod fsck;
pub mod recovery;
pub mod rootfs;
pub mod overlayfs;
pub mod microgen;
pub mod rdgen;
pub mod gui;

//! Discovery of bootable storage devices and selection of the next boot
//! target, over the text that platform inventory and boot-configuration
//! utilities print.
pub mod text;
pub mod device;
pub mod partition;
pub mod boot_entry;
pub mod commands;
pub mod flow;

//! Switches DDC/CI displays between input sources when a USB device comes and goes.
pub mod ddc;
pub mod helpers;
pub mod hotplug;
pub mod text;

//! Verified core of an STM32 WebUSB echo device and its browser control panel.

pub mod packet_buffer;
pub mod echo_spec;
pub mod echo;
pub mod echo_laws;
pub mod dfu_target;
pub mod control;
pub mod boot;

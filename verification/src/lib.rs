//! Kukri, an eBPF firewall: its configuration, the contents of its BPF maps,
//! its drop events and the state of its terminal interface.
pub mod text;
pub mod consts;
pub mod config;
pub mod settings;
pub mod stages;
pub mod bpf;
pub mod events;
pub mod screen;
pub mod ui;
pub mod actions;

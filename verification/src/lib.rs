//! The rules of a tray-resident system monitor.

pub mod accuracy;
pub mod alert;
pub mod bignat;
pub mod config;
pub mod gpu;
pub mod history;
pub mod ieee;
pub mod lhm_tree;
pub mod monitor;
pub mod number;
pub mod overlay;
pub mod panel;
pub mod pixels;
pub mod process_top;
pub mod response;
pub mod settings;
pub mod temperature;
pub mod temperature_lhm;
pub mod text;

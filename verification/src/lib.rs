//! Nostos: an offline way home over raw LoRa.
//!
//! A beacon left at the starting point reports a position every minute; a
//! handheld receiver decodes the reports, keeps a breadcrumb trail and draws it
//! on an e-paper page. This crate is the logic of that receiver, with its
//! behaviour stated in contracts and proved by Verus. The drivers, the clock and
//! the floating-point geodesy live in the program around it.

pub mod bytes;
pub mod device;
pub mod draw;
pub mod expander;
pub mod frame;
pub mod label;
pub mod led;
pub mod legend;
pub mod lora;
pub mod mesh;
pub mod nav;
pub mod page;
pub mod panel;
pub mod power;
pub mod protobuf;
pub mod radio;
pub mod readout;
pub mod receiver;
pub mod sdlog;
pub mod shapes;
pub mod statuslog;
pub mod text;
pub mod ui;

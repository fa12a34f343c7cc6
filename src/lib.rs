//! Provisioning core for Jetson-class compute modules: a device-tree source
//! engine, bounded per-device logs, the device inventory, the install and
//! flash status machines, and the supervision of long-running pipelines.
pub mod devicetree;
pub mod text;
pub mod channel;
pub mod logger;
pub mod jetson;
pub mod status;
pub mod ui_selection;
pub mod app;
pub mod discovery;
pub mod pipeline;
pub mod provision;

//! Management library for a fleet of embedded nodes reached through a
//! ptlink gateway: the telemetry wire codec, the firmware image container,
//! the node catalogue and the decisions of the daemon's processes.

pub mod wire;
pub mod addr_map;
pub mod image_header;
pub mod scanner;
pub mod packet;
pub mod text;
pub mod node_table;
pub mod connection;
pub mod fw_index;
pub mod fwu_state_table;
pub mod process;
pub mod model;
pub mod codec_laws;

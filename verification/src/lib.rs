//! A CAN toolkit: portable frame model, ISO-TP, J1939, UDS and OBD helpers,
//! DBC signal extraction and capture-file record codecs, with contracts
//! proved with Verus.

pub mod blf;
pub mod bytes;
pub mod cli;
pub mod codec;
pub mod codegen;
pub mod dbc;
pub mod dbc_text;
pub mod isotp;
pub mod j1939;
pub mod mf4;
pub mod mf4_blocks;
pub mod model;
pub mod monitor;
pub mod obd;
pub mod socketcan;
pub mod text;
pub mod uds;

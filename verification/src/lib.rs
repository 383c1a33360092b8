//! Kuebiko: the logic of a local debugging lab.

pub mod codex;
pub mod codex_laws;
pub mod config;
pub mod debugger;
pub mod debugger_laws;
pub mod fields;
pub mod journal;
pub mod json;
pub mod kernel;
pub mod kernel_laws;
pub mod lab;
pub mod mi;
pub mod mi_laws;
pub mod mi_reading;
pub mod mi_written;
pub mod protocol;
pub mod server;
pub mod server_laws;
pub mod snapshot_laws;
pub mod store;
pub mod terminal;
pub mod terminal_laws;
pub mod text;

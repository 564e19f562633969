//! Verified core of the Maslow desktop controller.
pub mod api_error;
pub mod api_settings;
pub mod auth;
pub mod calibration;
pub mod clock;
pub mod connection;
pub mod docs;
pub mod files;
pub mod fluidnc;
pub mod gcode;
pub mod grbl;
pub mod http_api;
pub mod machine;
pub mod maslow;
pub mod mcp;
pub mod proto_docs;
pub mod routes;
pub mod snapshot;
pub mod streaming;
pub mod text;
pub mod tool_docs;

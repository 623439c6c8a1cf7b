//! Remote desktop between a host and a client on one LAN.
//!
//! The library holds what both ends decide and compute: the wire format, the
//! PIN exchange, file transfer, frame conversion, capture and input layout,
//! and the state of a session. Sockets, files, devices and windows belong to
//! the programs around it.

pub mod address;
pub mod auth;
pub mod bytes;
pub mod capture;
pub mod client;
pub mod decode;
pub mod door;
pub mod encode;
pub mod file;
pub mod file_name;
pub mod handshake;
pub mod hash;
pub mod input;
pub mod keys;
pub mod layout;
pub mod lockout;
pub mod message;
pub mod nal;
pub mod paths;
pub mod portal;
pub mod report;
pub mod rounding;
pub mod screencopy;
pub mod session;
pub mod settings;
pub mod state;
pub mod status;
pub mod synthetic;
pub mod text;
pub mod transfers;
pub mod window;
pub mod wire_format;
pub mod yuv;

//! Protocol core of the Portix remote access service: remote desktop and
//! shell sessions as pure, verified functions on bytes and text.

pub mod wire;
pub mod fields;
pub mod rle;
pub mod rle_laws;
pub mod bitmap;
pub mod bitmap_laws;
pub mod framebuffer;
pub mod text;
pub mod settings;
pub mod errors;
pub mod profile;
pub mod policy;
pub mod stats;
pub mod fastpath;
pub mod picture_laws;
pub mod encoding;
pub mod framing;
pub mod framing_laws;
pub mod connect;
pub mod connect_laws;
pub mod licensing;
pub mod activation;
pub mod activation_laws;
pub mod input;
pub mod input_laws;
pub mod channel;
pub mod clipboard;
pub mod channel_laws;
pub mod ordering;
pub mod paths;
pub mod text_laws;
pub mod drive_data;
pub mod drive_data_laws;
pub mod drive;
pub mod drive_laws;
pub mod base64_text;
pub mod shell;
pub mod remote;
pub mod remote_laws;
pub mod session;
pub mod ssh;
pub mod profile_laws;
pub mod inbox;
pub mod handshake;
pub mod screen;
pub mod desktop;
pub mod session_laws;

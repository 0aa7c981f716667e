//! Engine of a shared raster canvas: tiles of 256×256 pixels, the layers
//! blended on top of them, the wire frames that carry them, the drawing
//! tools and the per-connection state machine.
//!
//! Everything here is a plain value: nothing reads a socket, a clock or a
//! disk. Callers hand in what they received and send out what comes back.

pub mod limits;
pub mod seq_facts;
pub mod vector;
pub mod id;
pub mod util;
pub mod pixel;
pub mod wire;
pub mod text;
pub mod compression;
pub mod buffer;
pub mod packet_server;
pub mod packet_client;
pub mod signal;
pub mod serial_generator;
pub mod event_queue;
pub mod time;
pub mod database;
pub mod chunk;
pub mod history;
pub mod point_set;
pub mod canvas;
pub mod canvas_cache;
pub mod tool;
pub mod preview_system;
pub mod room;
pub mod random;
pub mod session;
pub mod config;
pub mod command;
pub mod server;


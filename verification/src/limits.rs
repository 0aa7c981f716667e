//! Limits shared by every part of the engine.

use vstd::prelude::*;

verus! {

pub const TOOL_SIZE_BRUSH_MAX: u8 = 16;

pub const TOOL_SIZE_SMOOTH_BRUSH_MAX: u8 = 24;

pub const TOOL_SIZE_SQUARE_BRUSH_MAX: u8 = 16;

pub const TOOL_SIZE_BLUR_MAX: u8 = 16;

pub const TOOL_SIZE_SMUDGE_MAX: u8 = 16;

pub const TOOL_SIZE_SPRAY_MAX: u8 = 32;

pub const TOOL_SIZE_LINE_MAX: u8 = 32;

pub const ROOM_NAME_LEN_MIN: u8 = 3;

pub const ROOM_NAME_LEN_MAX: u8 = 24;

pub const NICK_NAME_LEN_MIN: u8 = 3;

pub const NICK_NAME_LEN_MAX: u8 = 24;

/// Bit pattern of the smallest zoom (0.45 as a 32-bit IEEE number) at which
/// chunks are no longer streamed.
pub const BOUNDARY_ZOOM_MIN_BITS: u32 = 0x3EE6_6666;

/// Bit pattern of positive infinity; larger patterns with a clear sign bit
/// are not numbers.
pub const ZOOM_INFINITY_BITS: u32 = 0x7F80_0000;

pub const CHUNK_SIZE_PX: u32 = 256;

pub const CHUNK_IMAGE_SIZE_BYTES_RGB: usize = 196608;

pub const CHUNK_IMAGE_SIZE_BYTES_RGBA: usize = 262144;

pub const CHUNK_IMAGE_SIZE_BYTES: usize = 196608;

pub const PREVIEW_SYSTEM_LAYER_COUNT: u8 = 5;

pub const FLOODFILL_MAX_DISTANCE: u32 = 300;

/// Snapshots kept for undo.
pub const HISTORY_SNAPSHOTS_MAX: usize = 50;

/// Longest chat message, in bytes.
pub const MESSAGE_LEN_MAX: u16 = 1000;

/// Pixels in one batch above which the whole chunk is sent instead of a
/// pixel pack: a fifth of the tile.
pub const WHOLE_CHUNK_THRESHOLD: usize = 13107;

/// Longest stored blob the engine frames into a packet.
pub const BLOB_LEN_MAX: usize = 0x3FFF_FFFF;

} // verus!

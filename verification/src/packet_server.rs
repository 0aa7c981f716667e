//! Frames that the server sends.

use vstd::prelude::*;
use vstd::slice::slice_subrange;
use vstd::string::StringSliceAdditionalSpecFns;
use crate::buffer::{
    buffer_freeze, buffer_new, buffer_put_i32, buffer_put_slice, buffer_put_u16, buffer_put_u32,
    buffer_put_u8, buffer_with_capacity, bytes_clone, bytes_to_vec, frozen,
};
use crate::limits::{BLOB_LEN_MAX, CHUNK_IMAGE_SIZE_BYTES};
use crate::vector::IVec2;
use crate::wire::{be_i32, be_u16, be_u32, clipped, string_u16, string_u8};

verus! {

#[derive(Clone, Copy, PartialEq, Eq, Structural, Debug)]
pub enum MessageType {
    PlainText,
    Html,
}

#[derive(Clone, Copy, PartialEq, Eq, Structural, Debug)]
pub enum ServerCmd {
    /// u8 type, u16 text size, utf-8 text
    Message,
    /// u16 id
    YourId,
    /// u16 text size, utf-8 reason
    Kick,
    /// s32 chunkX, s32 chunkY, u32 raw size, LZ4 block
    ChunkImage,
    /// s32 chunkX, s32 chunkY, u32 pixel count, u32 raw size, LZ4 block
    ChunkPixelPack,
    /// s32 chunkX, s32 chunkY
    ChunkCreate,
    /// s32 chunkX, s32 chunkY
    ChunkRemove,
    /// s32 previewX, s32 previewY, u8 zoom, u32 data size, binary data
    PreviewImage,
    /// u16 id, u8 text size, utf-8 nickname
    UserCreate,
    /// u16 id
    UserRemove,
    /// u16 id, s32 x, s32 y
    UserCursorPos,
    /// u16 text size, utf-8 text
    ProcessingStatusText,
}

impl MessageType {
    pub open spec fn code_spec(self) -> u8 {
        match self {
            MessageType::PlainText => 0,
            MessageType::Html => 1,
        }
    }

    /// The byte that stands for this type in a frame.
    pub fn code(self) -> (c: u8)
        ensures
            c == self.code_spec(),
    {
        match self {
            MessageType::PlainText => 0,
            MessageType::Html => 1,
        }
    }
}

impl ServerCmd {
    pub open spec fn code_spec(self) -> u16 {
        match self {
            ServerCmd::Message => 1,
            ServerCmd::YourId => 2,
            ServerCmd::Kick => 3,
            ServerCmd::ChunkImage => 100,
            ServerCmd::ChunkPixelPack => 101,
            ServerCmd::ChunkCreate => 110,
            ServerCmd::ChunkRemove => 111,
            ServerCmd::PreviewImage => 200,
            ServerCmd::UserCreate => 1000,
            ServerCmd::UserRemove => 1001,
            ServerCmd::UserCursorPos => 1002,
            ServerCmd::ProcessingStatusText => 1100,
        }
    }

    /// The command id that opens a frame of this kind.
    pub fn code(self) -> (c: u16)
        ensures
            c == self.code_spec(),
    {
        match self {
            ServerCmd::Message => 1,
            ServerCmd::YourId => 2,
            ServerCmd::Kick => 3,
            ServerCmd::ChunkImage => 100,
            ServerCmd::ChunkPixelPack => 101,
            ServerCmd::ChunkCreate => 110,
            ServerCmd::ChunkRemove => 111,
            ServerCmd::PreviewImage => 200,
            ServerCmd::UserCreate => 1000,
            ServerCmd::UserRemove => 1001,
            ServerCmd::UserCursorPos => 1002,
            ServerCmd::ProcessingStatusText => 1100,
        }
    }
}

/// One frame, ready to be sent.
pub struct Packet {
    pub data: bytes::Bytes,
}

impl View for Packet {
    type V = Seq<u8>;

    closed spec fn view(&self) -> Seq<u8> {
        frozen(self.data)
    }
}

impl Packet {
    /// A second handle on the same frame.
    pub fn duplicate(&self) -> (copy: Packet)
        ensures
            copy@ == self@,
    {
        Packet { data: bytes_clone(&self.data) }
    }

    /// The bytes of the frame.
    pub fn to_vec(&self) -> (bytes: Vec<u8>)
        ensures
            bytes@ == self@,
    {
        bytes_to_vec(&self.data)
    }
}

/// The low 16 bits of a session id, as frames carry it.
pub open spec fn wire_id(session_id: u32) -> u16 {
    (session_id % 0x1_0000) as u16
}

pub open spec fn raw_frame(cmd: ServerCmd, data: Seq<u8>) -> Seq<u8> {
    be_u16(cmd.code_spec()) + data
}

pub open spec fn kick_frame(message: Seq<u8>) -> Seq<u8> {
    be_u16(3) + string_u16(message)
}

pub open spec fn status_text_frame(message: Seq<u8>) -> Seq<u8> {
    be_u16(1100) + string_u16(message)
}

pub open spec fn your_id_frame(session_id: u32) -> Seq<u8> {
    be_u16(2) + be_u16(wire_id(session_id))
}

pub open spec fn user_cursor_pos_frame(session_id: u32, x: i32, y: i32) -> Seq<u8> {
    be_u16(1002) + be_u16(wire_id(session_id)) + be_i32(x) + be_i32(y)
}

pub open spec fn user_create_frame(session_id: u32, nickname: Seq<u8>) -> Seq<u8> {
    be_u16(1000) + be_u16(wire_id(session_id)) + string_u8(nickname)
}

pub open spec fn user_remove_frame(session_id: u32) -> Seq<u8> {
    be_u16(1001) + be_u16(wire_id(session_id))
}

pub open spec fn chunk_create_frame(chunk_pos: IVec2) -> Seq<u8> {
    be_u16(110) + be_i32(chunk_pos.x) + be_i32(chunk_pos.y)
}

pub open spec fn chunk_remove_frame(chunk_pos: IVec2) -> Seq<u8> {
    be_u16(111) + be_i32(chunk_pos.x) + be_i32(chunk_pos.y)
}

pub open spec fn preview_image_frame(preview_pos: IVec2, zoom: u8, data: Seq<u8>) -> Seq<u8> {
    be_u16(200) + be_i32(preview_pos.x) + be_i32(preview_pos.y) + seq![zoom] + be_u32(
        data.len() as u32,
    ) + data
}

pub open spec fn chunk_image_frame(chunk_pos: IVec2, compressed: Seq<u8>) -> Seq<u8> {
    be_u16(100) + be_i32(chunk_pos.x) + be_i32(chunk_pos.y) + be_u32(196608) + compressed
}

pub open spec fn message_frame(message_type: MessageType, message: Seq<u8>) -> Seq<u8> {
    be_u16(1) + seq![message_type.code_spec()] + string_u16(message)
}

pub open spec fn pixel_pack_frame(
    packed: Seq<u8>,
    chunk_x: i32,
    chunk_y: i32,
    pixel_count: u32,
    raw_size: u32,
) -> Seq<u8> {
    be_u16(101) + be_i32(chunk_x) + be_i32(chunk_y) + be_u32(pixel_count) + be_u32(raw_size)
        + packed
}

/// Appends `string` behind its length in one byte, cut after 255 bytes.
fn put_string_u8(buf: &mut bytes::BytesMut, string: &[u8])
    requires
        crate::buffer::written(*old(buf)).len() <= 0x1000,
    ensures
        crate::buffer::written(*final(buf)) == crate::buffer::written(*old(buf)) + string_u8(
            string@,
        ),
{
    let ghost before = crate::buffer::written(*buf);
    if string.len() > 255 {
        let part = slice_subrange(string, 0, 255);
        buffer_put_u8(buf, 255);
        buffer_put_slice(buf, part);
        assert(crate::buffer::written(*buf) =~= before + string_u8(string@));
    } else {
        buffer_put_u8(buf, string.len() as u8);
        buffer_put_slice(buf, string);
        assert(crate::buffer::written(*buf) =~= before + string_u8(string@));
    }
}

/// Appends `string` behind its length in two bytes, cut after 65535 bytes.
fn put_string_u16(buf: &mut bytes::BytesMut, string: &[u8])
    requires
        crate::buffer::written(*old(buf)).len() <= 0x1000,
    ensures
        crate::buffer::written(*final(buf)) == crate::buffer::written(*old(buf)) + string_u16(
            string@,
        ),
{
    let ghost before = crate::buffer::written(*buf);
    if string.len() > 65535 {
        let part = slice_subrange(string, 0, 65535);
        buffer_put_u16(buf, 65535);
        buffer_put_slice(buf, part);
        assert(crate::buffer::written(*buf) =~= before + string_u16(string@));
    } else {
        buffer_put_u16(buf, string.len() as u16);
        buffer_put_slice(buf, string);
        assert(crate::buffer::written(*buf) =~= before + string_u16(string@));
    }
}

/// A frame of `cmd` that carries `data` as it is.
pub fn prepare_packet_raw(cmd: ServerCmd, data: &[u8]) -> (p: Packet)
    requires
        data@.len() <= BLOB_LEN_MAX,
    ensures
        p@ == raw_frame(cmd, data@),
{
    let mut buf = buffer_with_capacity(2);
    buffer_put_u16(&mut buf, cmd.code());
    buffer_put_slice(&mut buf, data);
    assert(crate::buffer::written(buf) =~= raw_frame(cmd, data@));
    Packet { data: buffer_freeze(buf) }
}

/// The frame that tells a client why it is disconnected.
pub fn prepare_packet_kick(message: &str) -> (p: Packet)
    ensures
        p@ == kick_frame(message.spec_bytes()),
{
    let mut buf = buffer_with_capacity(2);
    buffer_put_u16(&mut buf, ServerCmd::Kick.code());
    put_string_u16(&mut buf, message.as_bytes());
    assert(crate::buffer::written(buf) =~= kick_frame(message.spec_bytes()));
    Packet { data: buffer_freeze(buf) }
}

/// The frame that sets the status line of a client.
pub fn prepare_packet_status_text(message: &str) -> (p: Packet)
    ensures
        p@ == status_text_frame(message.spec_bytes()),
{
    let mut buf = buffer_with_capacity(2);
    buffer_put_u16(&mut buf, ServerCmd::ProcessingStatusText.code());
    put_string_u16(&mut buf, message.as_bytes());
    assert(crate::buffer::written(buf) =~= status_text_frame(message.spec_bytes()));
    Packet { data: buffer_freeze(buf) }
}

/// The frame that tells a client its own id.
pub fn prepare_packet_your_id(session_id: u32) -> (p: Packet)
    ensures
        p@ == your_id_frame(session_id),
{
    let mut buf = buffer_with_capacity(4);
    buffer_put_u16(&mut buf, ServerCmd::YourId.code());
    buffer_put_u16(&mut buf, (session_id % 0x1_0000) as u16);
    assert(crate::buffer::written(buf) =~= your_id_frame(session_id));
    Packet { data: buffer_freeze(buf) }
}

/// The frame that moves the cursor of another user.
pub fn prepare_packet_user_cursor_pos(session_id: u32, x: i32, y: i32) -> (p: Packet)
    ensures
        p@ == user_cursor_pos_frame(session_id, x, y),
{
    let mut buf = buffer_with_capacity(12);
    buffer_put_u16(&mut buf, ServerCmd::UserCursorPos.code());
    buffer_put_u16(&mut buf, (session_id % 0x1_0000) as u16);
    buffer_put_i32(&mut buf, x);
    buffer_put_i32(&mut buf, y);
    assert(crate::buffer::written(buf) =~= user_cursor_pos_frame(session_id, x, y));
    Packet { data: buffer_freeze(buf) }
}

/// The frame that announces another user.
pub fn prepare_packet_user_create(session_id: u32, nickname: &str) -> (p: Packet)
    ensures
        p@ == user_create_frame(session_id, nickname.spec_bytes()),
{
    let mut buf = buffer_with_capacity(2);
    buffer_put_u16(&mut buf, ServerCmd::UserCreate.code());
    buffer_put_u16(&mut buf, (session_id % 0x1_0000) as u16);
    put_string_u8(&mut buf, nickname.as_bytes());
    assert(crate::buffer::written(buf) =~= user_create_frame(session_id, nickname.spec_bytes()));
    Packet { data: buffer_freeze(buf) }
}

/// The frame that takes another user away.
pub fn prepare_packet_user_remove(session_id: u32) -> (p: Packet)
    ensures
        p@ == user_remove_frame(session_id),
{
    let mut buf = buffer_with_capacity(2);
    buffer_put_u16(&mut buf, ServerCmd::UserRemove.code());
    buffer_put_u16(&mut buf, (session_id % 0x1_0000) as u16);
    assert(crate::buffer::written(buf) =~= user_remove_frame(session_id));
    Packet { data: buffer_freeze(buf) }
}

/// The frame that opens a chunk on the client.
pub fn prepare_packet_chunk_create(chunk_pos: IVec2) -> (p: Packet)
    ensures
        p@ == chunk_create_frame(chunk_pos),
{
    let mut buf = buffer_with_capacity(10);
    buffer_put_u16(&mut buf, ServerCmd::ChunkCreate.code());
    buffer_put_i32(&mut buf, chunk_pos.x);
    buffer_put_i32(&mut buf, chunk_pos.y);
    assert(crate::buffer::written(buf) =~= chunk_create_frame(chunk_pos));
    Packet { data: buffer_freeze(buf) }
}

/// The frame that carries a preview tile.
pub fn prepare_packet_preview_image(preview_pos: &IVec2, zoom: u8, data: &[u8]) -> (p: Packet)
    requires
        data@.len() <= BLOB_LEN_MAX,
    ensures
        p@ == preview_image_frame(*preview_pos, zoom, data@),
{
    let mut buf = buffer_with_capacity(2);
    buffer_put_u16(&mut buf, ServerCmd::PreviewImage.code());
    buffer_put_i32(&mut buf, preview_pos.x);
    buffer_put_i32(&mut buf, preview_pos.y);
    buffer_put_u8(&mut buf, zoom);
    buffer_put_u32(&mut buf, data.len() as u32);
    buffer_put_slice(&mut buf, data);
    assert(crate::buffer::written(buf) =~= preview_image_frame(*preview_pos, zoom, data@));
    Packet { data: buffer_freeze(buf) }
}

/// The frame that closes a chunk on the client.
pub fn prepare_packet_chunk_remove(chunk_pos: IVec2) -> (p: Packet)
    ensures
        p@ == chunk_remove_frame(chunk_pos),
{
    let mut buf = buffer_with_capacity(10);
    buffer_put_u16(&mut buf, ServerCmd::ChunkRemove.code());
    buffer_put_i32(&mut buf, chunk_pos.x);
    buffer_put_i32(&mut buf, chunk_pos.y);
    assert(crate::buffer::written(buf) =~= chunk_remove_frame(chunk_pos));
    Packet { data: buffer_freeze(buf) }
}

/// The frame that carries a whole chunk as an LZ4 block of its pixels.
pub fn prepare_packet_chunk_image(chunk_pos: IVec2, compressed_chunk_data: &[u8]) -> (p: Packet)
    requires
        compressed_chunk_data@.len() <= BLOB_LEN_MAX,
    ensures
        p@ == chunk_image_frame(chunk_pos, compressed_chunk_data@),
{
    let mut buf = buffer_with_capacity(2);
    buffer_put_u16(&mut buf, ServerCmd::ChunkImage.code());
    buffer_put_i32(&mut buf, chunk_pos.x);
    buffer_put_i32(&mut buf, chunk_pos.y);
    buffer_put_u32(&mut buf, CHUNK_IMAGE_SIZE_BYTES as u32);
    buffer_put_slice(&mut buf, compressed_chunk_data);
    assert(crate::buffer::written(buf) =~= chunk_image_frame(chunk_pos, compressed_chunk_data@));
    Packet { data: buffer_freeze(buf) }
}

/// The frame that carries a line of text to show.
pub fn prepare_packet_message(message_type: MessageType, message: &str) -> (p: Packet)
    ensures
        p@ == message_frame(message_type, message.spec_bytes()),
{
    let mut buf = buffer_with_capacity(2);
    buffer_put_u16(&mut buf, ServerCmd::Message.code());
    buffer_put_u8(&mut buf, message_type.code());
    put_string_u16(&mut buf, message.as_bytes());
    assert(crate::buffer::written(buf) =~= message_frame(message_type, message.spec_bytes()));
    Packet { data: buffer_freeze(buf) }
}

/// The frame that carries a batch of changed pixels of one chunk, as an
/// LZ4 block of `x, y, r, g, b` for each pixel.
pub fn prepare_packet_pixel_pack(
    xyrgb_lz4_packed: &[u8],
    chunk_x: i32,
    chunk_y: i32,
    pixel_count: u32,
    raw_size: u32,
) -> (p: Packet)
    requires
        xyrgb_lz4_packed@.len() <= BLOB_LEN_MAX,
    ensures
        p@ == pixel_pack_frame(xyrgb_lz4_packed@, chunk_x, chunk_y, pixel_count, raw_size),
{
    let mut buf = buffer_new();
    buffer_put_u16(&mut buf, ServerCmd::ChunkPixelPack.code());
    buffer_put_i32(&mut buf, chunk_x);
    buffer_put_i32(&mut buf, chunk_y);
    buffer_put_u32(&mut buf, pixel_count);
    buffer_put_u32(&mut buf, raw_size);
    buffer_put_slice(&mut buf, xyrgb_lz4_packed);
    assert(crate::buffer::written(buf) =~= pixel_pack_frame(
        xyrgb_lz4_packed@,
        chunk_x,
        chunk_y,
        pixel_count,
        raw_size,
    ));
    Packet { data: buffer_freeze(buf) }
}

} // verus!

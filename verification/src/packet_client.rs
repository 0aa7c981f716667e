//! Frames that clients send.

use vstd::prelude::*;
use vstd::slice::slice_subrange;
use crate::text::{lowercased, to_lowercase, utf8_to_string};
use crate::vector::IVec2;
use crate::wire::{
    be_i32, be_u16, be_u32, lemma_i32_round_trip, lemma_u16_round_trip, lemma_u32_round_trip,
    u16_of, u32_of, u32_signed,
};
use vstd::utf8::{decode_utf8, valid_utf8};

verus! {

#[derive(Clone, Copy, PartialEq, Eq, Structural, Debug)]
pub enum ToolType {
    Brush,
    Fill,
    Spray,
    Blur,
    Smudge,
    SmoothBrush,
    SquareBrush,
    Line,
}

#[derive(Clone, Copy, PartialEq, Eq, Structural, Debug)]
pub enum ClientCmd {
    /// u16 text size, utf-8 text
    Message,
    /// u8 room name size, utf-8 room name, u8 nickname size, utf-8 nickname
    Announce,
    Ping,
    /// s32 x, s32 y
    CursorPos,
    CursorDown,
    CursorUp,
    /// s32 start x, s32 start y, s32 end x, s32 end y, f32 zoom
    Boundary,
    /// u32 count
    ChunksReceived,
    /// s32 preview x, s32 preview y, u8 zoom
    PreviewRequest,
    /// u8 type
    ToolType,
    /// u8 red, u8 green, u8 blue
    ToolColor,
    /// u8 size
    ToolSize,
    /// f32 flow
    ToolFlow,
    Undo,
}

/// Why a frame could not be read.
#[derive(Clone, Copy, PartialEq, Eq, Structural, Debug)]
pub enum FrameError {
    /// The frame ends before the field does.
    Truncated,
    /// No command has this id.
    UnknownCommand(u16),
    /// A text is not UTF-8.
    InvalidUtf8,
}

/// A frame of a client, field by field as it stands on the wire.
pub enum ClientPacket {
    Message { text: Vec<u8> },
    Announce { room_name: Vec<u8>, nick_name: Vec<u8> },
    Ping,
    CursorPos { x: i32, y: i32 },
    CursorDown,
    CursorUp,
    Boundary { start_x: i32, start_y: i32, end_x: i32, end_y: i32, zoom_bits: u32 },
    ChunksReceived { count: u32 },
    PreviewRequest { x: i32, y: i32, zoom: u8 },
    ToolType { tool_type: u8 },
    ToolColor { r: u8, g: u8, b: u8 },
    ToolSize { size: u8 },
    ToolFlow { flow_bits: u32 },
    Undo,
}

/// What a `ClientPacket` holds.
pub enum ClientPacketView {
    Message { text: Seq<u8> },
    Announce { room_name: Seq<u8>, nick_name: Seq<u8> },
    Ping,
    CursorPos { x: i32, y: i32 },
    CursorDown,
    CursorUp,
    Boundary { start_x: i32, start_y: i32, end_x: i32, end_y: i32, zoom_bits: u32 },
    ChunksReceived { count: u32 },
    PreviewRequest { x: i32, y: i32, zoom: u8 },
    ToolType { tool_type: u8 },
    ToolColor { r: u8, g: u8, b: u8 },
    ToolSize { size: u8 },
    ToolFlow { flow_bits: u32 },
    Undo,
}

pub struct PacketAnnounce {
    pub room_name: String,
    pub nick_name: String,
}

#[derive(Clone, Copy, PartialEq, Eq, Structural, Debug)]
pub struct PacketCursorPos {
    pub x: i32,
    pub y: i32,
}

/// Reads a frame field by field, front to back.
pub struct FrameReader<'a> {
    pub data: &'a [u8],
    pub pos: usize,
}

impl ToolType {
    pub open spec fn code_spec(self) -> u8 {
        match self {
            ToolType::Brush => 0,
            ToolType::Fill => 1,
            ToolType::Spray => 2,
            ToolType::Blur => 3,
            ToolType::Smudge => 4,
            ToolType::SmoothBrush => 5,
            ToolType::SquareBrush => 6,
            ToolType::Line => 7,
        }
    }

    pub open spec fn from_code(code: u8) -> Option<ToolType> {
        if code == 0 {
            Some(ToolType::Brush)
        } else if code == 1 {
            Some(ToolType::Fill)
        } else if code == 2 {
            Some(ToolType::Spray)
        } else if code == 3 {
            Some(ToolType::Blur)
        } else if code == 4 {
            Some(ToolType::Smudge)
        } else if code == 5 {
            Some(ToolType::SmoothBrush)
        } else if code == 6 {
            Some(ToolType::SquareBrush)
        } else if code == 7 {
            Some(ToolType::Line)
        } else {
            None
        }
    }

    /// The byte that stands for this tool in a frame.
    pub fn code(self) -> (c: u8)
        ensures
            c == self.code_spec(),
            Self::from_code(c) == Some(self),
    {
        match self {
            ToolType::Brush => 0,
            ToolType::Fill => 1,
            ToolType::Spray => 2,
            ToolType::Blur => 3,
            ToolType::Smudge => 4,
            ToolType::SmoothBrush => 5,
            ToolType::SquareBrush => 6,
            ToolType::Line => 7,
        }
    }

    /// The tool that `code` stands for, if any.
    pub fn try_from(code: u8) -> (tool: Option<ToolType>)
        ensures
            tool == Self::from_code(code),
    {
        if code == 0 {
            Some(ToolType::Brush)
        } else if code == 1 {
            Some(ToolType::Fill)
        } else if code == 2 {
            Some(ToolType::Spray)
        } else if code == 3 {
            Some(ToolType::Blur)
        } else if code == 4 {
            Some(ToolType::Smudge)
        } else if code == 5 {
            Some(ToolType::SmoothBrush)
        } else if code == 6 {
            Some(ToolType::SquareBrush)
        } else if code == 7 {
            Some(ToolType::Line)
        } else {
            None
        }
    }
}

impl ClientCmd {
    pub open spec fn code_spec(self) -> u16 {
        match self {
            ClientCmd::Message => 1,
            ClientCmd::Announce => 2,
            ClientCmd::Ping => 4,
            ClientCmd::CursorPos => 100,
            ClientCmd::CursorDown => 101,
            ClientCmd::CursorUp => 102,
            ClientCmd::Boundary => 103,
            ClientCmd::ChunksReceived => 104,
            ClientCmd::PreviewRequest => 105,
            ClientCmd::ToolType => 200,
            ClientCmd::ToolColor => 201,
            ClientCmd::ToolSize => 202,
            ClientCmd::ToolFlow => 203,
            ClientCmd::Undo => 300,
        }
    }

    pub open spec fn from_code(code: u16) -> Option<ClientCmd> {
        if code == 1 {
            Some(ClientCmd::Message)
        } else if code == 2 {
            Some(ClientCmd::Announce)
        } else if code == 4 {
            Some(ClientCmd::Ping)
        } else if code == 100 {
            Some(ClientCmd::CursorPos)
        } else if code == 101 {
            Some(ClientCmd::CursorDown)
        } else if code == 102 {
            Some(ClientCmd::CursorUp)
        } else if code == 103 {
            Some(ClientCmd::Boundary)
        } else if code == 104 {
            Some(ClientCmd::ChunksReceived)
        } else if code == 105 {
            Some(ClientCmd::PreviewRequest)
        } else if code == 200 {
            Some(ClientCmd::ToolType)
        } else if code == 201 {
            Some(ClientCmd::ToolColor)
        } else if code == 202 {
            Some(ClientCmd::ToolSize)
        } else if code == 203 {
            Some(ClientCmd::ToolFlow)
        } else if code == 300 {
            Some(ClientCmd::Undo)
        } else {
            None
        }
    }

    /// The command id that opens a frame of this kind.
    pub fn code(self) -> (c: u16)
        ensures
            c == self.code_spec(),
            Self::from_code(c) == Some(self),
    {
        match self {
            ClientCmd::Message => 1,
            ClientCmd::Announce => 2,
            ClientCmd::Ping => 4,
            ClientCmd::CursorPos => 100,
            ClientCmd::CursorDown => 101,
            ClientCmd::CursorUp => 102,
            ClientCmd::Boundary => 103,
            ClientCmd::ChunksReceived => 104,
            ClientCmd::PreviewRequest => 105,
            ClientCmd::ToolType => 200,
            ClientCmd::ToolColor => 201,
            ClientCmd::ToolSize => 202,
            ClientCmd::ToolFlow => 203,
            ClientCmd::Undo => 300,
        }
    }

    /// The command that `code` stands for, if any.
    pub fn try_from(code: u16) -> (cmd: Option<ClientCmd>)
        ensures
            cmd == Self::from_code(code),
    {
        if code == 1 {
            Some(ClientCmd::Message)
        } else if code == 2 {
            Some(ClientCmd::Announce)
        } else if code == 4 {
            Some(ClientCmd::Ping)
        } else if code == 100 {
            Some(ClientCmd::CursorPos)
        } else if code == 101 {
            Some(ClientCmd::CursorDown)
        } else if code == 102 {
            Some(ClientCmd::CursorUp)
        } else if code == 103 {
            Some(ClientCmd::Boundary)
        } else if code == 104 {
            Some(ClientCmd::ChunksReceived)
        } else if code == 105 {
            Some(ClientCmd::PreviewRequest)
        } else if code == 200 {
            Some(ClientCmd::ToolType)
        } else if code == 201 {
            Some(ClientCmd::ToolColor)
        } else if code == 202 {
            Some(ClientCmd::ToolSize)
        } else if code == 203 {
            Some(ClientCmd::ToolFlow)
        } else if code == 300 {
            Some(ClientCmd::Undo)
        } else {
            None
        }
    }
}

impl View for ClientPacket {
    type V = ClientPacketView;

    open spec fn view(&self) -> ClientPacketView {
        match *self {
            ClientPacket::Message { text } => ClientPacketView::Message { text: text@ },
            ClientPacket::Announce { room_name, nick_name } => ClientPacketView::Announce {
                room_name: room_name@,
                nick_name: nick_name@,
            },
            ClientPacket::Ping => ClientPacketView::Ping,
            ClientPacket::CursorPos { x, y } => ClientPacketView::CursorPos { x, y },
            ClientPacket::CursorDown => ClientPacketView::CursorDown,
            ClientPacket::CursorUp => ClientPacketView::CursorUp,
            ClientPacket::Boundary { start_x, start_y, end_x, end_y, zoom_bits } => {
                ClientPacketView::Boundary { start_x, start_y, end_x, end_y, zoom_bits }
            },
            ClientPacket::ChunksReceived { count } => ClientPacketView::ChunksReceived { count },
            ClientPacket::PreviewRequest { x, y, zoom } => ClientPacketView::PreviewRequest {
                x,
                y,
                zoom,
            },
            ClientPacket::ToolType { tool_type } => ClientPacketView::ToolType { tool_type },
            ClientPacket::ToolColor { r, g, b } => ClientPacketView::ToolColor { r, g, b },
            ClientPacket::ToolSize { size } => ClientPacketView::ToolSize { size },
            ClientPacket::ToolFlow { flow_bits } => ClientPacketView::ToolFlow { flow_bits },
            ClientPacket::Undo => ClientPacketView::Undo,
        }
    }
}

/// The number that the two bytes of `data` at `at` stand for.
pub open spec fn u16_at(data: Seq<u8>, at: int) -> u16 {
    u16_of(data[at], data[at + 1])
}

/// The number that the four bytes of `data` at `at` stand for.
pub open spec fn u32_at(data: Seq<u8>, at: int) -> u32 {
    u32_of(data[at], data[at + 1], data[at + 2], data[at + 3])
}

/// The signed number that the four bytes of `data` at `at` stand for.
pub open spec fn i32_at(data: Seq<u8>, at: int) -> i32 {
    u32_signed(u32_at(data, at))
}

/// The frame that carries `packet`. Texts must fit their length field:
/// see `fits_frame`.
pub open spec fn client_frame(packet: ClientPacketView) -> Seq<u8> {
    match packet {
        ClientPacketView::Message { text } => be_u16(1) + be_u16(text.len() as u16) + text,
        ClientPacketView::Announce { room_name, nick_name } => be_u16(2) + seq![
            room_name.len() as u8,
        ] + room_name + seq![nick_name.len() as u8] + nick_name,
        ClientPacketView::Ping => be_u16(4),
        ClientPacketView::CursorPos { x, y } => be_u16(100) + be_i32(x) + be_i32(y),
        ClientPacketView::CursorDown => be_u16(101),
        ClientPacketView::CursorUp => be_u16(102),
        ClientPacketView::Boundary { start_x, start_y, end_x, end_y, zoom_bits } => be_u16(103)
            + be_i32(start_x) + be_i32(start_y) + be_i32(end_x) + be_i32(end_y) + be_u32(zoom_bits),
        ClientPacketView::ChunksReceived { count } => be_u16(104) + be_u32(count),
        ClientPacketView::PreviewRequest { x, y, zoom } => be_u16(105) + be_i32(x) + be_i32(y)
            + seq![zoom],
        ClientPacketView::ToolType { tool_type } => be_u16(200) + seq![tool_type],
        ClientPacketView::ToolColor { r, g, b } => be_u16(201) + seq![r, g, b],
        ClientPacketView::ToolSize { size } => be_u16(202) + seq![size],
        ClientPacketView::ToolFlow { flow_bits } => be_u16(203) + be_u32(flow_bits),
        ClientPacketView::Undo => be_u16(300),
    }
}

/// The texts of `packet` are short enough for their length fields.
pub open spec fn fits_frame(packet: ClientPacketView) -> bool {
    match packet {
        ClientPacketView::Message { text } => text.len() <= 65535,
        ClientPacketView::Announce { room_name, nick_name } => room_name.len() <= 255
            && nick_name.len() <= 255,
        _ => true,
    }
}

/// What the frame `data` holds: the packet, or why there is none.
pub open spec fn parsed(data: Seq<u8>) -> Result<ClientPacketView, FrameError> {
    if data.len() < 2 {
        Err(FrameError::Truncated)
    } else {
        match ClientCmd::from_code(u16_at(data, 0)) {
            None => Err(FrameError::UnknownCommand(u16_at(data, 0))),
            Some(ClientCmd::Message) => if data.len() < 4 || data.len() < 4 + u16_at(data, 2) {
                Err(FrameError::Truncated)
            } else {
                Ok(ClientPacketView::Message { text: data.subrange(4, 4 + u16_at(data, 2)) })
            },
            Some(ClientCmd::Announce) => if data.len() < 3 || data.len() < 3 + data[2] + 1
                || data.len() < 3 + data[2] + 1 + data[3 + data[2]] {
                Err(FrameError::Truncated)
            } else {
                Ok(
                    ClientPacketView::Announce {
                        room_name: data.subrange(3, 3 + data[2]),
                        nick_name: data.subrange(
                            4 + data[2],
                            4 + data[2] + data[3 + data[2]],
                        ),
                    },
                )
            },
            Some(ClientCmd::Ping) => Ok(ClientPacketView::Ping),
            Some(ClientCmd::CursorPos) => if data.len() < 10 {
                Err(FrameError::Truncated)
            } else {
                Ok(ClientPacketView::CursorPos { x: i32_at(data, 2), y: i32_at(data, 6) })
            },
            Some(ClientCmd::CursorDown) => Ok(ClientPacketView::CursorDown),
            Some(ClientCmd::CursorUp) => Ok(ClientPacketView::CursorUp),
            Some(ClientCmd::Boundary) => if data.len() < 22 {
                Err(FrameError::Truncated)
            } else {
                Ok(
                    ClientPacketView::Boundary {
                        start_x: i32_at(data, 2),
                        start_y: i32_at(data, 6),
                        end_x: i32_at(data, 10),
                        end_y: i32_at(data, 14),
                        zoom_bits: u32_at(data, 18),
                    },
                )
            },
            Some(ClientCmd::ChunksReceived) => if data.len() < 6 {
                Err(FrameError::Truncated)
            } else {
                Ok(ClientPacketView::ChunksReceived { count: u32_at(data, 2) })
            },
            Some(ClientCmd::PreviewRequest) => if data.len() < 11 {
                Err(FrameError::Truncated)
            } else {
                Ok(
                    ClientPacketView::PreviewRequest {
                        x: i32_at(data, 2),
                        y: i32_at(data, 6),
                        zoom: data[10],
                    },
                )
            },
            Some(ClientCmd::ToolType) => if data.len() < 3 {
                Err(FrameError::Truncated)
            } else {
                Ok(ClientPacketView::ToolType { tool_type: data[2] })
            },
            Some(ClientCmd::ToolColor) => if data.len() < 5 {
                Err(FrameError::Truncated)
            } else {
                Ok(ClientPacketView::ToolColor { r: data[2], g: data[3], b: data[4] })
            },
            Some(ClientCmd::ToolSize) => if data.len() < 3 {
                Err(FrameError::Truncated)
            } else {
                Ok(ClientPacketView::ToolSize { size: data[2] })
            },
            Some(ClientCmd::ToolFlow) => if data.len() < 6 {
                Err(FrameError::Truncated)
            } else {
                Ok(ClientPacketView::ToolFlow { flow_bits: u32_at(data, 2) })
            },
            Some(ClientCmd::Undo) => Ok(ClientPacketView::Undo),
        }
    }
}

/// Reading the frame of a packet gives the packet back.
pub proof fn lemma_frame_round_trip(packet: ClientPacketView)
    requires
        fits_frame(packet),
    ensures
        parsed(client_frame(packet)) == Ok::<ClientPacketView, FrameError>(packet),
{
    let data = client_frame(packet);
    match packet {
        ClientPacketView::Message { text } => {
            lemma_u16_round_trip(1);
            lemma_u16_round_trip(text.len() as u16);
            assert(data.subrange(4, 4 + text.len() as int) =~= text);
        },
        ClientPacketView::Announce { room_name, nick_name } => {
            lemma_u16_round_trip(2);
            assert(data[2] == room_name.len() as u8);
            assert(data[3 + room_name.len() as int] == nick_name.len() as u8);
            assert(data.subrange(3, 3 + room_name.len() as int) =~= room_name);
            assert(data.subrange(
                4 + room_name.len() as int,
                4 + room_name.len() as int + nick_name.len() as int,
            ) =~= nick_name);
        },
        ClientPacketView::Ping => {
            lemma_u16_round_trip(4);
        },
        ClientPacketView::CursorPos { x, y } => {
            lemma_u16_round_trip(100);
            lemma_i32_round_trip(x);
            lemma_i32_round_trip(y);
        },
        ClientPacketView::CursorDown => {
            lemma_u16_round_trip(101);
        },
        ClientPacketView::CursorUp => {
            lemma_u16_round_trip(102);
        },
        ClientPacketView::Boundary { start_x, start_y, end_x, end_y, zoom_bits } => {
            lemma_u16_round_trip(103);
            lemma_i32_round_trip(start_x);
            lemma_i32_round_trip(start_y);
            lemma_i32_round_trip(end_x);
            lemma_i32_round_trip(end_y);
            lemma_u32_round_trip(zoom_bits);
        },
        ClientPacketView::ChunksReceived { count } => {
            lemma_u16_round_trip(104);
            lemma_u32_round_trip(count);
        },
        ClientPacketView::PreviewRequest { x, y, zoom } => {
            lemma_u16_round_trip(105);
            lemma_i32_round_trip(x);
            lemma_i32_round_trip(y);
        },
        ClientPacketView::ToolType { tool_type } => {
            lemma_u16_round_trip(200);
        },
        ClientPacketView::ToolColor { r, g, b } => {
            lemma_u16_round_trip(201);
        },
        ClientPacketView::ToolSize { size } => {
            lemma_u16_round_trip(202);
        },
        ClientPacketView::ToolFlow { flow_bits } => {
            lemma_u16_round_trip(203);
            lemma_u32_round_trip(flow_bits);
        },
        ClientPacketView::Undo => {
            lemma_u16_round_trip(300);
        },
    }
}

impl<'a> FrameReader<'a> {
    /// The reader stands within its frame.
    pub open spec fn wf(&self) -> bool {
        self.pos <= self.data@.len()
    }

    /// A reader at the front of `data`.
    pub fn new(data: &'a [u8]) -> (reader: Self)
        ensures
            reader.wf(),
            reader.data@ == data@,
            reader.pos == 0,
    {
        FrameReader { data, pos: 0 }
    }

    /// How many bytes are left to read.
    pub fn remaining(&self) -> (left: usize)
        requires
            self.wf(),
        ensures
            left == self.data@.len() - self.pos,
    {
        self.data.len() - self.pos
    }

    /// Reads one byte.
    pub fn read_u8(&mut self) -> (value: Result<u8, FrameError>)
        requires
            old(self).wf(),
        ensures
            final(self).wf(),
            final(self).data == old(self).data,
            old(self).pos + 1 > old(self).data@.len() ==> value == Err::<u8, FrameError>(
                FrameError::Truncated,
            ) && final(self).pos == old(self).pos,
            old(self).pos + 1 <= old(self).data@.len() ==> value == Ok::<u8, FrameError>(
                old(self).data@[old(self).pos as int],
            ) && final(self).pos == old(self).pos + 1,
    {
        if self.data.len() - self.pos < 1 {
            return Err(FrameError::Truncated);
        }
        let value = self.data[self.pos];
        self.pos += 1;
        Ok(value)
    }

    /// Reads two bytes as a number, most significant byte first.
    pub fn read_u16(&mut self) -> (value: Result<u16, FrameError>)
        requires
            old(self).wf(),
        ensures
            final(self).wf(),
            final(self).data == old(self).data,
            old(self).pos + 2 > old(self).data@.len() ==> value == Err::<u16, FrameError>(
                FrameError::Truncated,
            ) && final(self).pos == old(self).pos,
            old(self).pos + 2 <= old(self).data@.len() ==> value == Ok::<u16, FrameError>(
                u16_at(old(self).data@, old(self).pos as int),
            ) && final(self).pos == old(self).pos + 2,
    {
        if self.data.len() - self.pos < 2 {
            return Err(FrameError::Truncated);
        }
        let b0 = self.data[self.pos] as u16;
        let b1 = self.data[self.pos + 1] as u16;
        self.pos += 2;
        Ok(b0 * 256 + b1)
    }

    /// Reads four bytes as a number, most significant byte first.
    pub fn read_u32(&mut self) -> (value: Result<u32, FrameError>)
        requires
            old(self).wf(),
        ensures
            final(self).wf(),
            final(self).data == old(self).data,
            old(self).pos + 4 > old(self).data@.len() ==> value == Err::<u32, FrameError>(
                FrameError::Truncated,
            ) && final(self).pos == old(self).pos,
            old(self).pos + 4 <= old(self).data@.len() ==> value == Ok::<u32, FrameError>(
                u32_at(old(self).data@, old(self).pos as int),
            ) && final(self).pos == old(self).pos + 4,
    {
        if self.data.len() - self.pos < 4 {
            return Err(FrameError::Truncated);
        }
        let b0 = self.data[self.pos] as u32;
        let b1 = self.data[self.pos + 1] as u32;
        let b2 = self.data[self.pos + 2] as u32;
        let b3 = self.data[self.pos + 3] as u32;
        self.pos += 4;
        Ok(b0 * 0x100_0000 + b1 * 0x1_0000 + b2 * 256 + b3)
    }

    /// Reads four bytes as a signed number in two's complement, most
    /// significant byte first.
    pub fn read_i32(&mut self) -> (value: Result<i32, FrameError>)
        requires
            old(self).wf(),
        ensures
            final(self).wf(),
            final(self).data == old(self).data,
            old(self).pos + 4 > old(self).data@.len() ==> value == Err::<i32, FrameError>(
                FrameError::Truncated,
            ) && final(self).pos == old(self).pos,
            old(self).pos + 4 <= old(self).data@.len() ==> value == Ok::<i32, FrameError>(
                i32_at(old(self).data@, old(self).pos as int),
            ) && final(self).pos == old(self).pos + 4,
    {
        match self.read_u32() {
            Ok(bits) => {
                if bits >= 0x8000_0000 {
                    Ok((bits as i64 - 0x1_0000_0000) as i32)
                } else {
                    Ok(bits as i32)
                }
            },
            Err(e) => Err(e),
        }
    }

    /// Reads `size` bytes.
    pub fn read_bytes(&mut self, size: usize) -> (bytes: Result<&'a [u8], FrameError>)
        requires
            old(self).wf(),
        ensures
            final(self).wf(),
            final(self).data == old(self).data,
            old(self).pos + size > old(self).data@.len() ==> bytes is Err && bytes->Err_0
                == FrameError::Truncated && final(self).pos == old(self).pos,
            old(self).pos + size <= old(self).data@.len() ==> bytes is Ok && bytes->Ok_0@ == old(
                self,
            ).data@.subrange(old(self).pos as int, old(self).pos + size) && final(self).pos == old(
                self,
            ).pos + size,
    {
        if self.data.len() - self.pos < size {
            return Err(FrameError::Truncated);
        }
        let bytes = slice_subrange(self.data, self.pos, self.pos + size);
        self.pos += size;
        Ok(bytes)
    }
}

/// The text that stands at `at` in `data` behind its length in one byte:
/// the text, or why there is none.
pub open spec fn text_u8_at(data: Seq<u8>, at: int) -> Result<Seq<char>, FrameError> {
    if at + 1 > data.len() || at + 1 + data[at] > data.len() {
        Err(FrameError::Truncated)
    } else if !valid_utf8(data.subrange(at + 1, at + 1 + data[at])) {
        Err(FrameError::InvalidUtf8)
    } else {
        Ok(decode_utf8(data.subrange(at + 1, at + 1 + data[at])))
    }
}

/// Where a reader stands after it has read, or tried to read, the text at
/// `at`: where it stood if the length is missing, behind the length if the
/// bytes are missing, behind the bytes else.
pub open spec fn text_u8_end(data: Seq<u8>, at: int) -> int {
    if at + 1 > data.len() {
        at
    } else if at + 1 + data[at] > data.len() {
        at + 1
    } else {
        at + 1 + data[at]
    }
}

/// Reads a text behind its length in one byte.
pub fn read_string_u8(reader: &mut FrameReader) -> (text: Result<String, FrameError>)
    requires
        old(reader).wf(),
    ensures
        final(reader).wf(),
        final(reader).data == old(reader).data,
        final(reader).pos == text_u8_end(old(reader).data@, old(reader).pos as int),
        match text_u8_at(old(reader).data@, old(reader).pos as int) {
            Ok(chars) => text matches Ok(s) && s@ == chars,
            Err(e) => text matches Err(got) && got == e,
        },
{
    let str_size = match reader.read_u8() {
        Ok(n) => n,
        Err(e) => {
            return Err(e);
        },
    };
    let str_data = match reader.read_bytes(str_size as usize) {
        Ok(d) => d,
        Err(e) => {
            return Err(e);
        },
    };
    match utf8_to_string(str_data) {
        Some(s) => Ok(s),
        None => Err(FrameError::InvalidUtf8),
    }
}

/// Reads a text behind its length in two bytes.
pub fn read_string_u16(reader: &mut FrameReader) -> (text: Result<String, FrameError>)
    requires
        old(reader).wf(),
    ensures
        final(reader).wf(),
        final(reader).data == old(reader).data,
        text matches Ok(s) ==> {
            let at = old(reader).pos as int;
            let data = old(reader).data@;
            &&& at + 2 + u16_at(data, at) <= data.len()
            &&& valid_utf8(data.subrange(at + 2, at + 2 + u16_at(data, at)))
            &&& s@ == decode_utf8(data.subrange(at + 2, at + 2 + u16_at(data, at)))
            &&& final(reader).pos == at + 2 + u16_at(data, at)
        },
        text matches Err(e) ==> {
            let at = old(reader).pos as int;
            let data = old(reader).data@;
            if at + 2 > data.len() || at + 2 + u16_at(data, at) > data.len() {
                e == FrameError::Truncated
            } else {
                e == FrameError::InvalidUtf8 && !valid_utf8(
                    data.subrange(at + 2, at + 2 + u16_at(data, at)),
                )
            }
        },
{
    let str_size = match reader.read_u16() {
        Ok(n) => n,
        Err(e) => {
            return Err(e);
        },
    };
    let str_data = match reader.read_bytes(str_size as usize) {
        Ok(d) => d,
        Err(e) => {
            return Err(e);
        },
    };
    match utf8_to_string(str_data) {
        Some(s) => Ok(s),
        None => Err(FrameError::InvalidUtf8),
    }
}

/// The two names of the announcement that stands at `at` in `data`, the
/// room name in lower case, or why there are none: the fault of the room
/// name, if it has one, else that of the nick name.
pub open spec fn announce_at(data: Seq<u8>, at: int) -> Result<(Seq<char>, Seq<char>), FrameError> {
    match text_u8_at(data, at) {
        Err(e) => Err(e),
        Ok(room_name) => match text_u8_at(data, text_u8_end(data, at)) {
            Err(e) => Err(e),
            Ok(nick_name) => Ok((lowercased(room_name), nick_name)),
        },
    }
}

/// Where a reader stands after it has read, or tried to read, the
/// announcement at `at`: where the fault of the room name left it, if that
/// has one, else where the nick name left it.
pub open spec fn announce_end(data: Seq<u8>, at: int) -> int {
    if text_u8_at(data, at) is Err {
        text_u8_end(data, at)
    } else {
        text_u8_end(data, text_u8_end(data, at))
    }
}

impl PacketAnnounce {
    /// Reads the two names of an announcement; the room name is taken in
    /// lower case. A name that is cut short or not UTF-8 is a fault; the
    /// nick name is not read behind a faulty room name.
    pub fn read(reader: &mut FrameReader) -> (packet: Result<PacketAnnounce, FrameError>)
        requires
            old(reader).wf(),
        ensures
            final(reader).wf(),
            final(reader).data == old(reader).data,
            match announce_at(old(reader).data@, old(reader).pos as int) {
                Ok((room_name, nick_name)) => packet matches Ok(p) && p.room_name@ == room_name
                    && p.nick_name@ == nick_name,
                Err(e) => packet matches Err(got) && got == e,
            },
            final(reader).pos == announce_end(old(reader).data@, old(reader).pos as int),
    {
        let room_name_raw = match read_string_u8(reader) {
            Ok(s) => s,
            Err(e) => {
                return Err(e);
            },
        };
        let room_name = to_lowercase(room_name_raw.as_str());
        let nick_name = match read_string_u8(reader) {
            Ok(s) => s,
            Err(e) => {
                return Err(e);
            },
        };
        Ok(PacketAnnounce { room_name, nick_name })
    }
}

impl PacketCursorPos {
    /// Reads the two coordinates of a cursor, each of four bytes. Where
    /// bytes are missing the reader stands behind the coordinate that it
    /// could read, if any.
    pub fn read(reader: &mut FrameReader) -> (packet: Result<PacketCursorPos, FrameError>)
        requires
            old(reader).wf(),
        ensures
            final(reader).wf(),
            final(reader).data == old(reader).data,
            final(reader).pos == if old(reader).pos + 8 <= old(reader).data@.len() {
                old(reader).pos + 8
            } else if old(reader).pos + 4 <= old(reader).data@.len() {
                old(reader).pos + 4
            } else {
                old(reader).pos as int
            },
            old(reader).pos + 8 > old(reader).data@.len() ==> packet == Err::<
                PacketCursorPos,
                FrameError,
            >(FrameError::Truncated),
            old(reader).pos + 8 <= old(reader).data@.len() ==> packet == Ok::<
                PacketCursorPos,
                FrameError,
            >(
                PacketCursorPos {
                    x: i32_at(old(reader).data@, old(reader).pos as int),
                    y: i32_at(old(reader).data@, old(reader).pos + 4),
                },
            ),
    {
        let x = match reader.read_i32() {
            Ok(v) => v,
            Err(e) => {
                return Err(e);
            },
        };
        let y = match reader.read_i32() {
            Ok(v) => v,
            Err(e) => {
                return Err(e);
            },
        };
        Ok(PacketCursorPos { x, y })
    }

    /// The position as a vector.
    pub open spec fn to_vec_spec(self) -> IVec2 {
        IVec2 { x: self.x, y: self.y }
    }

    /// The position as a vector.
    pub fn to_vec(&self) -> (pos: IVec2)
        ensures
            pos == self.to_vec_spec(),
    {
        IVec2 { x: self.x, y: self.y }
    }
}

/// A copy of `bytes`.
pub fn bytes_to_vec(bytes: &[u8]) -> (copy: Vec<u8>)
    ensures
        copy@ == bytes@,
{
    let mut copy: Vec<u8> = Vec::with_capacity(bytes.len());
    let mut i: usize = 0;
    while i < bytes.len()
        invariant
            i <= bytes@.len(),
            copy@ == bytes@.take(i as int),
        decreases bytes@.len() - i,
    {
        copy.push(bytes[i]);
        assert(copy@ =~= bytes@.take(i as int + 1));
        i += 1;
    }
    assert(bytes@.take(bytes@.len() as int) =~= bytes@);
    copy
}

/// Appends `bytes` to `out`.
pub fn put_bytes(out: &mut Vec<u8>, bytes: &[u8])
    ensures
        final(out)@ == old(out)@ + bytes@,
{
    let mut i: usize = 0;
    assert(out@ =~= old(out)@ + bytes@.take(0));
    while i < bytes.len()
        invariant
            i <= bytes@.len(),
            out@ == old(out)@ + bytes@.take(i as int),
        decreases bytes@.len() - i,
    {
        out.push(bytes[i]);
        assert(out@ =~= old(out)@ + bytes@.take(i as int + 1));
        i += 1;
    }
    assert(bytes@.take(bytes@.len() as int) =~= bytes@);
}

/// Appends the two bytes of `value`, most significant first.
pub fn put_u16(out: &mut Vec<u8>, value: u16)
    ensures
        final(out)@ == old(out)@ + be_u16(value),
{
    out.push((value / 256) as u8);
    out.push((value % 256) as u8);
    assert(out@ =~= old(out)@ + be_u16(value));
}

/// Appends the four bytes of `value`, most significant first.
pub fn put_u32(out: &mut Vec<u8>, value: u32)
    ensures
        final(out)@ == old(out)@ + be_u32(value),
{
    out.push((value / 0x100_0000) as u8);
    out.push(((value / 0x1_0000) % 256) as u8);
    out.push(((value / 256) % 256) as u8);
    out.push((value % 256) as u8);
    assert(out@ =~= old(out)@ + be_u32(value));
}

/// Appends the four bytes of `value` in two's complement, most significant
/// first.
pub fn put_i32(out: &mut Vec<u8>, value: i32)
    ensures
        final(out)@ == old(out)@ + be_i32(value),
{
    let bits: u32 = if value < 0 {
        (value as i64 + 0x1_0000_0000) as u32
    } else {
        value as u32
    };
    put_u32(out, bits);
}

impl ClientPacket {
    /// Reads a frame. Bytes behind the last field are passed over.
    pub fn parse(data: &[u8]) -> (packet: Result<ClientPacket, FrameError>)
        ensures
            match packet {
                Ok(p) => parsed(data@) == Ok::<ClientPacketView, FrameError>(p@),
                Err(e) => parsed(data@) == Err::<ClientPacketView, FrameError>(e),
            },
    {
        let mut reader = FrameReader::new(data);
        let code = match reader.read_u16() {
            Ok(c) => c,
            Err(e) => {
                return Err(e);
            },
        };
        let command = match ClientCmd::try_from(code) {
            Some(c) => c,
            None => {
                return Err(FrameError::UnknownCommand(code));
            },
        };
        match command {
            ClientCmd::Message => {
                let len = match reader.read_u16() {
                    Ok(n) => n,
                    Err(e) => {
                        return Err(e);
                    },
                };
                let text = match reader.read_bytes(len as usize) {
                    Ok(t) => t,
                    Err(e) => {
                        return Err(e);
                    },
                };
                Ok(ClientPacket::Message { text: bytes_to_vec(text) })
            },
            ClientCmd::Announce => {
                let room_len = match reader.read_u8() {
                    Ok(n) => n,
                    Err(e) => {
                        return Err(e);
                    },
                };
                let room = match reader.read_bytes(room_len as usize) {
                    Ok(t) => t,
                    Err(e) => {
                        return Err(e);
                    },
                };
                let nick_len = match reader.read_u8() {
                    Ok(n) => n,
                    Err(e) => {
                        return Err(e);
                    },
                };
                let nick = match reader.read_bytes(nick_len as usize) {
                    Ok(t) => t,
                    Err(e) => {
                        return Err(e);
                    },
                };
                Ok(
                    ClientPacket::Announce {
                        room_name: bytes_to_vec(room),
                        nick_name: bytes_to_vec(nick),
                    },
                )
            },
            ClientCmd::Ping => Ok(ClientPacket::Ping),
            ClientCmd::CursorPos => {
                match PacketCursorPos::read(&mut reader) {
                    Ok(p) => Ok(ClientPacket::CursorPos { x: p.x, y: p.y }),
                    Err(e) => Err(e),
                }
            },
            ClientCmd::CursorDown => Ok(ClientPacket::CursorDown),
            ClientCmd::CursorUp => Ok(ClientPacket::CursorUp),
            ClientCmd::Boundary => {
                if reader.remaining() < 20 {
                    return Err(FrameError::Truncated);
                }
                let start_x = match reader.read_i32() {
                    Ok(v) => v,
                    Err(e) => {
                        return Err(e);
                    },
                };
                let start_y = match reader.read_i32() {
                    Ok(v) => v,
                    Err(e) => {
                        return Err(e);
                    },
                };
                let end_x = match reader.read_i32() {
                    Ok(v) => v,
                    Err(e) => {
                        return Err(e);
                    },
                };
                let end_y = match reader.read_i32() {
                    Ok(v) => v,
                    Err(e) => {
                        return Err(e);
                    },
                };
                let zoom_bits = match reader.read_u32() {
                    Ok(v) => v,
                    Err(e) => {
                        return Err(e);
                    },
                };
                Ok(ClientPacket::Boundary { start_x, start_y, end_x, end_y, zoom_bits })
            },
            ClientCmd::ChunksReceived => {
                match reader.read_u32() {
                    Ok(count) => Ok(ClientPacket::ChunksReceived { count }),
                    Err(e) => Err(e),
                }
            },
            ClientCmd::PreviewRequest => {
                if reader.remaining() < 9 {
                    return Err(FrameError::Truncated);
                }
                let x = match reader.read_i32() {
                    Ok(v) => v,
                    Err(e) => {
                        return Err(e);
                    },
                };
                let y = match reader.read_i32() {
                    Ok(v) => v,
                    Err(e) => {
                        return Err(e);
                    },
                };
                let zoom = match reader.read_u8() {
                    Ok(v) => v,
                    Err(e) => {
                        return Err(e);
                    },
                };
                Ok(ClientPacket::PreviewRequest { x, y, zoom })
            },
            ClientCmd::ToolType => {
                match reader.read_u8() {
                    Ok(tool_type) => Ok(ClientPacket::ToolType { tool_type }),
                    Err(e) => Err(e),
                }
            },
            ClientCmd::ToolColor => {
                if reader.remaining() < 3 {
                    return Err(FrameError::Truncated);
                }
                let r = match reader.read_u8() {
                    Ok(v) => v,
                    Err(e) => {
                        return Err(e);
                    },
                };
                let g = match reader.read_u8() {
                    Ok(v) => v,
                    Err(e) => {
                        return Err(e);
                    },
                };
                let b = match reader.read_u8() {
                    Ok(v) => v,
                    Err(e) => {
                        return Err(e);
                    },
                };
                Ok(ClientPacket::ToolColor { r, g, b })
            },
            ClientCmd::ToolSize => {
                match reader.read_u8() {
                    Ok(size) => Ok(ClientPacket::ToolSize { size }),
                    Err(e) => Err(e),
                }
            },
            ClientCmd::ToolFlow => {
                match reader.read_u32() {
                    Ok(flow_bits) => Ok(ClientPacket::ToolFlow { flow_bits }),
                    Err(e) => Err(e),
                }
            },
            ClientCmd::Undo => Ok(ClientPacket::Undo),
        }
    }

    /// The frame that carries the packet.
    pub fn encode(&self) -> (frame: Vec<u8>)
        requires
            fits_frame(self@),
        ensures
            frame@ == client_frame(self@),
    {
        let mut out: Vec<u8> = Vec::new();
        match self {
            ClientPacket::Message { text } => {
                put_u16(&mut out, 1);
                put_u16(&mut out, text.len() as u16);
                put_bytes(&mut out, text.as_slice());
                assert(out@ =~= client_frame(self@));
            },
            ClientPacket::Announce { room_name, nick_name } => {
                put_u16(&mut out, 2);
                out.push(room_name.len() as u8);
                put_bytes(&mut out, room_name.as_slice());
                out.push(nick_name.len() as u8);
                put_bytes(&mut out, nick_name.as_slice());
                assert(out@ =~= client_frame(self@));
            },
            ClientPacket::Ping => {
                put_u16(&mut out, 4);
                assert(out@ =~= client_frame(self@));
            },
            ClientPacket::CursorPos { x, y } => {
                put_u16(&mut out, 100);
                put_i32(&mut out, *x);
                put_i32(&mut out, *y);
                assert(out@ =~= client_frame(self@));
            },
            ClientPacket::CursorDown => {
                put_u16(&mut out, 101);
                assert(out@ =~= client_frame(self@));
            },
            ClientPacket::CursorUp => {
                put_u16(&mut out, 102);
                assert(out@ =~= client_frame(self@));
            },
            ClientPacket::Boundary { start_x, start_y, end_x, end_y, zoom_bits } => {
                put_u16(&mut out, 103);
                put_i32(&mut out, *start_x);
                put_i32(&mut out, *start_y);
                put_i32(&mut out, *end_x);
                put_i32(&mut out, *end_y);
                put_u32(&mut out, *zoom_bits);
                assert(out@ =~= client_frame(self@));
            },
            ClientPacket::ChunksReceived { count } => {
                put_u16(&mut out, 104);
                put_u32(&mut out, *count);
                assert(out@ =~= client_frame(self@));
            },
            ClientPacket::PreviewRequest { x, y, zoom } => {
                put_u16(&mut out, 105);
                put_i32(&mut out, *x);
                put_i32(&mut out, *y);
                out.push(*zoom);
                assert(out@ =~= client_frame(self@));
            },
            ClientPacket::ToolType { tool_type } => {
                put_u16(&mut out, 200);
                out.push(*tool_type);
                assert(out@ =~= client_frame(self@));
            },
            ClientPacket::ToolColor { r, g, b } => {
                put_u16(&mut out, 201);
                out.push(*r);
                out.push(*g);
                out.push(*b);
                assert(out@ =~= client_frame(self@));
            },
            ClientPacket::ToolSize { size } => {
                put_u16(&mut out, 202);
                out.push(*size);
                assert(out@ =~= client_frame(self@));
            },
            ClientPacket::ToolFlow { flow_bits } => {
                put_u16(&mut out, 203);
                put_u32(&mut out, *flow_bits);
                assert(out@ =~= client_frame(self@));
            },
            ClientPacket::Undo => {
                put_u16(&mut out, 300);
                assert(out@ =~= client_frame(self@));
            },
        }
        out
    }
}

} // verus!

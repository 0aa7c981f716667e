//! One connection: what the client has said of itself, what it sees, which
//! tool it holds, and how each of its frames changes that.

pub mod announce;
pub mod chat;
pub mod chunks;
pub mod tools;
pub mod line;
pub mod cursor;
pub mod dispatch;

use vstd::prelude::*;
use vstd::string::StringExecFns;
use crate::chunk::chunk::{delivered, Delivery};
use crate::history::History;
use crate::id::SessionHandle;
use crate::limits::{
    BOUNDARY_ZOOM_MIN_BITS, TOOL_SIZE_BLUR_MAX, TOOL_SIZE_BRUSH_MAX, TOOL_SIZE_LINE_MAX,
    TOOL_SIZE_SMOOTH_BRUSH_MAX, TOOL_SIZE_SMUDGE_MAX, TOOL_SIZE_SPRAY_MAX,
    TOOL_SIZE_SQUARE_BRUSH_MAX, ZOOM_INFINITY_BITS,
};
use crate::packet_client::{FrameError, PacketCursorPos, ToolType};
use crate::packet_server::{kick_frame, prepare_packet_kick, Packet};
use crate::pixel::ColorRGB;
use crate::serial_generator::SerialGenerator;
use crate::text::{char_to_string, decimal_text, number_to_string};
use crate::tool::reach::clamp_coord;
use crate::tool::state::ToolState;
use crate::vector::IVec2;
use vstd::string::StringSliceAdditionalSpecFns;

verus! {

/// A misuse of the protocol, in words for the client.
pub struct UserError {
    pub message: String,
}

/// A misuse of the protocol. Whoever commits one is disconnected.
#[derive(Clone, Copy, PartialEq, Eq, Structural, Debug)]
pub enum ProtocolError {
    /// The frame could not be read.
    Frame(FrameError),
    AnnouncedTwice,
    RoomNameLength,
    RoomNameChar(char),
    NickNameLength,
    NickNameChar(char),
    MessageTooLong(usize),
    /// The client says it has received more chunks than were sent.
    ChunksReceivedTooLarge { received: u32, sent: u32 },
    /// The client says it has received no more chunks than it said before.
    ChunksReceivedNotIncremented,
    InvalidToolFlow,
    InvalidToolType,
}

/// Where the cursor of a session is and was.
pub struct Cursor {
    pub pos: PacketCursorPos,
    pub pos_prev: PacketCursorPos,
    /// The position that the other sessions were told last.
    pub pos_sent: Option<PacketCursorPos>,
    pub down: bool,
    pub just_clicked: bool,
}

/// What the other sessions of a room may know of a session.
pub struct SessionState {
    pub nick_name: String,
    pub cursor: Cursor,
}

/// The part of the canvas that a client looks at, in chunks, and how far it
/// has zoomed in.
#[derive(Clone, Copy, PartialEq, Eq, Structural, Debug)]
pub struct Boundary {
    pub start_x: i32,
    pub start_y: i32,
    pub end_x: i32,
    pub end_y: i32,
    /// The zoom as the 32 bits of an IEEE number.
    pub zoom_bits: u32,
}

/// The tool that a session holds.
#[derive(Clone, Copy, PartialEq, Eq, Structural, Debug)]
pub struct ToolData {
    pub size: u8,
    /// The flow, between 0 and 1, as the 32 bits of an IEEE number.
    pub flow_bits: u32,
    pub color: ColorRGB,
    pub tool_type: Option<ToolType>,
}

/// A chunk that a session watches.
#[derive(Clone, Copy, PartialEq, Eq, Structural, Debug)]
pub struct LinkedChunk {
    pub pos: IVec2,
    /// For how many checks in a row the chunk lay outside the boundary.
    pub outside_boundary_duration: u32,
}

/// What a tool needs that is worked out in floating point, by the caller,
/// from the flow of the tool and the direction of the cursor.
pub struct ToolParams {
    /// The flow times 255, rounded down.
    pub blend_intensity: u8,
    /// For each cell of the square of the smooth brush, row by row, the
    /// weight with which the cell is blended toward the colour of the tool.
    pub smooth_kernel: Vec<u8>,
    /// The chance of the spray to paint a pixel, times 2 to the 23rd.
    pub spray_threshold: u32,
    /// Half the width of the line that is drawn, at a right angle to it.
    pub line_side_step: IVec2,
}

/// One connection.
pub struct SessionInstance {
    pub state: SessionState,
    pub admin_mode: bool,
    pub needs_boundary_test: bool,
    pub boundary: Boundary,
    pub linked_chunks: Vec<LinkedChunk>,
    /// Chunk images sent to the client.
    pub chunks_sent: u32,
    /// Chunk images that the client has confirmed.
    pub chunks_received: u32,
    pub history: History,
    pub tool: ToolData,
    pub kicked: bool,
    pub announced: bool,
    pub joined: bool,
    pub cleaned_up: bool,
    pub tool_state: ToolState,
    pub serial_generator: SerialGenerator,
}

/// The bits of 1.0 as a 32-bit IEEE number.
pub const FLOW_ONE_BITS: u32 = 0x3F80_0000;

/// The bits of 0.5 as a 32-bit IEEE number.
pub const FLOW_HALF_BITS: u32 = 0x3F00_0000;

/// The bits stand for a finite number: not for an infinity, not for
/// something that is no number.
pub open spec fn is_finite_bits(bits: u32) -> bool {
    (bits / 0x80_0000) % 256 != 255
}

/// The bits of a finite number, kept between 0 and 1: a number below 0
/// becomes 0, one above 1 becomes 1.
pub open spec fn clamped_flow(bits: u32) -> u32 {
    if bits > 0x8000_0000 {
        0
    } else if bits == 0x8000_0000 {
        bits
    } else if bits > 0x3F80_0000 {
        0x3F80_0000
    } else {
        bits
    }
}

/// At this zoom chunks are streamed: the zoom is a number above 0.45.
pub open spec fn zoom_streams(zoom_bits: u32) -> bool {
    0x3EE6_6666 < zoom_bits <= 0x7F80_0000
}

/// The boundary that a client is given when it asks for the rectangle from
/// `start` to `end`: an end before the start is moved to the start, and an
/// end more than 20 chunks behind the start is moved to 20 chunks behind
/// it.
pub open spec fn capped_boundary(start_x: i32, start_y: i32, end_x: i32, end_y: i32, zoom_bits: u32) -> Boundary {
    Boundary {
        start_x,
        start_y,
        end_x: capped_end(start_x, end_x),
        end_y: capped_end(start_y, end_y),
        zoom_bits,
    }
}

/// The end of a boundary along one axis: see `capped_boundary`.
pub open spec fn capped_end(start: i32, end: i32) -> i32 {
    if end < start {
        start
    } else if end > clamp_coord(start + 20) {
        clamp_coord(start + 20)
    } else {
        end
    }
}

/// The size that the tool of the given kind works with, where the client
/// asked for `size`: no more than the kind allows, and none for the fill.
pub open spec fn effective_tool_size(tool_type: Option<ToolType>, size: u8) -> u8 {
    match tool_type {
        None => 0,
        Some(ToolType::Fill) => 0,
        Some(ToolType::Line) => if size > 32 {
            32
        } else {
            size
        },
        Some(ToolType::Brush) => if size > 16 {
            16
        } else {
            size
        },
        Some(ToolType::SmoothBrush) => if size > 24 {
            24
        } else {
            size
        },
        Some(ToolType::SquareBrush) => if size > 16 {
            16
        } else {
            size
        },
        Some(ToolType::Spray) => if size > 32 {
            32
        } else {
            size
        },
        Some(ToolType::Blur) => if size > 16 {
            16
        } else {
            size
        },
        Some(ToolType::Smudge) => if size > 16 {
            16
        } else {
            size
        },
    }
}

/// The positions of `linked`, in order.
pub open spec fn linked_positions(linked: Seq<LinkedChunk>) -> Seq<IVec2> {
    linked.map_values(|c: LinkedChunk| c.pos)
}

/// The session was disconnected for the misuse `error`: the client was
/// told `User error: ` and the misuse in words, unless it had been told
/// before why it is disconnected.
pub open spec fn kicked_for(
    before: SessionInstance,
    after: SessionInstance,
    sent_before: Seq<(SessionHandle, Seq<u8>)>,
    sent_after: Seq<(SessionHandle, Seq<u8>)>,
    session_handle: SessionHandle,
    error: ProtocolError,
) -> bool {
    &&& after == SessionInstance { kicked: true, ..before }
    &&& sent_after == if before.kicked {
        sent_before
    } else {
        sent_before.push(
            (
                session_handle,
                kick_frame(vstd::utf8::encode_utf8("User error: "@ + error.message_text())),
            ),
        )
    }
}

impl UserError {
    pub fn new(message: &str) -> (error: Self)
        ensures
            error.message@ == message@,
    {
        UserError { message: String::from_str(message) }
    }
}

impl ProtocolError {
    /// The misuse in words for the client.
    pub open spec fn message_text(self) -> Seq<char> {
        match self {
            ProtocolError::Frame(FrameError::Truncated) => "Frame is too short"@,
            ProtocolError::Frame(FrameError::UnknownCommand(code)) => "Unknown command "@
                + decimal_text(code as u64),
            ProtocolError::Frame(FrameError::InvalidUtf8) => "Text is not UTF-8"@,
            ProtocolError::AnnouncedTwice => "Announced more than once"@,
            ProtocolError::RoomNameLength => "Invalid room name length (min 3, max 24)"@,
            ProtocolError::RoomNameChar(ch) => "Room name contains invalid character: \""@ + seq![
                ch,
            ] + "\". Only alphanumeric characters are allowed."@,
            ProtocolError::NickNameLength => "Invalid nick name length (min 3, max 24)"@,
            ProtocolError::NickNameChar(ch) => "Nick name contains invalid character: \""@ + seq![
                ch,
            ] + "\". Only alphanumeric characters are allowed."@,
            ProtocolError::MessageTooLong(len) => "Too long message, got "@ + decimal_text(
                len as u64,
            ) + ", max allowed is 1000"@,
            ProtocolError::ChunksReceivedTooLarge { received, sent } => "\"Chunks received ("@
                + decimal_text(received as u64) + ")\" value is larger than Chunks sent ("@
                + decimal_text(sent as u64) + ")"@,
            ProtocolError::ChunksReceivedNotIncremented => "\"Chunks received\" packet not incremented"@,
            ProtocolError::InvalidToolFlow => "Invalid tool flow"@,
            ProtocolError::InvalidToolType => "Invalid tool type"@,
        }
    }

    /// The misuse in words for the client.
    pub fn message(&self) -> (text: String)
        ensures
            text@ == self.message_text(),
    {
        match self {
            ProtocolError::Frame(FrameError::Truncated) => String::from_str("Frame is too short"),
            ProtocolError::Frame(FrameError::UnknownCommand(code)) => {
                let mut text = String::from_str("Unknown command ");
                let digits = number_to_string(*code as u64);
                text.append(digits.as_str());
                text
            },
            ProtocolError::Frame(FrameError::InvalidUtf8) => String::from_str("Text is not UTF-8"),
            ProtocolError::AnnouncedTwice => String::from_str("Announced more than once"),
            ProtocolError::RoomNameLength => String::from_str(
                "Invalid room name length (min 3, max 24)",
            ),
            ProtocolError::RoomNameChar(ch) => {
                let mut text = String::from_str("Room name contains invalid character: \"");
                let one = char_to_string(*ch);
                text.append(one.as_str());
                text.append("\". Only alphanumeric characters are allowed.");
                text
            },
            ProtocolError::NickNameLength => String::from_str(
                "Invalid nick name length (min 3, max 24)",
            ),
            ProtocolError::NickNameChar(ch) => {
                let mut text = String::from_str("Nick name contains invalid character: \"");
                let one = char_to_string(*ch);
                text.append(one.as_str());
                text.append("\". Only alphanumeric characters are allowed.");
                text
            },
            ProtocolError::MessageTooLong(len) => {
                let mut text = String::from_str("Too long message, got ");
                let digits = number_to_string(*len as u64);
                text.append(digits.as_str());
                text.append(", max allowed is 1000");
                text
            },
            ProtocolError::ChunksReceivedTooLarge { received, sent } => {
                let mut text = String::from_str("\"Chunks received (");
                let first = number_to_string(*received as u64);
                text.append(first.as_str());
                text.append(")\" value is larger than Chunks sent (");
                let second = number_to_string(*sent as u64);
                text.append(second.as_str());
                text.append(")");
                text
            },
            ProtocolError::ChunksReceivedNotIncremented => String::from_str(
                "\"Chunks received\" packet not incremented",
            ),
            ProtocolError::InvalidToolFlow => String::from_str("Invalid tool flow"),
            ProtocolError::InvalidToolType => String::from_str("Invalid tool type"),
        }
    }

    /// The misuse as an error of the user.
    pub fn to_user_error(&self) -> (error: UserError)
        ensures
            error.message@ == self.message_text(),
    {
        UserError { message: self.message() }
    }
}

impl Cursor {
    /// A cursor at the origin that was never pressed.
    pub fn new() -> (cursor: Self)
        ensures
            cursor.pos == (PacketCursorPos { x: 0, y: 0 }),
            cursor.pos_prev == (PacketCursorPos { x: 0, y: 0 }),
            cursor.pos_sent is None,
            !cursor.down,
            !cursor.just_clicked,
    {
        Cursor {
            pos: PacketCursorPos { x: 0, y: 0 },
            pos_prev: PacketCursorPos { x: 0, y: 0 },
            pos_sent: None,
            down: false,
            just_clicked: false,
        }
    }
}

impl ToolData {
    /// The tool of a session that has chosen none: size 1, flow one half,
    /// black.
    pub fn new() -> (tool: Self)
        ensures
            tool == (ToolData {
                size: 1,
                flow_bits: 0x3F00_0000,
                color: ColorRGB { r: 0, g: 0, b: 0 },
                tool_type: None,
            }),
    {
        ToolData {
            size: 1,
            flow_bits: FLOW_HALF_BITS,
            color: ColorRGB { r: 0, g: 0, b: 0 },
            tool_type: None,
        }
    }
}

impl SessionInstance {
    /// The session is consistent: no more chunks are confirmed than were
    /// sent, at most 20 are on their way, no chunk is watched twice, and no
    /// watched chunk has lain outside the boundary for five checks.
    pub open spec fn wf(&self) -> bool {
        &&& self.chunks_received <= self.chunks_sent
        &&& self.in_flight() <= 20
        &&& self.history.wf()
        &&& 0 <= self.boundary.end_x - self.boundary.start_x <= 20
        &&& 0 <= self.boundary.end_y - self.boundary.start_y <= 20
        &&& linked_positions(self.linked_chunks@).no_duplicates()
        &&& forall|i: int|
            0 <= i < self.linked_chunks@.len() ==> (#[trigger] self.linked_chunks@[i]).outside_boundary_duration
                < 5
        &&& self.tool_state matches ToolState::Line(line) ==> line.wf()
    }

    /// How many chunk images are on their way to the client.
    pub open spec fn in_flight(&self) -> int {
        self.chunks_sent - self.chunks_received
    }

    /// A session that has said nothing yet.
    pub fn new() -> (session: Self)
        ensures
            session.wf(),
            !session.kicked,
            !session.announced,
            !session.joined,
            !session.cleaned_up,
            !session.admin_mode,
            !session.needs_boundary_test,
            session.chunks_sent == 0,
            session.chunks_received == 0,
            session.linked_chunks@.len() == 0,
            session.history.cells@.len() == 0,
            session.tool == (ToolData {
                size: 1,
                flow_bits: 0x3F00_0000,
                color: ColorRGB { r: 0, g: 0, b: 0 },
                tool_type: None,
            }),
            session.tool_state is Idle,
            session.state.nick_name@.len() == 0,
            !session.state.cursor.down,
            session.boundary == (Boundary { start_x: 0, start_y: 0, end_x: 0, end_y: 0, zoom_bits: 0 }),
    {
        let session = SessionInstance {
            state: SessionState { nick_name: String::new(), cursor: Cursor::new() },
            admin_mode: false,
            needs_boundary_test: false,
            boundary: Boundary { start_x: 0, start_y: 0, end_x: 0, end_y: 0, zoom_bits: 0 },
            linked_chunks: Vec::new(),
            chunks_sent: 0,
            chunks_received: 0,
            history: History::new(),
            tool: ToolData::new(),
            kicked: false,
            announced: false,
            joined: false,
            cleaned_up: false,
            tool_state: ToolState::Idle,
            serial_generator: SerialGenerator::new(),
        };
        assert(linked_positions(session.linked_chunks@) =~= Seq::<IVec2>::empty());
        session
    }

    /// Tells the client why it is disconnected, once: a session that was
    /// told already is told nothing more.
    pub fn kick(&mut self, session_handle: &SessionHandle, cause: &str, outbox: &mut Vec<Delivery>)
        ensures
            final(self).kicked,
            old(self).kicked ==> final(outbox)@ == old(outbox)@,
            !old(self).kicked ==> delivered(final(outbox)@) == delivered(old(outbox)@).push(
                (*session_handle, kick_frame(cause.spec_bytes())),
            ),
            final(self).state == old(self).state,
            final(self).admin_mode == old(self).admin_mode,
            final(self).needs_boundary_test == old(self).needs_boundary_test,
            final(self).boundary == old(self).boundary,
            final(self).linked_chunks == old(self).linked_chunks,
            final(self).chunks_sent == old(self).chunks_sent,
            final(self).chunks_received == old(self).chunks_received,
            final(self).history == old(self).history,
            final(self).tool == old(self).tool,
            final(self).announced == old(self).announced,
            final(self).joined == old(self).joined,
            final(self).cleaned_up == old(self).cleaned_up,
            final(self).tool_state == old(self).tool_state,
            final(self).serial_generator == old(self).serial_generator,
    {
        if self.kicked {
            return ;
        }
        let packet = prepare_packet_kick(cause);
        let ghost frame = packet@;
        let ghost had = delivered(outbox@);
        outbox.push(Delivery { to: *session_handle, packet });
        assert(delivered(outbox@) =~= had.push((*session_handle, frame)));
        self.kicked = true;
    }

    /// Disconnects the client for a misuse of the protocol: it is told
    /// `User error: ` and the misuse in words.
    pub fn handle_error(&mut self, error: &ProtocolError, session_handle: &SessionHandle, outbox: &mut Vec<Delivery>)
        ensures
            kicked_for(
                *old(self),
                *final(self),
                delivered(old(outbox)@),
                delivered(final(outbox)@),
                *session_handle,
                *error,
            ),
    {
        let mut cause = String::from_str("User error: ");
        let words = error.message();
        cause.append(words.as_str());
        self.kick(session_handle, cause.as_str(), outbox);
    }

    /// Takes the size that the client asks for.
    pub fn process_command_tool_size(&mut self, size: u8)
        ensures
            final(self).tool == (ToolData { size, ..old(self).tool }),
            final(self).same_but_tool(*old(self)),
    {
        self.tool.size = size;
    }

    /// Everything but the tool is as in `other`.
    pub open spec fn same_but_tool(&self, other: SessionInstance) -> bool {
        &&& self.state == other.state
        &&& self.admin_mode == other.admin_mode
        &&& self.needs_boundary_test == other.needs_boundary_test
        &&& self.boundary == other.boundary
        &&& self.linked_chunks == other.linked_chunks
        &&& self.chunks_sent == other.chunks_sent
        &&& self.chunks_received == other.chunks_received
        &&& self.history == other.history
        &&& self.kicked == other.kicked
        &&& self.announced == other.announced
        &&& self.joined == other.joined
        &&& self.cleaned_up == other.cleaned_up
        &&& self.tool_state == other.tool_state
        &&& self.serial_generator == other.serial_generator
    }

    /// The size that the tool works with: no more than its kind allows.
    pub fn get_tool_size(&self) -> (size: u8)
        ensures
            size == effective_tool_size(self.tool.tool_type, self.tool.size),
    {
        let tool_type = match self.tool.tool_type {
            Some(t) => t,
            None => {
                return 0;
            },
        };
        match tool_type {
            ToolType::Fill => 0,
            ToolType::Line => Self::at_most(self.tool.size, TOOL_SIZE_LINE_MAX),
            ToolType::Brush => Self::at_most(self.tool.size, TOOL_SIZE_BRUSH_MAX),
            ToolType::SmoothBrush => Self::at_most(self.tool.size, TOOL_SIZE_SMOOTH_BRUSH_MAX),
            ToolType::SquareBrush => Self::at_most(self.tool.size, TOOL_SIZE_SQUARE_BRUSH_MAX),
            ToolType::Spray => Self::at_most(self.tool.size, TOOL_SIZE_SPRAY_MAX),
            ToolType::Blur => Self::at_most(self.tool.size, TOOL_SIZE_BLUR_MAX),
            ToolType::Smudge => Self::at_most(self.tool.size, TOOL_SIZE_SMUDGE_MAX),
        }
    }

    fn at_most(size: u8, most: u8) -> (out: u8)
        ensures
            out == if size > most {
                most
            } else {
                size
            },
    {
        if size > most {
            most
        } else {
            size
        }
    }

    /// Takes the flow that the client asks for, kept between 0 and 1. A
    /// flow that is no finite number is a misuse.
    pub fn process_command_tool_flow(&mut self, flow_bits: u32) -> (done: Result<(), ProtocolError>)
        ensures
            done is Ok <==> is_finite_bits(flow_bits),
            done matches Err(e) ==> e == ProtocolError::InvalidToolFlow && *final(self) == *old(self),
            done is Ok ==> final(self).tool == (ToolData {
                flow_bits: clamped_flow(flow_bits),
                ..old(self).tool
            }) && final(self).same_but_tool(*old(self)),
    {
        if (flow_bits / 0x80_0000) % 256 == 255 {
            return Err(ProtocolError::InvalidToolFlow);
        }
        self.tool.flow_bits = if flow_bits > 0x8000_0000 {
            0
        } else if flow_bits == 0x8000_0000 {
            flow_bits
        } else if flow_bits > FLOW_ONE_BITS {
            FLOW_ONE_BITS
        } else {
            flow_bits
        };
        Ok(())
    }

    /// Takes the colour that the client asks for.
    pub fn process_command_tool_color(&mut self, red: u8, green: u8, blue: u8)
        ensures
            final(self).tool == (ToolData {
                color: ColorRGB { r: red, g: green, b: blue },
                ..old(self).tool
            }),
            final(self).same_but_tool(*old(self)),
    {
        self.tool.color = ColorRGB { r: red, g: green, b: blue };
    }

    /// Takes the kind of tool that the client asks for. A number that
    /// stands for no tool is a misuse.
    pub fn process_command_tool_type(&mut self, tool_type_num: u8) -> (done: Result<(), ProtocolError>)
        ensures
            done is Ok <==> ToolType::from_code(tool_type_num) is Some,
            done matches Err(e) ==> e == ProtocolError::InvalidToolType && *final(self) == *old(self),
            done is Ok ==> final(self).tool == (ToolData {
                tool_type: ToolType::from_code(tool_type_num),
                ..old(self).tool
            }) && final(self).same_but_tool(*old(self)),
    {
        match ToolType::try_from(tool_type_num) {
            Some(tool_type) => {
                self.tool.tool_type = Some(tool_type);
                Ok(())
            },
            None => Err(ProtocolError::InvalidToolType),
        }
    }

    /// Takes the rectangle of chunks that the client looks at, capped: its
    /// end lies no more than 20 chunks behind its start along either axis,
    /// and never before it.
    pub fn process_command_boundary(&mut self, start_x: i32, start_y: i32, end_x: i32, end_y: i32, zoom_bits: u32)
        ensures
            final(self).boundary == capped_boundary(start_x, start_y, end_x, end_y, zoom_bits),
            final(self).needs_boundary_test,
            0 <= final(self).boundary.end_x - final(self).boundary.start_x <= 20,
            0 <= final(self).boundary.end_y - final(self).boundary.start_y <= 20,
            final(self).state == old(self).state,
            final(self).admin_mode == old(self).admin_mode,
            final(self).linked_chunks == old(self).linked_chunks,
            final(self).chunks_sent == old(self).chunks_sent,
            final(self).chunks_received == old(self).chunks_received,
            final(self).history == old(self).history,
            final(self).tool == old(self).tool,
            final(self).kicked == old(self).kicked,
            final(self).announced == old(self).announced,
            final(self).joined == old(self).joined,
            final(self).cleaned_up == old(self).cleaned_up,
            final(self).tool_state == old(self).tool_state,
            final(self).serial_generator == old(self).serial_generator,
    {
        self.boundary.start_x = start_x;
        self.boundary.start_y = start_y;
        self.boundary.end_x = Self::cap_end(start_x, end_x);
        self.boundary.end_y = Self::cap_end(start_y, end_y);
        self.boundary.zoom_bits = zoom_bits;
        self.needs_boundary_test = true;
    }

    fn cap_end(start: i32, end: i32) -> (capped: i32)
        ensures
            capped == capped_end(start, end),
            0 <= capped - start <= 20,
    {
        let limit: i32 = if start > 0x7FFF_FFFF - 20 {
            0x7FFF_FFFF
        } else {
            start + 20
        };
        if end < start {
            start
        } else if end > limit {
            limit
        } else {
            end
        }
    }

    /// Takes note of how many chunk images the client has received in all.
    /// A count above what was sent, or no higher than the last one, is a
    /// misuse.
    pub fn process_command_chunks_received(&mut self, chunks_received: u32) -> (done: Result<
        (),
        ProtocolError,
    >)
        requires
            old(self).wf(),
        ensures
            final(self).wf(),
            done is Ok <==> old(self).chunks_received < chunks_received <= old(self).chunks_sent,
            done matches Err(e) ==> *final(self) == *old(self) && e == if chunks_received > old(self).chunks_sent {
                ProtocolError::ChunksReceivedTooLarge {
                    received: chunks_received,
                    sent: old(self).chunks_sent,
                }
            } else {
                ProtocolError::ChunksReceivedNotIncremented
            },
            done is Ok ==> *final(self) == (SessionInstance { chunks_received, ..*old(self) }),
    {
        if chunks_received > self.chunks_sent {
            return Err(
                ProtocolError::ChunksReceivedTooLarge {
                    received: chunks_received,
                    sent: self.chunks_sent,
                },
            );
        }
        if chunks_received <= self.chunks_received {
            return Err(ProtocolError::ChunksReceivedNotIncremented);
        }
        self.chunks_received = chunks_received;
        Ok(())
    }

    /// Whether the session watches the chunk at `chunk_pos`.
    pub fn is_chunk_linked(&self, chunk_pos: IVec2) -> (linked: bool)
        ensures
            linked == linked_positions(self.linked_chunks@).contains(chunk_pos),
    {
        let mut i: usize = 0;
        while i < self.linked_chunks.len()
            invariant
                i <= self.linked_chunks@.len(),
                forall|j: int| 0 <= j < i ==> (#[trigger] self.linked_chunks@[j]).pos != chunk_pos,
            decreases self.linked_chunks@.len() - i,
        {
            if self.linked_chunks[i].pos == chunk_pos {
                assert(linked_positions(self.linked_chunks@)[i as int] == chunk_pos);
                return true;
            }
            i += 1;
        }
        assert forall|j: int| 0 <= j < linked_positions(self.linked_chunks@).len() implies linked_positions(
            self.linked_chunks@,
        )[j] != chunk_pos by {
            assert(linked_positions(self.linked_chunks@)[j] == self.linked_chunks@[j].pos);
        }
        false
    }
}

} // verus!

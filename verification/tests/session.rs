use canvas_engine::chunk::chunk::Delivery;
use canvas_engine::compression::compress_lz4;
use canvas_engine::id::SessionHandle;
use canvas_engine::packet_client::{ClientPacket, FrameError, ToolType};
use canvas_engine::pixel::{ColorRGB, ColorRGBA};
use canvas_engine::room::RoomInstance;
use canvas_engine::session::chat::{parse_chat_command, ChatCommand};
use canvas_engine::session::dispatch::CommandOutcome;
use canvas_engine::session::{ProtocolError, SessionInstance, ToolParams, UserError};
use canvas_engine::session::announce::validate_announce;
use canvas_engine::tool::state::ToolState;
use canvas_engine::vector::IVec2;

const RED: ColorRGBA = ColorRGBA { r: 255, g: 0, b: 0, a: 255 };
const WHITE: ColorRGBA = ColorRGBA { r: 255, g: 255, b: 255, a: 255 };
const BLACK: ColorRGBA = ColorRGBA { r: 0, g: 0, b: 0, a: 255 };

fn params() -> ToolParams {
    ToolParams {
        blend_intensity: 127,
        smooth_kernel: vec![255u8; 16],
        spray_threshold: 8388607,
        line_side_step: IVec2::new(0, 0),
    }
}

/// Hands a frame to the session, loading chunks as they are asked for.
fn drive(
    session: &mut SessionInstance,
    room: &mut RoomInstance,
    handle: &SessionHandle,
    packet: ClientPacket,
    outbox: &mut Vec<Delivery>,
) -> CommandOutcome {
    let frame = packet.encode();
    loop {
        match session.process_payload(handle, &frame, room, Some("secret"), &params(), outbox) {
            CommandOutcome::NeedChunk(pos) => {
                room.chunk_system.load_chunk(pos, None);
            },
            other => return other,
        }
    }
}

fn frames_to(outbox: &[Delivery], to: SessionHandle) -> Vec<Vec<u8>> {
    outbox.iter().filter(|d| d.to == to).map(|d| d.packet.to_vec()).collect()
}

fn frames_of_kind(outbox: &[Delivery], to: SessionHandle, kind: u16) -> Vec<Vec<u8>> {
    frames_to(outbox, to)
        .into_iter()
        .filter(|f| f.len() >= 2 && u16::from_be_bytes([f[0], f[1]]) == kind)
        .collect()
}

fn kick_frame(text: &str) -> Vec<u8> {
    let mut frame = vec![0u8, 3];
    frame.extend((text.len() as u16).to_be_bytes());
    frame.extend(text.as_bytes());
    frame
}

fn message_frame(kind: u8, text: &str) -> Vec<u8> {
    let mut frame = vec![0u8, 1, kind];
    frame.extend((text.len() as u16).to_be_bytes());
    frame.extend(text.as_bytes());
    frame
}

fn joined(room: &mut RoomInstance, handle: &SessionHandle, nick: &str) -> SessionInstance {
    let mut session = SessionInstance::new();
    let mut outbox: Vec<Delivery> = Vec::new();
    session.join_room(handle, room, nick, &mut outbox);
    session
}

fn watch(session: &mut SessionInstance, room: &mut RoomInstance, handle: &SessionHandle, pos: IVec2) {
    let index = room.chunk_system.load_chunk(pos, None);
    let mut outbox: Vec<Delivery> = Vec::new();
    session.stream_chunk(handle, &mut room.chunk_system, index, &mut outbox);
}

fn set_tool(
    session: &mut SessionInstance,
    room: &mut RoomInstance,
    handle: &SessionHandle,
    tool: ToolType,
    size: u8,
    color: ColorRGB,
) {
    let mut outbox: Vec<Delivery> = Vec::new();
    drive(session, room, handle, ClientPacket::ToolType { tool_type: tool.code() }, &mut outbox);
    drive(session, room, handle, ClientPacket::ToolSize { size }, &mut outbox);
    drive(
        session,
        room,
        handle,
        ClientPacket::ToolColor { r: color.r, g: color.g, b: color.b },
        &mut outbox,
    );
    assert!(outbox.is_empty());
}

fn pixel_pack(chunk_x: i32, chunk_y: i32, pixels: &[[u8; 5]]) -> Vec<u8> {
    let mut raw = Vec::new();
    for p in pixels {
        raw.extend(p);
    }
    let mut frame = vec![0u8, 101];
    frame.extend(chunk_x.to_be_bytes());
    frame.extend(chunk_y.to_be_bytes());
    frame.extend((pixels.len() as u32).to_be_bytes());
    frame.extend((raw.len() as u32).to_be_bytes());
    frame.extend(compress_lz4(&raw));
    frame
}

#[test]
fn a_single_pixel_brush_paints_one_pixel() {
    let a = SessionHandle::new(0, 0);
    let b = SessionHandle::new(1, 0);
    let mut room = RoomInstance::new(1000);
    let mut painter = joined(&mut room, &a, "ann");
    let mut watcher = joined(&mut room, &b, "bob");
    watch(&mut watcher, &mut room, &b, IVec2::new(0, 0));
    set_tool(&mut painter, &mut room, &a, ToolType::Brush, 1, ColorRGB { r: 255, g: 0, b: 0 });

    let mut outbox: Vec<Delivery> = Vec::new();
    drive(&mut painter, &mut room, &a, ClientPacket::CursorDown, &mut outbox);
    drive(&mut painter, &mut room, &a, ClientPacket::CursorUp, &mut outbox);

    assert_eq!(painter.get_pixel_main(&room.chunk_system, IVec2::new(0, 0)), Some(RED));
    assert_eq!(painter.get_pixel_main(&room.chunk_system, IVec2::new(1, 0)), Some(WHITE));
    assert_eq!(frames_to(&outbox, b), vec![pixel_pack(0, 0, &[[0, 0, 255, 0, 0]])]);
    assert!(frames_to(&outbox, a).is_empty());
    assert_eq!(painter.history.cells.len(), 1);
    assert_eq!(painter.history.cells[0].pixels.len(), 1);
    assert_eq!(painter.history.cells[0].pixels[0].pos, IVec2::new(0, 0));
    assert_eq!(painter.history.cells[0].pixels[0].color, WHITE);
    assert!(!painter.state.cursor.down);
}

#[test]
fn a_brush_line_across_two_chunks_tells_both() {
    let a = SessionHandle::new(0, 0);
    let b = SessionHandle::new(1, 0);
    let mut room = RoomInstance::new(1000);
    let mut painter = joined(&mut room, &a, "ann");
    let mut watcher = joined(&mut room, &b, "bob");
    watch(&mut watcher, &mut room, &b, IVec2::new(0, 0));
    watch(&mut watcher, &mut room, &b, IVec2::new(1, 0));
    set_tool(&mut painter, &mut room, &a, ToolType::Brush, 1, ColorRGB { r: 0, g: 0, b: 0 });

    let mut outbox: Vec<Delivery> = Vec::new();
    drive(&mut painter, &mut room, &a, ClientPacket::CursorPos { x: 255, y: 0 }, &mut outbox);
    drive(&mut painter, &mut room, &a, ClientPacket::CursorDown, &mut outbox);
    drive(&mut painter, &mut room, &a, ClientPacket::CursorPos { x: 256, y: 0 }, &mut outbox);

    assert_eq!(painter.get_pixel_main(&room.chunk_system, IVec2::new(255, 0)), Some(BLACK));
    assert_eq!(painter.get_pixel_main(&room.chunk_system, IVec2::new(256, 0)), Some(BLACK));
    let packs = frames_of_kind(&outbox, b, 101);
    assert_eq!(
        packs,
        vec![pixel_pack(0, 0, &[[255, 0, 0, 0, 0]]), pixel_pack(1, 0, &[[0, 0, 0, 0, 0]])]
    );
}

#[test]
fn the_cursor_is_shown_to_the_others() {
    let a = SessionHandle::new(0, 0);
    let b = SessionHandle::new(1, 0);
    let mut room = RoomInstance::new(1000);
    let mut mover = joined(&mut room, &a, "ann");
    let _other = joined(&mut room, &b, "bob");
    let mut outbox: Vec<Delivery> = Vec::new();
    drive(&mut mover, &mut room, &a, ClientPacket::CursorPos { x: 5, y: -6 }, &mut outbox);
    assert_eq!(
        frames_to(&outbox, b),
        vec![vec![0x03, 0xEA, 0, 0, 0, 0, 0, 5, 0xFF, 0xFF, 0xFF, 0xFA]]
    );
    assert!(frames_to(&outbox, a).is_empty());
    assert_eq!(room.sessions[0].cursor_x, 5);
    assert_eq!(room.sessions[0].cursor_y, -6);
    outbox.clear();
    drive(&mut mover, &mut room, &a, ClientPacket::CursorPos { x: 5, y: -6 }, &mut outbox);
    assert!(outbox.is_empty());
}

#[test]
fn a_stroke_is_not_followed_over_more_than_250_pixels() {
    let a = SessionHandle::new(0, 0);
    let mut room = RoomInstance::new(1000);
    let mut painter = joined(&mut room, &a, "ann");
    set_tool(&mut painter, &mut room, &a, ToolType::Brush, 1, ColorRGB { r: 255, g: 0, b: 0 });
    let mut outbox: Vec<Delivery> = Vec::new();
    drive(&mut painter, &mut room, &a, ClientPacket::CursorDown, &mut outbox);
    drive(&mut painter, &mut room, &a, ClientPacket::CursorPos { x: 200, y: 51 }, &mut outbox);
    assert!(!painter.state.cursor.down);
    assert_eq!(painter.get_pixel_main(&room.chunk_system, IVec2::new(200, 51)), Some(WHITE));
    assert_eq!(painter.get_pixel_main(&room.chunk_system, IVec2::new(0, 0)), Some(RED));
    assert_eq!(painter.history.cells[0].pixels.len(), 1);
}

#[test]
fn a_stroke_is_followed_over_250_pixels() {
    let a = SessionHandle::new(0, 0);
    let mut room = RoomInstance::new(1000);
    let mut painter = joined(&mut room, &a, "ann");
    set_tool(&mut painter, &mut room, &a, ToolType::Brush, 1, ColorRGB { r: 255, g: 0, b: 0 });
    let mut outbox: Vec<Delivery> = Vec::new();
    drive(&mut painter, &mut room, &a, ClientPacket::CursorDown, &mut outbox);
    drive(&mut painter, &mut room, &a, ClientPacket::CursorPos { x: 200, y: 50 }, &mut outbox);
    assert!(painter.state.cursor.down);
    assert_eq!(painter.get_pixel_main(&room.chunk_system, IVec2::new(200, 50)), Some(RED));
    assert_eq!(painter.get_pixel_main(&room.chunk_system, IVec2::new(100, 25)), Some(RED));
    assert_eq!(painter.history.cells[0].pixels.len(), 201);
}

#[test]
fn undo_takes_a_stroke_back_after_the_tool_has_changed() {
    let a = SessionHandle::new(0, 0);
    let mut room = RoomInstance::new(1000);
    let mut painter = joined(&mut room, &a, "ann");
    set_tool(&mut painter, &mut room, &a, ToolType::Brush, 1, ColorRGB { r: 0, g: 0, b: 255 });
    let mut outbox: Vec<Delivery> = Vec::new();
    drive(&mut painter, &mut room, &a, ClientPacket::CursorDown, &mut outbox);
    drive(&mut painter, &mut room, &a, ClientPacket::CursorPos { x: 9, y: 0 }, &mut outbox);
    drive(&mut painter, &mut room, &a, ClientPacket::CursorUp, &mut outbox);
    set_tool(&mut painter, &mut room, &a, ToolType::Brush, 1, ColorRGB { r: 255, g: 0, b: 0 });
    drive(&mut painter, &mut room, &a, ClientPacket::CursorPos { x: 0, y: 0 }, &mut outbox);
    drive(&mut painter, &mut room, &a, ClientPacket::CursorDown, &mut outbox);
    drive(&mut painter, &mut room, &a, ClientPacket::CursorPos { x: 19, y: 0 }, &mut outbox);
    drive(&mut painter, &mut room, &a, ClientPacket::CursorUp, &mut outbox);
    assert_eq!(painter.history.cells.len(), 2);
    assert_eq!(painter.history.cells[1].pixels.len(), 20);
    for x in 0..20 {
        assert_eq!(painter.get_pixel_main(&room.chunk_system, IVec2::new(x, 0)), Some(RED));
    }

    set_tool(&mut painter, &mut room, &a, ToolType::Spray, 7, ColorRGB { r: 1, g: 2, b: 3 });
    outbox.clear();
    drive(&mut painter, &mut room, &a, ClientPacket::Undo, &mut outbox);
    assert_eq!(painter.history.cells.len(), 1);
    let blue = ColorRGBA { r: 0, g: 0, b: 255, a: 255 };
    for x in 0..10 {
        assert_eq!(painter.get_pixel_main(&room.chunk_system, IVec2::new(x, 0)), Some(blue));
    }
    for x in 10..20 {
        assert_eq!(painter.get_pixel_main(&room.chunk_system, IVec2::new(x, 0)), Some(WHITE));
    }
    let mut first = vec![0x04u8, 0x4C];
    first.extend(20u16.to_be_bytes());
    first.extend(b"Undoing 20 pixels...");
    assert_eq!(frames_to(&outbox, a), vec![first, vec![0x04, 0x4C, 0, 0]]);

    drive(&mut painter, &mut room, &a, ClientPacket::Undo, &mut outbox);
    drive(&mut painter, &mut room, &a, ClientPacket::Undo, &mut outbox);
    assert_eq!(painter.history.cells.len(), 0);
    for x in 0..20 {
        assert_eq!(painter.get_pixel_main(&room.chunk_system, IVec2::new(x, 0)), Some(WHITE));
    }
}

#[test]
fn no_more_than_20_chunks_are_in_flight() {
    let a = SessionHandle::new(0, 0);
    let mut room = RoomInstance::new(1000);
    let mut session = joined(&mut room, &a, "ann");
    let mut outbox: Vec<Delivery> = Vec::new();
    drive(
        &mut session,
        &mut room,
        &a,
        ClientPacket::Boundary { start_x: 0, start_y: 0, end_x: 6, end_y: 5, zoom_bits: 0x3F80_0000 },
        &mut outbox,
    );
    let mut tick = |session: &mut SessionInstance, room: &mut RoomInstance, outbox: &mut Vec<Delivery>| {
        while let Some(pos) = session.tick_boundary_check(&a, &mut room.chunk_system, outbox) {
            room.chunk_system.load_chunk(pos, None);
        }
    };
    tick(&mut session, &mut room, &mut outbox);
    assert_eq!(frames_of_kind(&outbox, a, 100).len(), 20);
    assert_eq!(frames_of_kind(&outbox, a, 110).len(), 20);
    assert_eq!(session.chunks_sent, 20);
    assert_eq!(session.chunks_received, 0);
    outbox.clear();
    tick(&mut session, &mut room, &mut outbox);
    assert!(outbox.is_empty());

    drive(&mut session, &mut room, &a, ClientPacket::ChunksReceived { count: 5 }, &mut outbox);
    tick(&mut session, &mut room, &mut outbox);
    assert_eq!(frames_of_kind(&outbox, a, 100).len(), 5);
    assert_eq!(session.chunks_sent, 25);
    assert_eq!(session.chunks_received, 5);
    assert!(session.chunks_sent - session.chunks_received <= 20);
}

#[test]
fn the_closest_chunk_is_sent_first() {
    let a = SessionHandle::new(0, 0);
    let mut room = RoomInstance::new(1000);
    let mut session = joined(&mut room, &a, "ann");
    let mut outbox: Vec<Delivery> = Vec::new();
    drive(&mut session, &mut room, &a, ClientPacket::CursorPos { x: 700, y: 300 }, &mut outbox);
    drive(
        &mut session,
        &mut room,
        &a,
        ClientPacket::Boundary { start_x: 0, start_y: 0, end_x: 4, end_y: 4, zoom_bits: 0x3F80_0000 },
        &mut outbox,
    );
    outbox.clear();
    while let Some(pos) = session.tick_boundary_check(&a, &mut room.chunk_system, &mut outbox) {
        room.chunk_system.load_chunk(pos, None);
    }
    let created = frames_of_kind(&outbox, a, 110);
    assert_eq!(created[0], vec![0, 110, 0, 0, 0, 3, 0, 0, 0, 1]);
}

#[test]
fn no_chunks_are_sent_when_zoomed_far_out() {
    let a = SessionHandle::new(0, 0);
    let mut room = RoomInstance::new(1000);
    let mut session = joined(&mut room, &a, "ann");
    let mut outbox: Vec<Delivery> = Vec::new();
    drive(
        &mut session,
        &mut room,
        &a,
        ClientPacket::Boundary { start_x: 0, start_y: 0, end_x: 4, end_y: 4, zoom_bits: 0x3EE6_6666 },
        &mut outbox,
    );
    assert!(session.tick_boundary_check(&a, &mut room.chunk_system, &mut outbox).is_none());
    assert!(outbox.is_empty());
    assert!(session.linked_chunks.is_empty());
}

#[test]
fn the_boundary_is_capped_at_20_chunks() {
    let mut session = SessionInstance::new();
    session.process_command_boundary(-3, 7, 100, 2, 0x3F80_0000);
    assert_eq!(session.boundary.start_x, -3);
    assert_eq!(session.boundary.end_x, 17);
    assert_eq!(session.boundary.start_y, 7);
    assert_eq!(session.boundary.end_y, 7);
    assert!(session.needs_boundary_test);
    session.process_command_boundary(i32::MAX - 5, i32::MIN, i32::MAX, i32::MIN + 20, 0);
    assert_eq!(session.boundary.end_x, i32::MAX);
    assert_eq!(session.boundary.end_y, i32::MIN + 20);
}

#[test]
fn a_chunk_is_let_go_at_the_fifth_check_outside() {
    let a = SessionHandle::new(0, 0);
    let mut room = RoomInstance::new(1000);
    let mut session = joined(&mut room, &a, "ann");
    watch(&mut session, &mut room, &a, IVec2::new(50, 50));
    let mut outbox: Vec<Delivery> = Vec::new();
    drive(
        &mut session,
        &mut room,
        &a,
        ClientPacket::Boundary { start_x: 0, start_y: 0, end_x: 4, end_y: 4, zoom_bits: 0x3F80_0000 },
        &mut outbox,
    );
    for _ in 0..4 {
        session.tick_chunks_cleanup(&a, &mut room.chunk_system, &mut outbox);
        assert!(session.is_chunk_linked(IVec2::new(50, 50)));
        assert!(outbox.is_empty());
    }
    session.tick_chunks_cleanup(&a, &mut room.chunk_system, &mut outbox);
    assert!(!session.is_chunk_linked(IVec2::new(50, 50)));
    assert_eq!(frames_to(&outbox, a), vec![vec![0, 111, 0, 0, 0, 50, 0, 0, 0, 50]]);
    assert!(room.chunk_system.chunks[0].linked_sessions.is_empty());
    assert!(room.chunk_system.signal_garbage_collect.triggered);
    session.tick_chunks_cleanup(&a, &mut room.chunk_system, &mut outbox);
    assert_eq!(outbox.len(), 1);
}

#[test]
fn a_chunk_that_comes_back_inside_starts_anew() {
    let a = SessionHandle::new(0, 0);
    let mut room = RoomInstance::new(1000);
    let mut session = joined(&mut room, &a, "ann");
    watch(&mut session, &mut room, &a, IVec2::new(2, 2));
    let mut outbox: Vec<Delivery> = Vec::new();
    for _ in 0..4 {
        session.tick_chunks_cleanup(&a, &mut room.chunk_system, &mut outbox);
    }
    assert_eq!(session.linked_chunks[0].outside_boundary_duration, 4);
    session.process_command_boundary(0, 0, 4, 4, 0x3F80_0000);
    session.tick_chunks_cleanup(&a, &mut room.chunk_system, &mut outbox);
    assert_eq!(session.linked_chunks[0].outside_boundary_duration, 0);
    assert!(outbox.is_empty());
}

#[test]
fn acknowledgements_must_grow_and_stay_below_what_was_sent() {
    let mut session = SessionInstance::new();
    session.chunks_sent = 10;
    assert_eq!(
        session.process_command_chunks_received(11),
        Err(ProtocolError::ChunksReceivedTooLarge { received: 11, sent: 10 })
    );
    assert_eq!(session.process_command_chunks_received(4), Ok(()));
    assert_eq!(
        session.process_command_chunks_received(4),
        Err(ProtocolError::ChunksReceivedNotIncremented)
    );
    assert_eq!(
        session.process_command_chunks_received(0),
        Err(ProtocolError::ChunksReceivedNotIncremented)
    );
    assert_eq!(session.process_command_chunks_received(10), Ok(()));
    assert_eq!(session.chunks_received, 10);
}

#[test]
fn tool_settings_are_taken_and_checked() {
    let mut session = SessionInstance::new();
    assert_eq!(session.get_tool_size(), 0);
    assert_eq!(session.process_command_tool_type(8), Err(ProtocolError::InvalidToolType));
    assert_eq!(session.process_command_tool_type(0), Ok(()));
    session.process_command_tool_size(200);
    assert_eq!(session.get_tool_size(), 16);
    assert_eq!(session.process_command_tool_type(ToolType::Spray.code()), Ok(()));
    assert_eq!(session.get_tool_size(), 32);
    assert_eq!(session.process_command_tool_type(ToolType::SmoothBrush.code()), Ok(()));
    assert_eq!(session.get_tool_size(), 24);
    assert_eq!(session.process_command_tool_type(ToolType::Fill.code()), Ok(()));
    assert_eq!(session.get_tool_size(), 0);
    session.process_command_tool_color(1, 2, 3);
    assert_eq!(session.tool.color, ColorRGB { r: 1, g: 2, b: 3 });

    assert_eq!(session.process_command_tool_flow(0x3F00_0000), Ok(()));
    assert_eq!(session.tool.flow_bits, 0x3F00_0000);
    assert_eq!(session.process_command_tool_flow(0x4000_0000), Ok(()));
    assert_eq!(session.tool.flow_bits, 0x3F80_0000);
    assert_eq!(session.process_command_tool_flow(0xBF80_0000), Ok(()));
    assert_eq!(session.tool.flow_bits, 0);
    assert_eq!(session.process_command_tool_flow(0x7F80_0000), Err(ProtocolError::InvalidToolFlow));
    assert_eq!(session.process_command_tool_flow(0x7FC0_0000), Err(ProtocolError::InvalidToolFlow));
    assert_eq!(session.process_command_tool_flow(0xFF80_0000), Err(ProtocolError::InvalidToolFlow));
    assert_eq!(session.tool.flow_bits, 0);
}

#[test]
fn a_misuse_disconnects_with_its_words() {
    let a = SessionHandle::new(0, 0);
    let mut room = RoomInstance::new(1000);
    let mut session = joined(&mut room, &a, "ann");
    let mut outbox: Vec<Delivery> = Vec::new();
    let outcome = drive(&mut session, &mut room, &a, ClientPacket::ToolType { tool_type: 99 }, &mut outbox);
    assert!(matches!(outcome, CommandOutcome::Done));
    assert!(session.kicked);
    assert_eq!(frames_to(&outbox, a), vec![kick_frame("User error: Invalid tool type")]);
    outbox.clear();
    drive(&mut session, &mut room, &a, ClientPacket::ToolType { tool_type: 99 }, &mut outbox);
    assert!(outbox.is_empty());
}

#[test]
fn frames_that_cannot_be_read_disconnect() {
    let a = SessionHandle::new(0, 0);
    let mut room = RoomInstance::new(1000);
    let cases: Vec<(Vec<u8>, &str)> = vec![
        (vec![0], "User error: Frame is too short"),
        (vec![0x01, 0x2D], "User error: Unknown command 301"),
        (vec![0, 1, 0, 2, 0xC3, 0x28], "User error: Text is not UTF-8"),
    ];
    for (frame, words) in cases {
        let mut session = joined(&mut room, &a, "ann");
        let mut outbox: Vec<Delivery> = Vec::new();
        session.process_payload(&a, &frame, &mut room, None, &params(), &mut outbox);
        assert!(session.kicked);
        assert_eq!(frames_to(&outbox, a), vec![kick_frame(words)]);
        session.leave_room(&a, &mut room, &mut outbox);
    }
    let mut session = joined(&mut room, &a, "ann");
    let mut outbox: Vec<Delivery> = Vec::new();
    let result = session.process_payload_wrap(&a, &[0, 2, 0], &mut room, None, &params(), &mut outbox);
    assert!(matches!(result, Err(ProtocolError::Frame(FrameError::Truncated))));
    assert!(!session.kicked);
}

#[test]
fn every_misuse_has_its_words() {
    let cases = vec![
        (ProtocolError::AnnouncedTwice, "Announced more than once"),
        (ProtocolError::RoomNameLength, "Invalid room name length (min 3, max 24)"),
        (
            ProtocolError::RoomNameChar('!'),
            "Room name contains invalid character: \"!\". Only alphanumeric characters are allowed.",
        ),
        (ProtocolError::NickNameLength, "Invalid nick name length (min 3, max 24)"),
        (
            ProtocolError::NickNameChar(' '),
            "Nick name contains invalid character: \" \". Only alphanumeric characters are allowed.",
        ),
        (ProtocolError::MessageTooLong(1001), "Too long message, got 1001, max allowed is 1000"),
        (
            ProtocolError::ChunksReceivedTooLarge { received: 7, sent: 5 },
            "\"Chunks received (7)\" value is larger than Chunks sent (5)",
        ),
        (
            ProtocolError::ChunksReceivedNotIncremented,
            "\"Chunks received\" packet not incremented",
        ),
        (ProtocolError::InvalidToolFlow, "Invalid tool flow"),
        (ProtocolError::InvalidToolType, "Invalid tool type"),
    ];
    for (error, words) in cases {
        assert_eq!(error.message(), words);
        assert_eq!(error.to_user_error().message, words);
    }
    assert_eq!(UserError::new("x").message, "x");
}

#[test]
fn names_are_checked_at_the_announcement() {
    assert_eq!(validate_announce("alpha1", "bob"), Ok(()));
    assert_eq!(validate_announce("ab", "bob"), Err(ProtocolError::RoomNameLength));
    assert_eq!(
        validate_announce("abcdefghijklmnopqrstuvwxy", "bob"),
        Err(ProtocolError::RoomNameLength)
    );
    assert_eq!(validate_announce("abcdefghijklmnopqrstuvwx", "bob"), Ok(()));
    assert_eq!(validate_announce("al_pha", "bob"), Err(ProtocolError::RoomNameChar('_')));
    assert_eq!(validate_announce("alphß", "bob"), Err(ProtocolError::RoomNameChar('ß')));
    assert_eq!(validate_announce("alpha1", "bo"), Err(ProtocolError::NickNameLength));
    assert_eq!(validate_announce("alpha1", "b b"), Err(ProtocolError::NickNameChar(' ')));
    assert_eq!(validate_announce("alpha1", "žluť_a-1"), Ok(()));
    assert_eq!(validate_announce("a!", "b"), Err(ProtocolError::RoomNameLength));
}

#[test]
fn chat_is_shown_to_the_room() {
    let a = SessionHandle::new(0, 0);
    let b = SessionHandle::new(1, 0);
    let mut room = RoomInstance::new(1000);
    let mut speaker = joined(&mut room, &a, "ann");
    let _listener = joined(&mut room, &b, "bob");
    let mut outbox: Vec<Delivery> = Vec::new();
    drive(&mut speaker, &mut room, &a, ClientPacket::Message { text: b"  hello  ".to_vec() }, &mut outbox);
    let line = message_frame(0, "ann: hello");
    assert_eq!(frames_to(&outbox, a), vec![line.clone()]);
    assert_eq!(frames_to(&outbox, b), vec![line]);
    outbox.clear();
    drive(&mut speaker, &mut room, &a, ClientPacket::Message { text: Vec::new() }, &mut outbox);
    assert!(outbox.is_empty());
}

#[test]
fn a_long_message_is_a_misuse() {
    let a = SessionHandle::new(0, 0);
    let mut room = RoomInstance::new(1000);
    let mut speaker = joined(&mut room, &a, "ann");
    let mut outbox: Vec<Delivery> = Vec::new();
    drive(&mut speaker, &mut room, &a, ClientPacket::Message { text: vec![b'a'; 1000] }, &mut outbox);
    assert!(!speaker.kicked);
    outbox.clear();
    drive(&mut speaker, &mut room, &a, ClientPacket::Message { text: vec![b'a'; 1001] }, &mut outbox);
    assert!(speaker.kicked);
    assert_eq!(
        frames_to(&outbox, a),
        vec![kick_frame("User error: Too long message, got 1001, max allowed is 1000")]
    );
}

#[test]
fn chat_commands_are_obeyed() {
    let a = SessionHandle::new(0, 0);
    let mut room = RoomInstance::new(1000);
    let mut session = joined(&mut room, &a, "ann");
    let mut outbox: Vec<Delivery> = Vec::new();

    drive(&mut session, &mut room, &a, ClientPacket::Message { text: b"/nonsense".to_vec() }, &mut outbox);
    assert_eq!(
        frames_to(&outbox, a),
        vec![
            message_frame(1, "[color=green]/nonsense[/color]"),
            message_frame(1, "[color=red]Unknown command[/color]"),
        ]
    );
    outbox.clear();

    let outcome = drive(
        &mut session,
        &mut room,
        &a,
        ClientPacket::Message { text: b"/process_preview_system".to_vec() },
        &mut outbox,
    );
    assert!(matches!(outcome, CommandOutcome::Done));
    assert_eq!(frames_to(&outbox, a)[1], message_frame(1, "[error]Unauthenticated[/error]"));
    outbox.clear();

    drive(&mut session, &mut room, &a, ClientPacket::Message { text: b"/admin".to_vec() }, &mut outbox);
    assert_eq!(
        frames_to(&outbox, a),
        vec![
            message_frame(1, "[color=green]/&lt;redacted&gt;[/color]"),
            message_frame(0, "Usage: admin <password>"),
        ]
    );
    outbox.clear();

    drive(&mut session, &mut room, &a, ClientPacket::Message { text: b"/admin wrong".to_vec() }, &mut outbox);
    assert!(!session.admin_mode);
    assert_eq!(frames_to(&outbox, a)[1], message_frame(1, "[color=red]Invalid password[/color]"));
    outbox.clear();

    drive(&mut session, &mut room, &a, ClientPacket::Message { text: b"/admin secret".to_vec() }, &mut outbox);
    assert!(session.admin_mode);
    assert_eq!(
        frames_to(&outbox, a),
        vec![
            message_frame(1, "[color=green]/&lt;redacted&gt;[/color]"),
            message_frame(1, "[color=blue]Authenticated[/color]"),
        ]
    );
    outbox.clear();

    let outcome = drive(
        &mut session,
        &mut room,
        &a,
        ClientPacket::Message { text: b"/process_preview_system".to_vec() },
        &mut outbox,
    );
    assert!(matches!(outcome, CommandOutcome::RegeneratePreviews));
    assert_eq!(frames_to(&outbox, a)[1], message_frame(0, "Preview regeneration started"));
    outbox.clear();

    drive(&mut session, &mut room, &a, ClientPacket::Message { text: b"/help".to_vec() }, &mut outbox);
    let help = frames_to(&outbox, a);
    assert_eq!(help.len(), 2);
    assert!(String::from_utf8_lossy(&help[1]).contains("[color=blue]leave[/color]: [i]Kick yourself[/i]"));
    outbox.clear();

    drive(&mut session, &mut room, &a, ClientPacket::Message { text: b"/leave".to_vec() }, &mut outbox);
    assert!(session.kicked);
    assert_eq!(
        frames_to(&outbox, a),
        vec![message_frame(1, "[color=green]/leave[/color]"), kick_frame("Goodbye.")]
    );
}

#[test]
fn without_a_password_nobody_becomes_administrator() {
    let a = SessionHandle::new(0, 0);
    let mut room = RoomInstance::new(1000);
    let mut session = joined(&mut room, &a, "ann");
    let mut outbox: Vec<Delivery> = Vec::new();
    let frame = ClientPacket::Message { text: b"/admin secret".to_vec() }.encode();
    session.process_payload(&a, &frame, &mut room, None, &params(), &mut outbox);
    assert!(!session.admin_mode);
    assert_eq!(
        frames_to(&outbox, a)[1],
        message_frame(1, "[color=red]admin_password in settings.json is not set[/color]")
    );
}

#[test]
fn chat_commands_are_told_apart_by_their_first_word() {
    let chars = |s: &str| s.chars().collect::<Vec<char>>();
    assert!(matches!(parse_chat_command(&chars("help")), ChatCommand::Help));
    assert!(matches!(parse_chat_command(&chars("? me")), ChatCommand::Help));
    assert!(matches!(parse_chat_command(&chars("leave")), ChatCommand::Leave));
    assert!(matches!(parse_chat_command(&chars("admin")), ChatCommand::Admin(None)));
    match parse_chat_command(&chars("admin pw more")) {
        ChatCommand::Admin(Some(p)) => assert_eq!(p, "pw"),
        _ => panic!("not an admin command"),
    }
    assert!(matches!(
        parse_chat_command(&chars("process_preview_system")),
        ChatCommand::ProcessPreviewSystem
    ));
    assert!(matches!(parse_chat_command(&chars("Help")), ChatCommand::Unknown));
    assert!(matches!(parse_chat_command(&chars("")), ChatCommand::Unknown));
}

#[test]
fn a_preview_request_is_handed_on_and_answered() {
    let a = SessionHandle::new(0, 0);
    let mut room = RoomInstance::new(1000);
    let mut session = joined(&mut room, &a, "ann");
    let mut outbox: Vec<Delivery> = Vec::new();
    let outcome = drive(
        &mut session,
        &mut room,
        &a,
        ClientPacket::PreviewRequest { x: 3, y: -1, zoom: 2 },
        &mut outbox,
    );
    match outcome {
        CommandOutcome::PreviewWanted { pos, zoom } => {
            assert_eq!(pos, IVec2::new(3, -1));
            assert_eq!(zoom, 2);
        },
        _ => panic!("no preview asked for"),
    }
    assert!(outbox.is_empty());
    session.process_command_preview_request(&a, IVec2::new(3, -1), 2, None, &mut outbox);
    assert!(outbox.is_empty());
    session.process_command_preview_request(&a, IVec2::new(3, -1), 2, Some(&[9, 9]), &mut outbox);
    assert_eq!(
        frames_to(&outbox, a),
        vec![vec![0, 200, 0, 0, 0, 3, 0xFF, 0xFF, 0xFF, 0xFF, 2, 0, 0, 0, 2, 9, 9]]
    );
}

#[test]
fn every_twentieth_tick_checks_the_watched_chunks() {
    assert!(SessionInstance::tick_cleans_up(0));
    assert!(!SessionInstance::tick_cleans_up(1));
    assert!(!SessionInstance::tick_cleans_up(19));
    assert!(SessionInstance::tick_cleans_up(20));
    assert!(!SessionInstance::tick_cleans_up(u32::MAX));
}

#[test]
fn a_ping_changes_nothing() {
    let a = SessionHandle::new(0, 0);
    let mut room = RoomInstance::new(1000);
    let mut session = joined(&mut room, &a, "ann");
    let mut outbox: Vec<Delivery> = Vec::new();
    let outcome = drive(&mut session, &mut room, &a, ClientPacket::Ping, &mut outbox);
    assert!(matches!(outcome, CommandOutcome::Done));
    assert!(outbox.is_empty());
    assert!(!session.kicked);
}

#[test]
fn the_fill_repaints_on_a_click_in_a_watched_chunk() {
    let a = SessionHandle::new(0, 0);
    let mut room = RoomInstance::new(1000);
    let mut painter = joined(&mut room, &a, "ann");
    set_tool(&mut painter, &mut room, &a, ToolType::Brush, 1, ColorRGB { r: 0, g: 0, b: 0 });
    let mut outbox: Vec<Delivery> = Vec::new();
    // a box of 5 by 5 pixels, drawn with the brush
    let corners = [(10, 10), (14, 10), (14, 14), (10, 14), (10, 10)];
    drive(&mut painter, &mut room, &a, ClientPacket::CursorPos { x: 10, y: 10 }, &mut outbox);
    drive(&mut painter, &mut room, &a, ClientPacket::CursorDown, &mut outbox);
    for (x, y) in corners {
        drive(&mut painter, &mut room, &a, ClientPacket::CursorPos { x, y }, &mut outbox);
    }
    drive(&mut painter, &mut room, &a, ClientPacket::CursorUp, &mut outbox);

    set_tool(&mut painter, &mut room, &a, ToolType::Fill, 1, ColorRGB { r: 255, g: 0, b: 0 });
    drive(&mut painter, &mut room, &a, ClientPacket::CursorPos { x: 12, y: 12 }, &mut outbox);
    drive(&mut painter, &mut room, &a, ClientPacket::CursorDown, &mut outbox);
    drive(&mut painter, &mut room, &a, ClientPacket::CursorUp, &mut outbox);
    // the chunk is not watched: nothing is filled
    assert_eq!(painter.get_pixel_main(&room.chunk_system, IVec2::new(12, 12)), Some(WHITE));

    watch(&mut painter, &mut room, &a, IVec2::new(0, 0));
    drive(&mut painter, &mut room, &a, ClientPacket::CursorDown, &mut outbox);
    drive(&mut painter, &mut room, &a, ClientPacket::CursorUp, &mut outbox);
    for y in 11..14 {
        for x in 11..14 {
            assert_eq!(painter.get_pixel_main(&room.chunk_system, IVec2::new(x, y)), Some(RED));
        }
    }
    assert_eq!(painter.get_pixel_main(&room.chunk_system, IVec2::new(10, 12)), Some(BLACK));
    assert_eq!(painter.get_pixel_main(&room.chunk_system, IVec2::new(15, 12)), Some(WHITE));
    assert_eq!(painter.history.cells.last().unwrap().pixels.len(), 9);
}

#[test]
fn a_line_is_shown_on_an_overlay_and_painted_when_let_up() {
    let a = SessionHandle::new(0, 0);
    let b = SessionHandle::new(1, 0);
    let mut room = RoomInstance::new(1000);
    let mut painter = joined(&mut room, &a, "ann");
    let mut watcher = joined(&mut room, &b, "bob");
    watch(&mut painter, &mut room, &a, IVec2::new(0, 0));
    watch(&mut watcher, &mut room, &b, IVec2::new(0, 0));
    set_tool(&mut painter, &mut room, &a, ToolType::Line, 1, ColorRGB { r: 255, g: 0, b: 0 });
    let mut outbox: Vec<Delivery> = Vec::new();
    drive(&mut painter, &mut room, &a, ClientPacket::CursorPos { x: 1, y: 1 }, &mut outbox);
    drive(&mut painter, &mut room, &a, ClientPacket::CursorDown, &mut outbox);
    assert!(matches!(painter.tool_state, ToolState::Line(_)));
    drive(&mut painter, &mut room, &a, ClientPacket::CursorPos { x: 4, y: 1 }, &mut outbox);
    assert!(painter.tick_tool_state(&mut room, IVec2::new(0, 0), &mut outbox).is_none());
    // the line is on the overlay of the painter only
    assert_eq!(painter.get_pixel_main(&room.chunk_system, IVec2::new(2, 1)), Some(WHITE));
    assert!(room.chunk_system.chunks[0].compositor.has_session_composition(&a));
    assert!(!frames_of_kind(&outbox, a, 101).is_empty());

    drive(&mut painter, &mut room, &a, ClientPacket::CursorUp, &mut outbox);
    assert!(matches!(painter.tool_state, ToolState::Idle));
    assert!(!room.chunk_system.chunks[0].compositor.has_session_composition(&a));
    for x in 1..=4 {
        assert_eq!(painter.get_pixel_main(&room.chunk_system, IVec2::new(x, 1)), Some(RED));
    }
    assert_eq!(painter.get_pixel_main(&room.chunk_system, IVec2::new(5, 1)), Some(WHITE));
    assert_eq!(painter.history.cells.last().unwrap().pixels.len(), 4);
    assert!(!frames_of_kind(&outbox, b, 101).is_empty());
}

#[test]
fn the_other_tools_paint_around_the_cursor() {
    let a = SessionHandle::new(0, 0);
    let mut room = RoomInstance::new(1000);
    let mut painter = joined(&mut room, &a, "ann");
    let mut outbox: Vec<Delivery> = Vec::new();
    let red = ColorRGB { r: 255, g: 0, b: 0 };

    set_tool(&mut painter, &mut room, &a, ToolType::SquareBrush, 3, red);
    drive(&mut painter, &mut room, &a, ClientPacket::CursorPos { x: 20, y: 20 }, &mut outbox);
    drive(&mut painter, &mut room, &a, ClientPacket::CursorDown, &mut outbox);
    drive(&mut painter, &mut room, &a, ClientPacket::CursorUp, &mut outbox);
    assert_eq!(painter.history.cells.last().unwrap().pixels.len(), 9);
    assert_eq!(painter.get_pixel_main(&room.chunk_system, IVec2::new(19, 19)), Some(RED));

    set_tool(&mut painter, &mut room, &a, ToolType::Spray, 3, red);
    drive(&mut painter, &mut room, &a, ClientPacket::CursorPos { x: 40, y: 20 }, &mut outbox);
    drive(&mut painter, &mut room, &a, ClientPacket::CursorDown, &mut outbox);
    drive(&mut painter, &mut room, &a, ClientPacket::CursorUp, &mut outbox);
    assert_eq!(painter.history.cells.last().unwrap().pixels.len(), 9);

    set_tool(&mut painter, &mut room, &a, ToolType::SmoothBrush, 1, red);
    drive(&mut painter, &mut room, &a, ClientPacket::CursorPos { x: 60, y: 20 }, &mut outbox);
    drive(&mut painter, &mut room, &a, ClientPacket::CursorDown, &mut outbox);
    drive(&mut painter, &mut room, &a, ClientPacket::CursorUp, &mut outbox);
    assert_eq!(painter.history.cells.last().unwrap().pixels.len(), 16);
    assert_eq!(painter.get_pixel_main(&room.chunk_system, IVec2::new(58, 18)), Some(RED));

    set_tool(&mut painter, &mut room, &a, ToolType::Smudge, 1, red);
    drive(&mut painter, &mut room, &a, ClientPacket::CursorPos { x: 21, y: 19 }, &mut outbox);
    drive(&mut painter, &mut room, &a, ClientPacket::CursorDown, &mut outbox);
    drive(&mut painter, &mut room, &a, ClientPacket::CursorPos { x: 23, y: 19 }, &mut outbox);
    drive(&mut painter, &mut room, &a, ClientPacket::CursorUp, &mut outbox);
    assert_eq!(painter.history.cells.last().unwrap().pixels.len(), 2);
    let dragged = painter.get_pixel_main(&room.chunk_system, IVec2::new(22, 19)).unwrap();
    assert_eq!(dragged, ColorRGBA { r: 255, g: 180, b: 180, a: 255 });

    set_tool(&mut painter, &mut room, &a, ToolType::Blur, 3, red);
    drive(&mut painter, &mut room, &a, ClientPacket::CursorPos { x: 21, y: 21 }, &mut outbox);
    drive(&mut painter, &mut room, &a, ClientPacket::CursorDown, &mut outbox);
    drive(&mut painter, &mut room, &a, ClientPacket::CursorUp, &mut outbox);
    let edge = painter.get_pixel_main(&room.chunk_system, IVec2::new(22, 21)).unwrap();
    assert!(edge.g > 0 && edge.g < 255);
    assert!(!painter.kicked);
}

#[test]
fn a_session_that_ends_lets_go_of_everything() {
    let a = SessionHandle::new(0, 0);
    let b = SessionHandle::new(1, 0);
    let mut room = RoomInstance::new(1000);
    let mut leaver = joined(&mut room, &a, "ann");
    let _stayer = joined(&mut room, &b, "bob");
    watch(&mut leaver, &mut room, &a, IVec2::new(0, 0));
    watch(&mut leaver, &mut room, &a, IVec2::new(1, 0));
    let mut outbox: Vec<Delivery> = Vec::new();
    leaver.cleanup(&a, &mut room, &mut outbox);
    assert!(leaver.cleaned_up);
    assert!(!leaver.joined);
    assert!(leaver.linked_chunks.is_empty());
    assert!(room.chunk_system.chunks.iter().all(|c| c.linked_sessions.is_empty()));
    assert!(room.chunk_system.signal_garbage_collect.triggered);
    assert_eq!(room.sessions.len(), 1);
    assert_eq!(room.sessions[0].handle, b);
    assert_eq!(
        frames_to(&outbox, a),
        vec![vec![0, 111, 0, 0, 0, 0, 0, 0, 0, 0], vec![0, 111, 0, 0, 0, 1, 0, 0, 0, 0]]
    );
    assert_eq!(frames_to(&outbox, b), vec![vec![0x03, 0xE9, 0, 0]]);
}

#[test]
fn a_line_asks_for_the_chunks_that_it_reaches() {
    let a = SessionHandle::new(0, 0);
    let mut room = RoomInstance::new(1000);
    let mut painter = joined(&mut room, &a, "ann");
    set_tool(&mut painter, &mut room, &a, ToolType::Line, 1, ColorRGB { r: 255, g: 0, b: 0 });
    let mut outbox: Vec<Delivery> = Vec::new();
    drive(&mut painter, &mut room, &a, ClientPacket::CursorPos { x: 1, y: 1 }, &mut outbox);
    drive(&mut painter, &mut room, &a, ClientPacket::CursorDown, &mut outbox);
    drive(&mut painter, &mut room, &a, ClientPacket::CursorPos { x: 600, y: 1 }, &mut outbox);
    assert!(room.chunk_system.chunks.is_empty());

    let frame = ClientPacket::CursorUp.encode();
    let first = painter.process_payload(&a, &frame, &mut room, None, &params(), &mut outbox);
    assert!(matches!(first, CommandOutcome::NeedChunk(pos) if pos == IVec2::new(0, 0)));
    assert!(painter.state.cursor.down);
    assert!(matches!(painter.tool_state, ToolState::Line(_)));

    drive(&mut painter, &mut room, &a, ClientPacket::CursorUp, &mut outbox);
    assert_eq!(room.chunk_system.chunks.len(), 3);
    assert!(matches!(painter.tool_state, ToolState::Idle));
    for x in [1, 255, 256, 511, 512, 600] {
        assert_eq!(painter.get_pixel_main(&room.chunk_system, IVec2::new(x, 1)), Some(RED));
    }
    assert_eq!(painter.history.cells.last().unwrap().pixels.len(), 600);
}

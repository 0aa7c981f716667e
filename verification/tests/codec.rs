use canvas_engine::compression::{compress_lz4, decompress_lz4};
use canvas_engine::packet_client::{
    ClientCmd, ClientPacket, FrameError, FrameReader, PacketCursorPos, ToolType,
};
use canvas_engine::packet_server::{
    prepare_packet_chunk_create, prepare_packet_chunk_image, prepare_packet_chunk_remove,
    prepare_packet_kick, prepare_packet_message, prepare_packet_pixel_pack,
    prepare_packet_preview_image, prepare_packet_raw, prepare_packet_status_text,
    prepare_packet_user_create, prepare_packet_user_cursor_pos, prepare_packet_user_remove,
    prepare_packet_your_id, MessageType, ServerCmd,
};
use canvas_engine::pixel::{isqrt, ColorRGB, ColorRGBA, GlobalPixelRGBA};
use canvas_engine::util::distance_squared_int32;
use canvas_engine::vector::IVec2;

#[test]
fn blend_with_alpha_0_gives_the_first_colour() {
    let a = ColorRGBA::new(10, 200, 33, 255);
    let b = ColorRGBA::new(250, 1, 99, 0);
    assert_eq!(ColorRGBA::blend_gamma_corrected(0, a, b), a);
}

#[test]
fn blend_with_alpha_255_gives_the_second_colour() {
    let a = ColorRGBA::new(10, 200, 33, 255);
    let b = ColorRGBA::new(250, 1, 99, 0);
    assert_eq!(ColorRGBA::blend_gamma_corrected(255, a, b), b);
}

#[test]
fn blend_halfway_is_the_root_of_the_mean_square() {
    let a = ColorRGBA::new(0, 0, 100, 255);
    let b = ColorRGBA::new(255, 0, 200, 255);
    // (0 * 127 + 255 * 255 * 128) / 255 = 32640, root 180
    // (100 * 100 * 127 + 200 * 200 * 128) / 255 = 25058, root 158
    let out = ColorRGBA::blend_gamma_corrected(128, a, b);
    assert_eq!(out, ColorRGBA::new(180, 0, 158, 255));
}

#[test]
fn integer_square_root_rounds_down() {
    assert_eq!(isqrt(0), 0);
    assert_eq!(isqrt(1), 1);
    assert_eq!(isqrt(3), 1);
    assert_eq!(isqrt(4), 2);
    assert_eq!(isqrt(65024), 254);
    assert_eq!(isqrt(65025), 255);
    assert_eq!(isqrt(65535), 255);
    assert_eq!(isqrt(16384), 128);
}

#[test]
fn colours_convert_between_rgb_and_rgba() {
    let c = ColorRGB { r: 1, g: 2, b: 3 };
    assert_eq!(c.rgba(77), ColorRGBA { r: 1, g: 2, b: 3, a: 77 });
    assert_eq!(ColorRGBA::new(9, 8, 7, 6).rgb(), ColorRGB { r: 9, g: 8, b: 7 });
    assert_eq!(ColorRGBA::zero(), ColorRGBA { r: 0, g: 0, b: 0, a: 0 });
}

#[test]
fn insert_to_vec_appends_the_pixel() {
    let mut pixels: Vec<GlobalPixelRGBA> = Vec::new();
    GlobalPixelRGBA::insert_to_vec(&mut pixels, -3, 4, ColorRGBA::new(1, 2, 3, 4));
    assert_eq!(
        pixels,
        vec![GlobalPixelRGBA { pos: IVec2::new(-3, 4), color: ColorRGBA::new(1, 2, 3, 4) }]
    );
}

#[test]
fn manhattan_distance_of_far_corners() {
    assert_eq!(distance_squared_int32(IVec2::new(0, 0), IVec2::new(3, -4)), 7);
    assert_eq!(
        distance_squared_int32(IVec2::new(i32::MIN, i32::MIN), IVec2::new(i32::MAX, i32::MAX)),
        2 * 0xFFFF_FFFFi64
    );
}

#[test]
fn lz4_round_trip_gives_the_bytes_back() {
    let mut raw: Vec<u8> = Vec::new();
    for i in 0..5000u32 {
        raw.push((i % 7) as u8);
        raw.push((i / 100) as u8);
    }
    let block = compress_lz4(&raw);
    assert_ne!(block, raw);
    assert!(block.len() < raw.len());
    assert_eq!(decompress_lz4(&block, raw.len()), Some(raw.clone()));
    assert_eq!(decompress_lz4(&block, raw.len() + 100), Some(raw));
}

#[test]
fn lz4_round_trip_of_nothing() {
    let block = compress_lz4(&[]);
    assert_eq!(decompress_lz4(&block, 0), Some(Vec::new()));
}

#[test]
fn lz4_block_is_no_longer_than_the_bound() {
    let raw: Vec<u8> = (0..1000u32).map(|i| (i * 2654435761u32 >> 24) as u8).collect();
    let block = compress_lz4(&raw);
    assert!(block.len() <= 20 + raw.len() * 110 / 100);
}

#[test]
fn lz4_refuses_a_buffer_that_is_too_small() {
    let raw = vec![5u8; 1000];
    let block = compress_lz4(&raw);
    assert_eq!(decompress_lz4(&block, 10), None);
}

#[test]
fn lz4_refuses_a_malformed_block() {
    assert_eq!(decompress_lz4(&[0xFF, 0xFF, 0xFF, 0x01], 64), None);
}

#[test]
fn kick_frame_bytes() {
    let p = prepare_packet_kick("bye");
    assert_eq!(p.to_vec(), vec![0, 3, 0, 3, b'b', b'y', b'e']);
}

#[test]
fn status_text_frame_bytes() {
    let p = prepare_packet_status_text("");
    assert_eq!(p.to_vec(), vec![0x04, 0x4C, 0, 0]);
}

#[test]
fn your_id_frame_bytes() {
    assert_eq!(prepare_packet_your_id(0x0102).to_vec(), vec![0, 2, 1, 2]);
}

#[test]
fn user_frames_bytes() {
    assert_eq!(
        prepare_packet_user_create(7, "bob").to_vec(),
        vec![0x03, 0xE8, 0, 7, 3, b'b', b'o', b'b']
    );
    assert_eq!(prepare_packet_user_remove(7).to_vec(), vec![0x03, 0xE9, 0, 7]);
    assert_eq!(
        prepare_packet_user_cursor_pos(7, -1, 256).to_vec(),
        vec![0x03, 0xEA, 0, 7, 0xFF, 0xFF, 0xFF, 0xFF, 0, 0, 1, 0]
    );
}

#[test]
fn chunk_frames_bytes() {
    assert_eq!(
        prepare_packet_chunk_create(IVec2::new(1, -2)).to_vec(),
        vec![0, 110, 0, 0, 0, 1, 0xFF, 0xFF, 0xFF, 0xFE]
    );
    assert_eq!(
        prepare_packet_chunk_remove(IVec2::new(1, -2)).to_vec(),
        vec![0, 111, 0, 0, 0, 1, 0xFF, 0xFF, 0xFF, 0xFE]
    );
    assert_eq!(
        prepare_packet_chunk_image(IVec2::new(0, 3), &[9, 8]).to_vec(),
        vec![0, 100, 0, 0, 0, 0, 0, 0, 0, 3, 0, 3, 0, 0, 9, 8]
    );
}

#[test]
fn pixel_pack_frame_bytes() {
    let p = prepare_packet_pixel_pack(&[1, 2, 3], 5, 6, 1, 5);
    assert_eq!(
        p.to_vec(),
        vec![0, 101, 0, 0, 0, 5, 0, 0, 0, 6, 0, 0, 0, 1, 0, 0, 0, 5, 1, 2, 3]
    );
}

#[test]
fn preview_image_frame_bytes() {
    let p = prepare_packet_preview_image(&IVec2::new(2, 3), 4, &[7, 7, 7]);
    assert_eq!(p.to_vec(), vec![0, 200, 0, 0, 0, 2, 0, 0, 0, 3, 4, 0, 0, 0, 3, 7, 7, 7]);
}

#[test]
fn message_frame_bytes() {
    let p = prepare_packet_message(MessageType::Html, "hi");
    assert_eq!(p.to_vec(), vec![0, 1, 1, 0, 2, b'h', b'i']);
    let q = prepare_packet_message(MessageType::PlainText, "hi");
    assert_eq!(q.to_vec(), vec![0, 1, 0, 0, 2, b'h', b'i']);
}

#[test]
fn raw_frame_bytes_and_copy() {
    let p = prepare_packet_raw(ServerCmd::Kick, &[1, 2, 3]);
    assert_eq!(p.to_vec(), vec![0, 3, 1, 2, 3]);
    assert_eq!(p.duplicate().to_vec(), p.to_vec());
}

#[test]
fn server_command_codes() {
    assert_eq!(ServerCmd::Message.code(), 1);
    assert_eq!(ServerCmd::YourId.code(), 2);
    assert_eq!(ServerCmd::Kick.code(), 3);
    assert_eq!(ServerCmd::ChunkImage.code(), 100);
    assert_eq!(ServerCmd::ChunkPixelPack.code(), 101);
    assert_eq!(ServerCmd::ChunkCreate.code(), 110);
    assert_eq!(ServerCmd::ChunkRemove.code(), 111);
    assert_eq!(ServerCmd::PreviewImage.code(), 200);
    assert_eq!(ServerCmd::UserCreate.code(), 1000);
    assert_eq!(ServerCmd::UserRemove.code(), 1001);
    assert_eq!(ServerCmd::UserCursorPos.code(), 1002);
    assert_eq!(ServerCmd::ProcessingStatusText.code(), 1100);
}

#[test]
fn client_command_codes_round_trip() {
    let all = [
        ClientCmd::Message,
        ClientCmd::Announce,
        ClientCmd::Ping,
        ClientCmd::CursorPos,
        ClientCmd::CursorDown,
        ClientCmd::CursorUp,
        ClientCmd::Boundary,
        ClientCmd::ChunksReceived,
        ClientCmd::PreviewRequest,
        ClientCmd::ToolType,
        ClientCmd::ToolColor,
        ClientCmd::ToolSize,
        ClientCmd::ToolFlow,
        ClientCmd::Undo,
    ];
    for cmd in all {
        assert_eq!(ClientCmd::try_from(cmd.code()), Some(cmd));
    }
    assert_eq!(ClientCmd::try_from(0), None);
    assert_eq!(ClientCmd::try_from(3), None);
    assert_eq!(ClientCmd::try_from(301), None);
}

#[test]
fn tool_type_codes_round_trip() {
    for code in 0..8u8 {
        let tool = ToolType::try_from(code).unwrap();
        assert_eq!(tool.code(), code);
    }
    assert_eq!(ToolType::try_from(0), Some(ToolType::Brush));
    assert_eq!(ToolType::try_from(1), Some(ToolType::Fill));
    assert_eq!(ToolType::try_from(8), None);
    assert_eq!(ToolType::try_from(255), None);
}

fn same_packet(a: &ClientPacket, b: &ClientPacket) -> bool {
    a.encode() == b.encode()
}

#[test]
fn every_client_packet_survives_encoding() {
    let packets = vec![
        ClientPacket::Message { text: b"hello".to_vec() },
        ClientPacket::Announce { room_name: b"Alpha1".to_vec(), nick_name: b"bob".to_vec() },
        ClientPacket::Ping,
        ClientPacket::CursorPos { x: -5, y: 70000 },
        ClientPacket::CursorDown,
        ClientPacket::CursorUp,
        ClientPacket::Boundary { start_x: -1, start_y: 2, end_x: 3, end_y: 4, zoom_bits: 0x3F80_0000 },
        ClientPacket::ChunksReceived { count: 0xDEAD_BEEF },
        ClientPacket::PreviewRequest { x: 1, y: -1, zoom: 3 },
        ClientPacket::ToolType { tool_type: 2 },
        ClientPacket::ToolColor { r: 1, g: 2, b: 3 },
        ClientPacket::ToolSize { size: 9 },
        ClientPacket::ToolFlow { flow_bits: 0x3F00_0000 },
        ClientPacket::Undo,
    ];
    for packet in &packets {
        let frame = packet.encode();
        let back = ClientPacket::parse(&frame).unwrap();
        assert!(same_packet(packet, &back));
    }
}

#[test]
fn cursor_pos_frame_is_read_field_by_field() {
    let frame = [0u8, 100, 0xFF, 0xFF, 0xFF, 0xFE, 0, 0, 1, 1];
    match ClientPacket::parse(&frame) {
        Ok(ClientPacket::CursorPos { x, y }) => {
            assert_eq!(x, -2);
            assert_eq!(y, 257);
        },
        _ => panic!("not a cursor position"),
    }
}

#[test]
fn bytes_behind_the_last_field_are_passed_over() {
    let frame = [0u8, 202, 9, 1, 2, 3];
    match ClientPacket::parse(&frame) {
        Ok(ClientPacket::ToolSize { size }) => assert_eq!(size, 9),
        _ => panic!("not a tool size"),
    }
}

#[test]
fn short_frames_are_truncated() {
    assert!(matches!(ClientPacket::parse(&[]), Err(FrameError::Truncated)));
    assert!(matches!(ClientPacket::parse(&[0]), Err(FrameError::Truncated)));
    assert!(matches!(ClientPacket::parse(&[0, 100, 0, 0, 0]), Err(FrameError::Truncated)));
    assert!(matches!(ClientPacket::parse(&[0, 1, 0, 5, b'a']), Err(FrameError::Truncated)));
    assert!(matches!(ClientPacket::parse(&[0, 2, 3, b'a']), Err(FrameError::Truncated)));
    assert!(matches!(ClientPacket::parse(&[0, 2, 1, b'a', 2, b'b']), Err(FrameError::Truncated)));
}

#[test]
fn unknown_command_is_named() {
    assert!(matches!(ClientPacket::parse(&[0x12, 0x34]), Err(FrameError::UnknownCommand(0x1234))));
}

#[test]
fn frame_reader_reads_big_endian() {
    let data = [1u8, 2, 3, 4, 5, 6, 7, 0xFF, 0xFF, 0xFF, 0xFF, 9];
    let mut reader = FrameReader::new(&data);
    assert_eq!(reader.remaining(), 12);
    assert_eq!(reader.read_u8(), Ok(1));
    assert_eq!(reader.read_u16(), Ok(0x0203));
    assert_eq!(reader.read_u32(), Ok(0x04050607));
    assert_eq!(reader.read_i32(), Ok(-1));
    assert_eq!(reader.remaining(), 1);
    assert_eq!(reader.read_u16(), Err(FrameError::Truncated));
    assert_eq!(reader.read_bytes(1), Ok(&data[11..12]));
    assert_eq!(reader.read_u8(), Err(FrameError::Truncated));
}

#[test]
fn cursor_pos_as_vector() {
    let pos = PacketCursorPos { x: 4, y: -9 };
    assert_eq!(pos.to_vec(), IVec2::new(4, -9));
}

#[test]
fn an_announcement_is_read_name_by_name() {
    let data = [3u8, b'A', b'b', b'C', 3, b'b', b'o', b'b', 9];
    let mut reader = FrameReader::new(&data);
    let packet = canvas_engine::packet_client::PacketAnnounce::read(&mut reader).ok().unwrap();
    assert_eq!(packet.room_name, "abc");
    assert_eq!(packet.nick_name, "bob");
    assert_eq!(reader.pos, 8);
}

#[test]
fn a_faulty_announcement_says_where_it_fails() {
    let read = |data: &[u8]| {
        let mut reader = FrameReader::new(data);
        let fault = canvas_engine::packet_client::PacketAnnounce::read(&mut reader).err();
        (fault, reader.pos)
    };
    assert_eq!(read(&[]), (Some(FrameError::Truncated), 0));
    assert_eq!(read(&[2, b'a']), (Some(FrameError::Truncated), 1));
    assert_eq!(read(&[1, b'a']), (Some(FrameError::Truncated), 2));
    assert_eq!(read(&[1, b'a', 4, b'b']), (Some(FrameError::Truncated), 3));
    assert_eq!(read(&[2, 0xC3, 0x28, 1, b'b']), (Some(FrameError::InvalidUtf8), 3));
    assert_eq!(read(&[1, b'a', 2, 0xC3, 0x28]), (Some(FrameError::InvalidUtf8), 5));
    assert_eq!(read(&[0, 0]), (None, 2));
}

#[test]
fn a_cursor_position_moves_the_reader_by_eight_bytes() {
    let data = [0xFFu8, 0xFF, 0xFF, 0xFF, 0x00, 0x00, 0x01, 0x00, 7];
    let mut reader = FrameReader::new(&data);
    assert_eq!(PacketCursorPos::read(&mut reader), Ok(PacketCursorPos { x: -1, y: 256 }));
    assert_eq!(reader.pos, 8);
    assert_eq!(PacketCursorPos::read(&mut reader), Err(FrameError::Truncated));
    assert_eq!(reader.pos, 8);
    let short = [0u8, 0, 0, 9, 1, 2];
    let mut reader = FrameReader::new(&short);
    assert_eq!(PacketCursorPos::read(&mut reader), Err(FrameError::Truncated));
    assert_eq!(reader.pos, 4);
}

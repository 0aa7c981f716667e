use canvas_engine::chunk::chunk::Delivery;
use canvas_engine::command::{parse_console_command, print_help, ConsoleCommand};
use canvas_engine::config::{Config, PreviewSystem};
use canvas_engine::id::SessionHandle;
use canvas_engine::packet_client::ClientPacket;
use canvas_engine::room::RoomInstance;
use canvas_engine::server::{Server, SessionContainer, SessionVec};
use canvas_engine::session::SessionInstance;
use canvas_engine::vector::IVec2;

fn config() -> Config {
    Config {
        listen_ip: String::from("127.0.0.1"),
        listen_port: 3001,
        autosave_interval_ms: 5000,
        plugin_list: Vec::new(),
        preview_system: PreviewSystem { process_all_at_start: false },
        admin_password: Some(String::from("secret")),
        enable_console: false,
    }
}

fn frames_to(outbox: &[Delivery], to: SessionHandle) -> Vec<Vec<u8>> {
    outbox.iter().filter(|d| d.to == to).map(|d| d.packet.to_vec()).collect()
}

fn announce(server: &mut Server, handle: &SessionHandle, room: &str, nick: &str, outbox: &mut Vec<Delivery>) -> Option<usize> {
    let frame = ClientPacket::Announce {
        room_name: room.as_bytes().to_vec(),
        nick_name: nick.as_bytes().to_vec(),
    }
    .encode();
    let asked = {
        let container = server.sessions.vec[handle.idx as usize].obj.as_mut().unwrap();
        container.session.process_payload_unjoined(handle, &frame, outbox)
    };
    match asked {
        Some(request) => {
            let found = server.add_session_to_room(&request.room_name, handle, &request.nick_name, outbox);
            assert!(found.2);
            Some(found.0)
        },
        None => None,
    }
}

#[test]
fn an_announcement_puts_the_session_in_its_room() {
    let mut server = Server::new(config());
    let first = server.create_session().unwrap();
    let second = server.create_session().unwrap();
    assert_eq!(first, SessionHandle::new(0, 0));
    assert_eq!(second, SessionHandle::new(1, 0));

    let mut outbox: Vec<Delivery> = Vec::new();
    let at = announce(&mut server, &first, "Alpha1", "bob", &mut outbox).unwrap();
    assert_eq!(server.rooms[at].name, "alpha1");
    assert_eq!(server.rooms[at].room.sessions.len(), 1);
    assert_eq!(server.rooms[at].room.sessions[0].nick_name, "bob");
    assert_eq!(frames_to(&outbox, first), vec![vec![0, 2, 0, 0]]);
    {
        let container = server.sessions.get(&first).unwrap();
        assert!(container.session.announced);
        assert!(container.session.joined);
        assert_eq!(container.session.state.nick_name, "bob");
        assert_eq!(container.room_name.as_deref(), Some("alpha1"));
    }

    outbox.clear();
    let again = announce(&mut server, &second, "ALPHA1", "bob", &mut outbox).unwrap();
    assert_eq!(again, at);
    assert_eq!(server.rooms.len(), 1);
    assert_eq!(server.rooms[at].room.sessions[1].nick_name, "bob (2)");
    assert_eq!(server.sessions.get(&second).unwrap().session.state.nick_name, "bob (2)");
    let mut created = vec![0x03u8, 0xE8, 0, 1, 7];
    created.extend(b"bob (2)");
    assert_eq!(frames_to(&outbox, first), vec![created]);
    assert_eq!(
        frames_to(&outbox, second),
        vec![
            vec![0, 2, 0, 1],
            vec![0x03, 0xE8, 0, 0, 3, b'b', b'o', b'b'],
            vec![0x03, 0xEA, 0, 0, 0, 0, 0, 0, 0, 0, 0, 0],
        ]
    );
}

#[test]
fn a_second_announcement_is_a_misuse() {
    let mut server = Server::new(config());
    let handle = server.create_session().unwrap();
    let mut outbox: Vec<Delivery> = Vec::new();
    let at = announce(&mut server, &handle, "alpha1", "bob", &mut outbox).unwrap();
    outbox.clear();
    let frame = ClientPacket::Announce { room_name: b"beta22".to_vec(), nick_name: b"bob".to_vec() }
        .encode();
    let server_ref = &mut server;
    let container = server_ref.sessions.vec[0].obj.as_mut().unwrap();
    let room = &mut server_ref.rooms[at].room;
    let params = canvas_engine::session::ToolParams {
        blend_intensity: 0,
        smooth_kernel: Vec::new(),
        spray_threshold: 0,
        line_side_step: IVec2::new(0, 0),
    };
    container.session.process_payload(&handle, &frame, room, None, &params, &mut outbox);
    assert!(container.session.kicked);
    let text = "User error: Announced more than once";
    let mut kick = vec![0u8, 3, 0, text.len() as u8];
    kick.extend(text.as_bytes());
    assert_eq!(frames_to(&outbox, handle), vec![kick]);
}

#[test]
fn names_that_do_not_pass_disconnect() {
    let cases = [
        ("ab", "bob", "User error: Invalid room name length (min 3, max 24)"),
        (
            "al pha",
            "bob",
            "User error: Room name contains invalid character: \" \". Only alphanumeric characters are allowed.",
        ),
        ("alpha", "bo", "User error: Invalid nick name length (min 3, max 24)"),
        (
            "alpha",
            "b.b",
            "User error: Nick name contains invalid character: \".\". Only alphanumeric characters are allowed.",
        ),
    ];
    for (room, nick, words) in cases {
        let mut server = Server::new(config());
        let handle = server.create_session().unwrap();
        let mut outbox: Vec<Delivery> = Vec::new();
        assert!(announce(&mut server, &handle, room, nick, &mut outbox).is_none());
        let mut kick = vec![0u8, 3, 0, words.len() as u8];
        kick.extend(words.as_bytes());
        assert_eq!(frames_to(&outbox, handle), vec![kick]);
        assert!(server.rooms.is_empty());
        assert!(server.sessions.get(&handle).unwrap().session.kicked);
    }
}

#[test]
fn names_that_are_not_utf8_disconnect() {
    let mut session = SessionInstance::new();
    let handle = SessionHandle::new(0, 0);
    let mut outbox: Vec<Delivery> = Vec::new();
    let frame = [0u8, 2, 3, 0xC3, 0x28, b'a', 3, b'b', b'o', b'b'];
    assert!(session.process_payload_unjoined(&handle, &frame, &mut outbox).is_none());
    assert!(session.kicked);
    let text = "User error: Text is not UTF-8";
    let mut kick = vec![0u8, 3, 0, text.len() as u8];
    kick.extend(text.as_bytes());
    assert_eq!(frames_to(&outbox, handle), vec![kick]);
}

#[test]
fn before_the_announcement_nothing_else_is_heard() {
    let mut session = SessionInstance::new();
    let handle = SessionHandle::new(0, 0);
    let mut outbox: Vec<Delivery> = Vec::new();
    let frame = ClientPacket::ToolSize { size: 9 }.encode();
    assert!(session.process_payload_unjoined(&handle, &frame, &mut outbox).is_none());
    assert_eq!(session.tool.size, 1);
    assert!(!session.kicked);
    assert!(outbox.is_empty());
}

#[test]
fn a_free_name_gets_the_least_free_number() {
    let mut room = RoomInstance::new(1000);
    let mut outbox: Vec<Delivery> = Vec::new();
    let mut names = Vec::new();
    for i in 0..4u32 {
        let mut session = SessionInstance::new();
        session.join_room(&SessionHandle::new(i, 0), &mut room, "bob", &mut outbox);
        names.push(session.state.nick_name.clone());
    }
    assert_eq!(names, vec!["bob", "bob (2)", "bob (3)", "bob (4)"]);
    room.remove_session(&SessionHandle::new(1, 0));
    let mut session = SessionInstance::new();
    session.join_room(&SessionHandle::new(9, 0), &mut room, "bob", &mut outbox);
    assert_eq!(session.state.nick_name, "bob (2)");
    assert_eq!(RoomInstance::gen_suitable_name("bob", &None), "bob");
    assert_eq!(RoomInstance::gen_suitable_name("bob", &Some(3)), "bob (3)");
    assert!(room.is_name_taken(&String::from("bob (3)"), &SessionHandle::new(0, 0)));
    assert!(!room.is_name_taken(&String::from("bob"), &SessionHandle::new(0, 0)));
    assert_eq!(room.get_all_sessions(Some(&SessionHandle::new(0, 0))), vec![1, 2, 3]);
    assert_eq!(room.get_all_sessions(None), vec![0, 1, 2, 3]);
}

#[test]
fn a_slot_is_taken_anew_under_the_next_generation() {
    let mut sessions = SessionVec::new();
    let a = sessions
        .add(SessionContainer { session: SessionInstance::new(), room_name: None })
        .unwrap();
    let b = sessions
        .add(SessionContainer { session: SessionInstance::new(), room_name: None })
        .unwrap();
    assert_eq!((a.idx, a.generation), (0, 0));
    assert_eq!((b.idx, b.generation), (1, 0));
    assert!(sessions.remove(&a).is_some());
    assert!(sessions.remove(&a).is_none());
    assert!(sessions.get(&a).is_none());
    assert!(sessions.get(&b).is_some());
    let c = sessions
        .add(SessionContainer { session: SessionInstance::new(), room_name: None })
        .unwrap();
    assert_eq!((c.idx, c.generation), (0, 1));
    assert!(sessions.get(&a).is_none());
    assert!(sessions.get(&c).is_some());
    assert_eq!(SessionVec::get_handle(&sessions.vec[0], 0), c);
    assert_eq!(c.id(), 0);
}

#[test]
fn rooms_without_sessions_are_closed() {
    let mut server = Server::new(config());
    let handle = server.create_session().unwrap();
    let mut outbox: Vec<Delivery> = Vec::new();
    announce(&mut server, &handle, "alpha1", "bob", &mut outbox).unwrap();
    let (empty, created) = server.get_or_load_room("empty1");
    assert!(created);
    assert_eq!(empty, 1);
    assert_eq!(server.get_or_load_room("empty1"), (1, false));
    assert_eq!(server.rooms[1].room.chunk_system.autosave_interval_ms, 5000);
    assert_eq!(server.find_room("alpha1"), Some(0));
    assert_eq!(server.find_room("gamma1"), None);

    let closed = server.cleanup_rooms(false);
    assert_eq!(closed.len(), 1);
    assert_eq!(closed[0].name, "empty1");
    assert!(closed[0].saves.is_empty());
    assert_eq!(server.rooms.len(), 1);
    assert_eq!(server.rooms[0].name, "alpha1");
}

#[test]
fn the_end_of_the_server_saves_what_was_painted() {
    let mut server = Server::new(config());
    let handle = server.create_session().unwrap();
    let idle = server.create_session().unwrap();
    let mut outbox: Vec<Delivery> = Vec::new();
    let at = announce(&mut server, &handle, "alpha1", "bob", &mut outbox).unwrap();
    {
        let room = &mut server.rooms[at].room;
        let index = room.chunk_system.load_chunk(IVec2::new(3, 4), None);
        room.chunk_system.chunks[index].allocate_image();
        room.chunk_system.chunks[index].set_pixels(
            &[canvas_engine::chunk::layer::ChunkPixelRGB {
                pos: canvas_engine::vector::U8Vec2::new(0, 0),
                color: canvas_engine::pixel::ColorRGB { r: 9, g: 9, b: 9 },
            }],
            false,
            &mut outbox,
        );
    }
    outbox.clear();
    let closed = server.save_and_exit(&mut outbox);
    assert!(server.rooms.is_empty());
    assert!(server.sessions.get(&handle).is_none());
    assert!(server.sessions.get(&idle).is_none());
    assert_eq!(closed.len(), 1);
    assert_eq!(closed[0].name, "alpha1");
    assert_eq!(closed[0].saves.len(), 1);
    assert_eq!(closed[0].saves[0].position, IVec2::new(3, 4));
    let text = "Server closed";
    let mut kick = vec![0u8, 3, 0, text.len() as u8];
    kick.extend(text.as_bytes());
    assert_eq!(frames_to(&outbox, handle), vec![kick.clone()]);
    assert_eq!(frames_to(&outbox, idle), vec![kick]);
}

#[test]
fn removing_a_session_closes_its_empty_room() {
    let mut server = Server::new(config());
    let handle = server.create_session().unwrap();
    let mut outbox: Vec<Delivery> = Vec::new();
    let at = announce(&mut server, &handle, "alpha1", "bob", &mut outbox).unwrap();
    {
        let server_ref = &mut server;
        let container = server_ref.sessions.vec[0].obj.as_mut().unwrap();
        container.session.cleanup(&handle, &mut server_ref.rooms[at].room, &mut outbox);
    }
    let closed = server.remove_session(&handle);
    assert_eq!(closed.len(), 1);
    assert!(server.rooms.is_empty());
    assert!(server.sessions.get(&handle).is_none());
}

#[test]
fn the_settings_hold_the_password() {
    let mut settings = config();
    assert_eq!(settings.password(), Some("secret"));
    settings.admin_password = None;
    assert_eq!(settings.password(), None);
}

#[test]
fn console_commands_are_told_apart() {
    assert!(matches!(parse_console_command("help"), ConsoleCommand::Help));
    assert!(matches!(parse_console_command("?"), ConsoleCommand::Help));
    assert!(matches!(parse_console_command("dump now"), ConsoleCommand::Dump));
    assert!(matches!(parse_console_command("exit\t"), ConsoleCommand::Exit));
    assert!(matches!(parse_console_command(""), ConsoleCommand::Nothing));
    assert!(matches!(parse_console_command(" exit"), ConsoleCommand::Nothing));
    match parse_console_command("reboot please") {
        ConsoleCommand::Unknown(word) => assert_eq!(word, "reboot"),
        _ => panic!("not an unknown command"),
    }
    let help = print_help();
    assert_eq!(help.len(), 3);
    assert_eq!(help[2], "exit - Save everything and exit");
}

#[test]
fn disconnecting_everyone_tells_each_and_empties_the_rooms() {
    let mut server = Server::new(config());
    let first = server.create_session().unwrap();
    let second = server.create_session().unwrap();
    let idle = server.create_session().unwrap();
    let mut outbox: Vec<Delivery> = Vec::new();
    let at = announce(&mut server, &first, "alpha1", "ann", &mut outbox).unwrap();
    announce(&mut server, &second, "alpha1", "bob", &mut outbox).unwrap();
    {
        let server_ref = &mut server;
        let room = &mut server_ref.rooms[at].room;
        let index = room.chunk_system.load_chunk(IVec2::new(2, 3), None);
        let container = server_ref.sessions.vec[0].obj.as_mut().unwrap();
        container.session.stream_chunk(&first, &mut room.chunk_system, index, &mut outbox);
    }
    outbox.clear();
    server.kick_all_sessions(&mut outbox);

    let text = "Server closed";
    let mut kick = vec![0u8, 3, 0, text.len() as u8];
    kick.extend(text.as_bytes());
    assert_eq!(
        frames_to(&outbox, first),
        vec![kick.clone(), vec![0, 111, 0, 0, 0, 2, 0, 0, 0, 3]]
    );
    assert_eq!(frames_to(&outbox, second), vec![vec![0x03, 0xE9, 0, 0], kick.clone()]);
    assert_eq!(frames_to(&outbox, idle), vec![kick]);
    assert_eq!(outbox.len(), 5);
    assert!(server.rooms[at].room.sessions.is_empty());
    assert!(server.rooms[at].room.chunk_system.chunks[0].linked_sessions.is_empty());
    assert!(server.sessions.vec.iter().all(|cell| cell.obj.is_none()));
    assert_eq!(server.rooms.len(), 1);
}

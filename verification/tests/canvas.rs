use canvas_engine::chunk::chunk::{get_empty_chunk, ChunkInstance, Delivery};
use canvas_engine::chunk::compositor::{Compositor, LayerID};
use canvas_engine::chunk::layer::{ChunkPixelRGB, ChunkPixelRGBA, LayerRGB, LayerRGBA, RGBData};
use canvas_engine::chunk::system::{ChunkSystem, ChunkSystemSignal};
use canvas_engine::compression::{compress_lz4, decompress_lz4};
use canvas_engine::event_queue::EventQueue;
use canvas_engine::history::History;
use canvas_engine::id::SessionHandle;
use canvas_engine::pixel::{ColorRGB, ColorRGBA, GlobalPixelRGBA};
use canvas_engine::point_set::PointSet;
use canvas_engine::serial_generator::SerialGenerator;
use canvas_engine::signal::Signal;
use canvas_engine::time::get_millis;
use canvas_engine::vector::{IVec2, U8Vec2};

const WHITE: ColorRGB = ColorRGB { r: 255, g: 255, b: 255 };
const RED: ColorRGB = ColorRGB { r: 255, g: 0, b: 0 };

fn pixel(x: u8, y: u8, color: ColorRGB) -> ChunkPixelRGB {
    ChunkPixelRGB { pos: U8Vec2::new(x, y), color }
}

fn frames_to(outbox: &[Delivery], to: SessionHandle) -> Vec<Vec<u8>> {
    outbox.iter().filter(|d| d.to == to).map(|d| d.packet.to_vec()).collect()
}

#[test]
fn floor_division_of_pixel_positions() {
    let cases = [
        (0, 0, 0),
        (255, 0, 255),
        (256, 1, 0),
        (-1, -1, 255),
        (-256, -1, 0),
        (-257, -2, 255),
        (i32::MAX, 8388607, 255),
        (i32::MIN, -8388608, 0),
    ];
    for (p, chunk, local) in cases {
        let pos = IVec2::new(p, p);
        let c = ChunkSystem::global_pixel_pos_to_chunk_pos(pos);
        let l = ChunkSystem::global_pixel_pos_to_local_pixel_pos(pos);
        assert_eq!(c, IVec2::new(chunk, chunk));
        assert_eq!(l, U8Vec2::new(local, local));
        assert_eq!(c.x as i64 * 256 + l.x as i64, p as i64);
    }
}

#[test]
fn a_new_chunk_is_white() {
    let mut chunk = ChunkInstance::new(IVec2::new(2, 3), None);
    assert!(chunk.new_chunk);
    assert!(!chunk.modified);
    chunk.allocate_image();
    assert_eq!(chunk.get_pixel_main(U8Vec2::new(0, 0)), WHITE);
    assert_eq!(chunk.get_pixel_main(U8Vec2::new(255, 255)), WHITE);
    assert_eq!(chunk.snapshot(), vec![255u8; 196608]);
}

#[test]
fn the_empty_chunk_block_decodes_to_white() {
    let block = get_empty_chunk();
    assert_eq!(decompress_lz4(&block, 196608), Some(vec![255u8; 196608]));
}

#[test]
fn a_stored_chunk_is_what_its_block_decodes_to() {
    let mut image = vec![255u8; 196608];
    let at = (5 * 256 + 7) * 3;
    image[at] = 1;
    image[at + 1] = 2;
    image[at + 2] = 3;
    let mut chunk = ChunkInstance::new(IVec2::new(0, 0), Some(compress_lz4(&image)));
    assert!(!chunk.new_chunk);
    chunk.allocate_image();
    assert_eq!(chunk.get_pixel_main(U8Vec2::new(7, 5)), ColorRGB { r: 1, g: 2, b: 3 });
    assert_eq!(chunk.get_pixel_main(U8Vec2::new(5, 7)), WHITE);
}

#[test]
fn an_unreadable_block_gives_a_white_chunk() {
    let mut chunk = ChunkInstance::new(IVec2::new(0, 0), Some(vec![0xFF, 0xFF, 0xFF, 0x01]));
    chunk.allocate_image();
    assert_eq!(chunk.get_pixel_main(U8Vec2::new(0, 0)), WHITE);
}

#[test]
fn set_pixels_paints_marks_and_tells_the_watchers() {
    let watcher = SessionHandle::new(4, 0);
    let mut chunk = ChunkInstance::new(IVec2::new(1, -1), None);
    chunk.allocate_image();
    chunk.link_session(&watcher);
    let mut outbox: Vec<Delivery> = Vec::new();
    chunk.set_pixels(&[pixel(3, 4, RED)], false, &mut outbox);
    assert!(chunk.modified);
    assert_eq!(chunk.get_pixel_main(U8Vec2::new(3, 4)), RED);
    assert_eq!(outbox.len(), 1);
    assert_eq!(outbox[0].to, watcher);
    let mut expected = vec![0, 101, 0, 0, 0, 1, 0xFF, 0xFF, 0xFF, 0xFF, 0, 0, 0, 1, 0, 0, 0, 5];
    expected.extend(compress_lz4(&[3, 4, 255, 0, 0]));
    assert_eq!(outbox[0].packet.to_vec(), expected);
}

#[test]
fn set_pixels_without_a_change_tells_nobody() {
    let watcher = SessionHandle::new(4, 0);
    let mut chunk = ChunkInstance::new(IVec2::new(0, 0), None);
    chunk.allocate_image();
    chunk.link_session(&watcher);
    let mut outbox: Vec<Delivery> = Vec::new();
    chunk.set_pixels(&[pixel(3, 4, WHITE)], false, &mut outbox);
    assert!(!chunk.modified);
    assert!(outbox.is_empty());
}

#[test]
fn the_cached_block_always_decodes_to_the_base() {
    let a = SessionHandle::new(1, 0);
    let mut chunk = ChunkInstance::new(IVec2::new(0, 0), None);
    chunk.allocate_image();
    chunk.link_session(&a);
    let mut outbox: Vec<Delivery> = Vec::new();
    let mut queue: Vec<IVec2> = Vec::new();
    for round in 0..4u8 {
        chunk.set_pixels(
            &[pixel(round, 9, ColorRGB { r: round, g: 1, b: 2 }), pixel(200, round, RED)],
            false,
            &mut outbox,
        );
        chunk.send_chunk_data_to_session(&a, &mut outbox);
        if let Some(block) = &chunk.compressed_image_data {
            assert_eq!(decompress_lz4(block, 196608), Some(chunk.snapshot()));
        }
        let block = chunk.encode_chunk_data(false, &mut queue);
        assert_eq!(decompress_lz4(&block, 196608), Some(chunk.snapshot()));
        if let Some(cached) = &chunk.compressed_image_data {
            assert_eq!(decompress_lz4(cached, 196608), Some(chunk.snapshot()));
        }
    }
    assert!(queue.is_empty());
}

#[test]
fn handing_a_chunk_to_storage_clears_the_mark_and_queues_the_preview() {
    let mut chunk = ChunkInstance::new(IVec2::new(-3, 5), None);
    chunk.allocate_image();
    let mut outbox: Vec<Delivery> = Vec::new();
    chunk.set_pixels(&[pixel(0, 0, RED)], false, &mut outbox);
    assert!(chunk.modified);
    let mut queue: Vec<IVec2> = Vec::new();
    let block = chunk.encode_chunk_data(true, &mut queue);
    assert!(!chunk.modified);
    assert_eq!(queue, vec![IVec2::new(-2, 2)]);
    let image = decompress_lz4(&block, 196608).unwrap();
    assert_eq!(&image[0..3], &[255, 0, 0]);
    chunk.allocate_image();
    assert_eq!(chunk.get_pixel_main(U8Vec2::new(0, 0)), RED);
}

#[test]
fn a_chunk_image_goes_to_the_session_that_asks() {
    let a = SessionHandle::new(1, 0);
    let mut chunk = ChunkInstance::new(IVec2::new(2, 3), None);
    let mut outbox: Vec<Delivery> = Vec::new();
    chunk.send_chunk_data_to_session(&a, &mut outbox);
    assert_eq!(outbox.len(), 1);
    assert_eq!(outbox[0].to, a);
    let frame = outbox[0].packet.to_vec();
    assert_eq!(&frame[0..14], &[0, 100, 0, 0, 0, 2, 0, 0, 0, 3, 0, 3, 0, 0]);
    assert_eq!(decompress_lz4(&frame[14..], 196608), Some(vec![255u8; 196608]));
}

#[test]
fn a_session_is_linked_once() {
    let a = SessionHandle::new(1, 0);
    let mut chunk = ChunkInstance::new(IVec2::new(0, 0), None);
    chunk.link_session(&a);
    chunk.link_session(&a);
    assert_eq!(chunk.linked_sessions.len(), 1);
}

#[test]
fn the_last_unlink_asks_for_a_collection() {
    let a = SessionHandle::new(1, 0);
    let b = SessionHandle::new(2, 0);
    let mut chunk = ChunkInstance::new(IVec2::new(0, 0), None);
    chunk.link_session(&a);
    chunk.link_session(&b);
    let mut signal = Signal::new();
    chunk.unlink_session(&a, &mut signal);
    assert!(!signal.triggered);
    chunk.unlink_session(&b, &mut signal);
    assert!(signal.triggered);
    assert!(chunk.linked_sessions.is_empty());
}

#[test]
fn a_session_has_a_composition_only_with_a_layer_of_its_own() {
    let a = SessionHandle::new(1, 0);
    let b = SessionHandle::new(2, 0);
    let mut compositor = Compositor::new();
    assert!(!compositor.has_session_composition(&a));
    compositor.get_or_alloc_mut(&LayerID::Session(0, a));
    assert!(compositor.has_session_composition(&a));
    assert!(!compositor.has_session_composition(&b));
    compositor.get_or_alloc_mut(&LayerID::Session(1, a));
    compositor.remove_layer_id(LayerID::Session(0, a));
    assert!(compositor.has_session_composition(&a));
    compositor.deref_session(&a);
    assert!(!compositor.has_session_composition(&a));
    assert!(compositor.layers.is_empty());
}

#[test]
fn an_overlay_shows_over_the_base() {
    let a = SessionHandle::new(1, 0);
    let id = LayerID::Session(0, a);
    let mut chunk = ChunkInstance::new(IVec2::new(0, 0), None);
    chunk.allocate_image();
    chunk.paint_overlay(
        &id,
        &[ChunkPixelRGBA { pos: U8Vec2::new(1, 1), color: ColorRGBA::new(0, 0, 0, 255) }],
    );
    assert_eq!(chunk.get_pixel_main(U8Vec2::new(1, 1)), WHITE);
    let picks = chunk.compositor.construct_layers_from_session(&a);
    assert_eq!(picks.len(), 1);
    let seen = chunk.compositor.calc_pixel(chunk.get_layer_main(), &picks, U8Vec2::new(1, 1));
    assert_eq!(seen, ColorRGB { r: 0, g: 0, b: 0 });
    let beside = chunk.compositor.calc_pixel(chunk.get_layer_main(), &picks, U8Vec2::new(2, 1));
    assert_eq!(beside, WHITE);
    let image = chunk.compositor.composite(chunk.get_layer_main(), &picks);
    assert_eq!(image.get_pixel(U8Vec2::new(1, 1)), ColorRGB { r: 0, g: 0, b: 0 });
    assert_eq!(image.get_pixel(U8Vec2::new(0, 0)), WHITE);
}

#[test]
fn layers_hold_what_is_written() {
    let mut rgb = LayerRGB::new();
    assert!(rgb.read().is_none());
    rgb.alloc_white();
    rgb.set_pixel(U8Vec2::new(255, 255), RED);
    assert_eq!(rgb.get_pixel(U8Vec2::new(255, 255)), RED);
    assert_eq!(rgb.read_unchecked().0.len(), 196608);
    assert_eq!(&rgb.read_unchecked().0[196605..], &[255, 0, 0]);
    rgb.set_pixels(&[pixel(0, 1, RED)]);
    assert_eq!(&rgb.read_unchecked().0[768..771], &[255, 0, 0]);
    assert_eq!(decompress_lz4(&rgb.compress_lz4(), 196608).unwrap(), rgb.read_unchecked().0);
    rgb.free();
    assert!(rgb.read().is_none());
    rgb.apply(RGBData(vec![7u8; 196608]));
    assert_eq!(rgb.get_pixel(U8Vec2::new(3, 3)), ColorRGB { r: 7, g: 7, b: 7 });

    let mut rgba = LayerRGBA::new();
    rgba.alloc_transparent_black();
    assert_eq!(rgba.get_pixel(U8Vec2::new(9, 9)), ColorRGBA::zero());
    rgba.set_pixel(U8Vec2::new(9, 9), ColorRGBA::new(1, 2, 3, 4));
    assert_eq!(rgba.get_pixel(U8Vec2::new(9, 9)), ColorRGBA::new(1, 2, 3, 4));
    assert_eq!(rgba.read_unchecked().0.len(), 262144);
    rgba.alloc_blank();
    assert_eq!(rgba.get_pixel(U8Vec2::new(9, 9)), ColorRGBA::zero());
}

#[test]
fn a_snapshot_holds_each_position_once() {
    let mut history = History::new();
    history.create_snapshot();
    let p = IVec2::new(5, -5);
    history.add_pixel(GlobalPixelRGBA { pos: p, color: ColorRGBA::new(1, 1, 1, 255) });
    history.add_pixel(GlobalPixelRGBA { pos: p, color: ColorRGBA::new(2, 2, 2, 255) });
    history.add_pixel(GlobalPixelRGBA { pos: IVec2::new(6, -5), color: ColorRGBA::new(3, 3, 3, 255) });
    let cell = history.undo().unwrap();
    assert_eq!(
        cell.pixels,
        vec![
            GlobalPixelRGBA { pos: p, color: ColorRGBA::new(1, 1, 1, 255) },
            GlobalPixelRGBA { pos: IVec2::new(6, -5), color: ColorRGBA::new(3, 3, 3, 255) },
        ]
    );
    assert!(history.undo().is_none());
}

#[test]
fn the_history_holds_fifty_snapshots() {
    let mut history = History::new();
    for i in 0..60 {
        history.create_snapshot();
        history.add_pixel(GlobalPixelRGBA { pos: IVec2::new(i, 0), color: ColorRGBA::zero() });
    }
    assert_eq!(history.cells.len(), 50);
    assert_eq!(history.cells[0].pixels[0].pos, IVec2::new(10, 0));
    assert_eq!(history.cells[49].pixels[0].pos, IVec2::new(59, 0));
}

#[test]
fn a_point_set_keeps_the_first_of_each() {
    let mut set = PointSet::new();
    set.insert(IVec2::new(1, 2));
    set.insert(IVec2::new(-1, 2));
    set.insert(IVec2::new(1, 2));
    assert_eq!(set.points, vec![IVec2::new(1, 2), IVec2::new(-1, 2)]);
    assert!(set.contains(IVec2::new(-1, 2)));
    assert!(!set.contains(IVec2::new(2, 1)));
    set.clear();
    assert!(set.points.is_empty());
    assert!(!set.contains(IVec2::new(1, 2)));
}

#[test]
fn chunks_are_loaded_once() {
    let mut system = ChunkSystem::new_at(1000, 0);
    assert!(system.get_chunk(IVec2::new(1, 1)).is_none());
    let i = system.load_chunk(IVec2::new(1, 1), None);
    let j = system.load_chunk(IVec2::new(1, 1), Some(vec![1, 2, 3]));
    assert_eq!(i, j);
    assert_eq!(system.chunks.len(), 1);
    assert_eq!(system.get_chunk(IVec2::new(1, 1)), Some(i));
    assert!(system.chunks[i].new_chunk);
}

#[test]
fn autosave_hands_over_the_modified_chunks_when_due() {
    let mut system = ChunkSystem::new_at(1000, 5000);
    let i = system.load_chunk(IVec2::new(4, 6), None);
    system.load_chunk(IVec2::new(0, 0), None);
    system.chunks[i].allocate_image();
    let mut outbox: Vec<Delivery> = Vec::new();
    system.chunks[i].set_pixels(&[pixel(0, 0, RED)], false, &mut outbox);
    let mut queue: Vec<IVec2> = Vec::new();
    assert!(system.tick(6000, &mut queue).is_none());
    assert!(system.chunks[i].modified);
    let saves = system.tick(6001, &mut queue).unwrap();
    assert_eq!(saves.len(), 1);
    assert_eq!(saves[0].position, IVec2::new(4, 6));
    let image = decompress_lz4(&saves[0].data, 196608).unwrap();
    assert_eq!(&image[0..3], &[255, 0, 0]);
    assert!(!system.chunks[i].modified);
    assert_eq!(queue, vec![IVec2::new(2, 3)]);
    assert_eq!(system.last_autosave_timestamp, 6001);
    assert!(system.get_chunks_to_save().is_empty());
}

#[test]
fn a_collection_lets_go_of_the_chunks_that_nobody_watches() {
    let a = SessionHandle::new(1, 0);
    let mut system = ChunkSystem::new_at(1000, 0);
    let watched = system.load_chunk(IVec2::new(0, 0), None);
    let lonely = system.load_chunk(IVec2::new(1, 0), None);
    system.chunks[watched].link_session(&a);
    system.chunks[lonely].allocate_image();
    let mut outbox: Vec<Delivery> = Vec::new();
    system.chunks[lonely].set_pixels(&[pixel(0, 0, RED)], false, &mut outbox);
    assert!(system.get_chunks_to_garbage_collect().is_none());
    system.signal_garbage_collect.notify();
    let data = system.get_chunks_to_garbage_collect().unwrap();
    assert_eq!(data.chunks_to_free, vec![IVec2::new(1, 0)]);
    assert_eq!(data.chunks_to_save, vec![IVec2::new(1, 0)]);
    let mut queue: Vec<IVec2> = Vec::new();
    let saves = system.garbage_collect_lazy(&data, &mut queue);
    assert_eq!(saves.len(), 1);
    assert_eq!(saves[0].position, IVec2::new(1, 0));
    assert_eq!(system.chunks.len(), 1);
    assert_eq!(system.chunks[0].position, IVec2::new(0, 0));
    assert_eq!(queue, vec![IVec2::new(0, 0)]);
}

#[test]
fn removing_a_layer_takes_it_from_every_chunk() {
    let a = SessionHandle::new(1, 0);
    let id = LayerID::Session(3, a);
    let mut system = ChunkSystem::new_at(1000, 0);
    let i = system.load_chunk(IVec2::new(0, 0), None);
    system.chunks[i].allocate_image();
    system.chunks[i].paint_overlay(
        &id,
        &[ChunkPixelRGBA { pos: U8Vec2::new(1, 1), color: ColorRGBA::new(0, 0, 0, 255) }],
    );
    assert!(system.chunks[i].compositor.has_session_composition(&a));
    system.process_signal(ChunkSystemSignal::RemoveLayer(id));
    assert!(!system.chunks[i].compositor.has_session_composition(&a));
    assert_eq!(id.session(), a);
}

#[test]
fn the_clock_runs() {
    let now = get_millis();
    assert!(now > 1_600_000_000_000);
    let system = ChunkSystem::new(1000);
    assert!(system.last_autosave_timestamp >= now);
    assert!(system.chunks.is_empty());
}

#[test]
fn small_helpers_behave() {
    let mut signal = Signal::new();
    assert!(!signal.check_triggered());
    signal.notify();
    assert!(signal.check_triggered());
    assert!(!signal.check_triggered());

    let mut serial = SerialGenerator::new();
    assert_eq!(serial.increment_get(), 0);
    assert_eq!(serial.increment_get(), 1);
    serial.serial = u64::MAX;
    assert_eq!(serial.increment_get(), u64::MAX);
    assert_eq!(serial.increment_get(), 0);

    let mut queue: EventQueue<u8> = EventQueue::new();
    assert!(queue.read().is_none());
    queue.send(1);
    queue.send(2);
    queue.send(3);
    assert_eq!(queue.read(), Some(1));
    assert_eq!(queue.read_all(), vec![2, 3]);
    assert!(queue.read_all().is_empty());
}

#[test]
fn a_new_history_is_empty() {
    let history = History::new();
    assert!(history.cells.is_empty());
    assert!(history.modified_pixel_coords.is_empty());
}

#[test]
fn the_autosave_by_the_clock_saves_what_is_long_due() {
    let mut system = ChunkSystem::new_at(1000, 0);
    let i = system.load_chunk(IVec2::new(1, 1), None);
    system.chunks[i].allocate_image();
    let mut outbox: Vec<Delivery> = Vec::new();
    system.chunks[i].set_pixels(&[pixel(0, 0, RED)], false, &mut outbox);
    let mut queue: Vec<IVec2> = Vec::new();
    let saves = system.tick_now(&mut queue).unwrap();
    assert_eq!(saves.len(), 1);
    assert!(system.last_autosave_timestamp > 1_600_000_000_000);
    assert!(system.tick_now(&mut queue).is_none());
}

#[test]
fn the_block_sent_for_the_base_is_kept_unless_new_or_modified() {
    let a = SessionHandle::new(1, 0);
    let mut outbox: Vec<Delivery> = Vec::new();

    let mut fresh = ChunkInstance::new(IVec2::new(0, 0), None);
    fresh.send_chunk_data_to_session(&a, &mut outbox);
    assert!(fresh.compressed_image_data.is_none());
    assert!(fresh.new_chunk);

    let stored = compress_lz4(&vec![9u8; 196608]);
    let mut kept = ChunkInstance::new(IVec2::new(0, 0), Some(stored.clone()));
    kept.send_chunk_data_to_session(&a, &mut outbox);
    assert_eq!(kept.compressed_image_data, Some(stored));

    let mut settled = ChunkInstance::new(IVec2::new(0, 0), None);
    settled.allocate_image();
    settled.send_chunk_data_to_session(&a, &mut outbox);
    let block = settled.compressed_image_data.clone().unwrap();
    assert_eq!(decompress_lz4(&block, 196608), Some(settled.snapshot()));

    let mut painted = ChunkInstance::new(IVec2::new(0, 0), None);
    painted.allocate_image();
    painted.set_pixels(&[pixel(1, 1, RED)], false, &mut outbox);
    painted.send_chunk_data_to_session(&a, &mut outbox);
    assert!(painted.modified);
    assert!(painted.compressed_image_data.is_none());
}

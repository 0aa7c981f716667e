use canvas_engine::compression::{compress_lz4, decompress_lz4};
use canvas_engine::database::{
    chunk_save_mode, migrate_chunk_to_version_1, needs_migration, rgb_to_rgba, ChunkTable,
    CompressionType, SaveMode, DATABASE_VERSION, SECONDS_BETWEEN_SNAPSHOTS,
};
use canvas_engine::preview_system::{
    decompress_and_blit, decompress_vec_lz4, downscale, process_one_block, BlockRequest,
    PreviewError, PreviewSystem, PreviewSystemLayer, Quad,
};
use canvas_engine::vector::IVec2;

#[test]
fn save_within_four_hours_overwrites_the_snapshot() {
    let mut table = ChunkTable::new();
    let pos = IVec2::new(3, -4);
    let first = table.chunk_save_data(pos, vec![1, 2, 3], CompressionType::Lz4, 1000);
    let second = table.chunk_save_data(pos, vec![4, 5], CompressionType::Lz4, 1000 + 14400);
    assert_eq!(first, second);
    assert_eq!(table.rows.len(), 1);
    let record = table.chunk_load_data(pos).unwrap();
    assert_eq!(record.data, vec![4, 5]);
    assert_eq!(record.created_at, 1000);
    assert_eq!(record.modified_at, 15400);
    assert_eq!(record.compression_type, CompressionType::Lz4);
}

#[test]
fn save_after_four_hours_adds_a_snapshot() {
    let mut table = ChunkTable::new();
    let pos = IVec2::new(3, -4);
    table.chunk_save_data(pos, vec![1, 2, 3], CompressionType::Lz4, 1000);
    let second = table.chunk_save_data(pos, vec![4, 5], CompressionType::Lz4, 1000 + 14401);
    assert_eq!(second, 1);
    assert_eq!(table.rows.len(), 2);
    assert_eq!(table.rows[0].data, vec![1, 2, 3]);
    let record = table.chunk_load_data(pos).unwrap();
    assert_eq!(record.data, vec![4, 5]);
    assert_eq!(record.created_at, 15401);
}

#[test]
fn load_of_an_unknown_chunk_gives_nothing() {
    let mut table = ChunkTable::new();
    assert!(table.chunk_load_data(IVec2::new(0, 0)).is_none());
    table.chunk_save_data(IVec2::new(1, 0), vec![1], CompressionType::Lz4, 5);
    assert!(table.chunk_load_data(IVec2::new(0, 1)).is_none());
    assert!(table.chunk_load_data(IVec2::new(1, 0)).is_some());
}

#[test]
fn list_all_names_each_chunk_once() {
    let mut table = ChunkTable::new();
    table.chunk_save_data(IVec2::new(1, 0), vec![1], CompressionType::Lz4, 5);
    table.chunk_save_data(IVec2::new(1, 0), vec![2], CompressionType::Lz4, 50000);
    table.chunk_save_data(IVec2::new(2, 2), vec![3], CompressionType::Lz4, 5);
    let all = table.chunk_list_all();
    assert_eq!(all.len(), 2);
    assert!(all.contains(&IVec2::new(1, 0)));
    assert!(all.contains(&IVec2::new(2, 2)));
}

#[test]
fn save_mode_by_the_age_of_the_snapshot() {
    assert_eq!(chunk_save_mode(None, 77), SaveMode::Insert);
    assert_eq!(chunk_save_mode(Some((100, 9)), 100 + 14400), SaveMode::Update(9));
    assert_eq!(chunk_save_mode(Some((100, 9)), 100 + 14401), SaveMode::Insert);
    assert_eq!(chunk_save_mode(Some((100, 9)), 50), SaveMode::Update(9));
    assert_eq!(SECONDS_BETWEEN_SNAPSHOTS, 14400);
}

#[test]
fn compression_type_codes() {
    assert_eq!(CompressionType::Lz4.code(), 1);
    assert_eq!(CompressionType::try_from(1), Some(CompressionType::Lz4));
    assert_eq!(CompressionType::try_from(0), None);
    assert_eq!(CompressionType::try_from(2), None);
}

#[test]
fn only_version_0_is_migrated() {
    assert!(needs_migration(0));
    assert!(!needs_migration(1));
    assert!(!needs_migration(DATABASE_VERSION));
}

#[test]
fn rgb_becomes_opaque_rgba() {
    assert_eq!(rgb_to_rgba(&[1, 2, 3, 4, 5, 6]), vec![1, 2, 3, 255, 4, 5, 6, 255]);
    assert_eq!(rgb_to_rgba(&[]), Vec::<u8>::new());
}

#[test]
fn migration_turns_a_stored_rgb_chunk_into_rgba() {
    let mut rgb = vec![0u8; 196608];
    rgb[0] = 10;
    rgb[1] = 20;
    rgb[2] = 30;
    rgb[196607] = 99;
    let stored = compress_lz4(&rgb);
    let migrated = migrate_chunk_to_version_1(&stored).unwrap();
    let rgba = decompress_lz4(&migrated, 262144).unwrap();
    assert_eq!(rgba.len(), 262144);
    assert_eq!(&rgba[0..4], &[10, 20, 30, 255]);
    assert_eq!(&rgba[262140..262144], &[0, 0, 99, 255]);
}

#[test]
fn migration_refuses_what_is_no_chunk() {
    assert!(migrate_chunk_to_version_1(&compress_lz4(&[1, 2, 3])).is_none());
    assert!(migrate_chunk_to_version_1(&[0xFF, 0xFF, 0xFF, 0x01]).is_none());
}

#[test]
fn downscale_of_equal_blocks_keeps_the_values() {
    let mut image = vec![0u8; 1048576];
    // every 2 x 2 block has one colour, which depends on the block
    for y in 0..512usize {
        for x in 0..512usize {
            let v = ((x / 2) * 3 + (y / 2) * 7) as u32;
            let at = (y * 512 + x) * 4;
            image[at] = (v % 256) as u8;
            image[at + 1] = (v / 3 % 256) as u8;
            image[at + 2] = (v / 5 % 256) as u8;
            image[at + 3] = 255;
        }
    }
    let out = downscale(&image);
    assert_eq!(out.len(), 262144);
    for y in 0..256usize {
        for x in 0..256usize {
            let from = (2 * y * 512 + 2 * x) * 4;
            let at = (y * 256 + x) * 4;
            assert_eq!(&out[at..at + 4], &image[from..from + 4]);
        }
    }
}

#[test]
fn downscale_takes_the_mean_of_four() {
    let mut image = vec![0u8; 1048576];
    image[0] = 10;
    image[4] = 20;
    image[2048] = 30;
    image[2052] = 41;
    let out = downscale(&image);
    assert_eq!(out[0], 25);
}

#[test]
fn a_tile_is_copied_into_its_quarter() {
    let mut tile = vec![0u8; 262144];
    tile[0] = 1;
    tile[262143] = 2;
    let block = compress_lz4(&tile);
    let mut out = vec![7u8; 1048576];
    assert_eq!(decompress_and_blit(&block, 1, 0, &mut out), Ok(()));
    assert_eq!(out[0], 7);
    assert_eq!(out[256 * 4], 1);
    assert_eq!(out[255 * 2048 + 511 * 4 + 3], 2);
    assert_eq!(out[256 * 2048 + 256 * 4], 7);
}

#[test]
fn an_opaque_tile_is_taken_as_rgba() {
    let mut tile = vec![0u8; 196608];
    tile[0] = 1;
    tile[1] = 2;
    tile[2] = 3;
    let block = compress_lz4(&tile);
    let mut out = vec![7u8; 1048576];
    assert_eq!(decompress_and_blit(&block, 0, 1, &mut out), Ok(()));
    assert_eq!(&out[256 * 2048..256 * 2048 + 4], &[1, 2, 3, 255]);
    assert_eq!(out[0], 7);
}

#[test]
fn an_empty_block_leaves_the_quarter() {
    let mut out = vec![7u8; 1048576];
    assert_eq!(decompress_and_blit(&[], 0, 0, &mut out), Ok(()));
    assert!(out.iter().all(|b| *b == 7));
}

#[test]
fn blocks_that_are_no_tiles_are_refused() {
    let mut out = vec![7u8; 1048576];
    assert_eq!(
        decompress_and_blit(&compress_lz4(&[1, 2, 3]), 0, 0, &mut out),
        Err(PreviewError::NotATile)
    );
    assert_eq!(
        decompress_and_blit(&[0xFF, 0xFF, 0xFF, 0x01], 0, 0, &mut out),
        Err(PreviewError::Undecodable)
    );
    assert!(out.iter().all(|b| *b == 7));
    assert!(matches!(decompress_vec_lz4(&[0xFF, 0xFF, 0xFF, 0x01]), Err(PreviewError::Undecodable)));
    assert_eq!(decompress_vec_lz4(&[]), Ok(Vec::new()));
}

#[test]
fn a_preview_layer_queues_each_tile_once() {
    let mut layer = PreviewSystemLayer::new(1);
    layer.add_to_queue(IVec2::new(1, 1));
    layer.add_to_queue(IVec2::new(2, 1));
    layer.add_to_queue(IVec2::new(1, 1));
    assert_eq!(layer.update_queue, vec![IVec2::new(1, 1), IVec2::new(2, 1)]);
}

#[test]
fn a_preview_system_has_five_levels() {
    let system = PreviewSystem::new();
    assert_eq!(system.layers.len(), 5);
    for (i, layer) in system.layers.iter().enumerate() {
        assert_eq!(layer.zoom as usize, i + 1);
        assert!(layer.update_queue.is_empty());
    }
    assert_eq!(PreviewSystem::layer_index_to_zoom(0), 1);
    assert_eq!(PreviewSystem::layer_index_to_zoom(4), 5);
}

#[test]
fn saved_chunks_wait_on_the_first_level() {
    let mut system = PreviewSystem::new();
    system.update_queue_cache.push(IVec2::new(0, 0));
    system.update_queue_cache.push(IVec2::new(-1, 3));
    system.update_queue_cache.push(IVec2::new(0, 0));
    system.process_queue();
    assert!(system.update_queue_cache.is_empty());
    assert_eq!(system.layers[0].update_queue, vec![IVec2::new(0, 0), IVec2::new(-1, 3)]);
    assert!(system.layers[1].update_queue.is_empty());
}

#[test]
fn a_block_of_four_tiles_is_fused() {
    let mut layer = PreviewSystemLayer::new(1);
    layer.add_to_queue(IVec2::new(1, -1));
    let request: BlockRequest = layer.begin_block().unwrap();
    assert_eq!(request.position, IVec2::new(1, -1));
    assert_eq!(request.zoom, 1);
    assert!(request.from_chunks);
    assert_eq!(request.children.topleft, IVec2::new(2, -2));
    assert_eq!(request.children.topright, IVec2::new(3, -2));
    assert_eq!(request.children.bottomleft, IVec2::new(2, -1));
    assert_eq!(request.children.bottomright, IVec2::new(3, -1));
    assert!(layer.begin_block().is_none());

    let red = {
        let mut t = vec![0u8; 262144];
        for p in 0..65536 {
            t[p * 4] = 200;
            t[p * 4 + 3] = 255;
        }
        compress_lz4(&t)
    };
    let quad = Quad { topleft: red, topright: Vec::new(), bottomleft: Vec::new(), bottomright: Vec::new() };
    let result = process_one_block(&request, &quad).unwrap();
    assert!(result.has_more);
    assert_eq!(result.upper_pos, IVec2::new(0, -1));
    let tile = decompress_lz4(&result.data, 262144).unwrap();
    assert_eq!(tile.len(), 262144);
    assert_eq!(&tile[0..4], &[200, 0, 0, 255]);
    assert_eq!(&tile[127 * 4..128 * 4], &[200, 0, 0, 255]);
    assert_eq!(&tile[128 * 4..129 * 4], &[0, 0, 0, 0]);
    assert_eq!(&tile[128 * 1024..128 * 1024 + 4], &[0, 0, 0, 0]);
}

#[test]
fn a_block_with_a_broken_tile_is_refused() {
    let request = BlockRequest {
        position: IVec2::new(0, 0),
        zoom: 2,
        children: Quad {
            topleft: IVec2::new(0, 0),
            topright: IVec2::new(1, 0),
            bottomleft: IVec2::new(0, 1),
            bottomright: IVec2::new(1, 1),
        },
        from_chunks: false,
    };
    let quad = Quad {
        topleft: Vec::new(),
        topright: vec![0xFF, 0xFF, 0xFF, 0x01],
        bottomleft: Vec::new(),
        bottomright: Vec::new(),
    };
    assert!(matches!(process_one_block(&request, &quad), Err(PreviewError::Undecodable)));
}

#[test]
fn a_stored_chunk_with_transparency_loses_it_for_the_base() {
    let mut rgba = vec![255u8; 262144];
    rgba[0] = 1;
    rgba[1] = 2;
    rgba[2] = 3;
    rgba[3] = 0;
    let block = canvas_engine::database::stored_chunk_block(compress_lz4(&rgba)).unwrap();
    let rgb = decompress_lz4(&block, 196608).unwrap();
    assert_eq!(rgb.len(), 196608);
    assert_eq!(&rgb[0..6], &[1, 2, 3, 255, 255, 255]);
    assert_eq!(canvas_engine::database::rgba_to_rgb(&[1, 2, 3, 4, 5, 6, 7, 8]), vec![1, 2, 3, 5, 6, 7]);
}

#[test]
fn a_stored_chunk_without_transparency_is_kept() {
    let stored = compress_lz4(&vec![9u8; 196608]);
    assert_eq!(canvas_engine::database::stored_chunk_block(stored.clone()), Some(stored));
    assert_eq!(canvas_engine::database::stored_chunk_block(compress_lz4(&[1, 2, 3])), None);
    assert_eq!(canvas_engine::database::stored_chunk_block(vec![0xFF, 0xFF, 0xFF, 0x01]), None);
}

#[test]
fn by_the_clock_a_snapshot_of_the_far_future_is_overwritten() {
    assert_eq!(canvas_engine::database::chunk_save_mode_now(None), SaveMode::Insert);
    assert_eq!(
        canvas_engine::database::chunk_save_mode_now(Some((u64::MAX, 7))),
        SaveMode::Update(7)
    );
    assert_eq!(canvas_engine::database::chunk_save_mode_now(Some((0, 7))), SaveMode::Insert);
}

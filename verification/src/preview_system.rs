//! The pyramid of downscaled preview tiles: which tiles wait to be
//! rendered, and how four tiles are fused into the tile above them.

use vstd::prelude::*;
use crate::database::{rgb_to_rgba, rgba_of_rgb};
use crate::chunk::chunk::{floor_half, upper_pos};
use crate::chunk::system::list_contains;
use crate::compression::{compress_lz4, decompress_lz4, lz4_block, lz4_unblock};
use crate::database::{ChunkDatabaseRecord, PreviewDatabaseRecord};
use crate::limits::PREVIEW_SYSTEM_LAYER_COUNT;
use crate::tool::reach::{clamp, clamp_coord};
use crate::vector::IVec2;

verus! {

/// One level of the pyramid: the tiles of one zoom that wait to be
/// rendered. No tile waits twice.
pub struct PreviewSystemLayer {
    pub zoom: u8,
    pub update_queue: Vec<IVec2>,
}

/// The pyramid.
pub struct PreviewSystem {
    pub layers: Vec<PreviewSystemLayer>,
    /// Chunks that were saved since the pyramid was last rendered.
    pub update_queue_cache: Vec<IVec2>,
}

/// Why a tile could not be rendered.
#[derive(Clone, Copy, PartialEq, Eq, Structural, Debug)]
pub enum PreviewError {
    /// A block below the tile does not decode.
    Undecodable,
    /// A block below the tile decodes to something that is not a tile.
    NotATile,
}

/// The four tiles below a tile, or the four chunks below a tile of zoom 1.
pub struct Quad<T> {
    pub topleft: T,
    pub topright: T,
    pub bottomleft: T,
    pub bottomright: T,
}

/// A tile to render: where it lies, and where the four tiles below it are
/// found.
pub struct BlockRequest {
    pub position: IVec2,
    pub zoom: u8,
    pub children: Quad<IVec2>,
    /// The four below are chunks, not preview tiles.
    pub from_chunks: bool,
}

/// A rendered tile.
pub struct PreviewProcessResult {
    pub has_more: bool,
    /// The tile one level up that covers the rendered one.
    pub upper_pos: IVec2,
    /// The LZ4 block of the rendered tile.
    pub data: Vec<u8>,
}

/// The tile below `pos` at column `dx` and row `dy` of the four.
pub open spec fn child_pos(pos: IVec2, dx: int, dy: int) -> IVec2 {
    IVec2 { x: clamp_coord(pos.x * 2 + dx), y: clamp_coord(pos.y * 2 + dy) }
}

/// `queue` with `coords` behind it, unless it waits there already.
pub open spec fn enqueued(queue: Seq<IVec2>, coords: IVec2) -> Seq<IVec2> {
    if queue.contains(coords) {
        queue
    } else {
        queue.push(coords)
    }
}

/// `queue` with each of the first `n` of `more` behind it that does not
/// wait there already.
pub open spec fn enqueued_all(queue: Seq<IVec2>, more: Seq<IVec2>, n: int) -> Seq<IVec2>
    decreases n,
{
    if n <= 0 {
        queue
    } else {
        enqueued(enqueued_all(queue, more, n - 1), more[n - 1])
    }
}

/// The pixels that a stored block stands for: none for an empty block, else
/// what it decodes to, which must be nothing, a tile with transparency, or
/// a tile without, which is taken as opaque.
pub open spec fn tile_of(compressed: Seq<u8>) -> Result<Seq<u8>, PreviewError> {
    if compressed.len() == 0 {
        Ok(Seq::empty())
    } else {
        match lz4_unblock(compressed, 262144) {
            None => Err(PreviewError::Undecodable),
            Some(data) => if data.len() == 0 || data.len() == 262144 {
                Ok(data)
            } else if data.len() == 196608 {
                Ok(rgba_of_rgb(data))
            } else {
                Err(PreviewError::NotATile)
            },
        }
    }
}

/// The image of 512 × 512 pixels `out` with the tile `tile` copied into
/// its quarter at column `x` and row `y`; an empty tile leaves it as it is.
pub open spec fn blitted(out: Seq<u8>, tile: Seq<u8>, x: int, y: int) -> Seq<u8> {
    Seq::new(
        1048576,
        |i: int|
            {
                let py = i / 2048;
                let px = (i % 2048) / 4;
                if tile.len() > 0 && px / 256 == x && py / 256 == y {
                    tile[(py - 256 * y) * 1024 + (px - 256 * x) * 4 + i % 4]
                } else {
                    out[i]
                }
            },
    )
}

/// The image of 512 × 512 pixels at half its size: each channel of each
/// pixel is the mean, rounded down, of the four pixels that it covers.
pub open spec fn downscaled(image: Seq<u8>) -> Seq<u8> {
    Seq::new(
        262144,
        |i: int|
            {
                let y = i / 1024;
                let x = (i % 1024) / 4;
                let ch = i % 4;
                ((image[(2 * y) * 2048 + (2 * x) * 4 + ch] + image[(2 * y + 1) * 2048 + (2 * x) * 4
                    + ch] + image[(2 * y) * 2048 + (2 * x + 1) * 4 + ch] + image[(2 * y + 1) * 2048
                    + (2 * x + 1) * 4 + ch]) / 4) as u8
            },
    )
}

/// The four tiles fused into one image of 512 × 512 pixels.
pub open spec fn fused(topleft: Seq<u8>, topright: Seq<u8>, bottomleft: Seq<u8>, bottomright: Seq<u8>) -> Seq<
    u8,
> {
    blitted(
        blitted(
            blitted(
                blitted(Seq::new(1048576, |i: int| 0u8), topleft, 0, 0),
                topright,
                1,
                0,
            ),
            bottomleft,
            0,
            1,
        ),
        bottomright,
        1,
        1,
    )
}

/// Where four pixels that a downscaled pixel covers hold the same value in
/// a channel, the downscaled pixel holds exactly that value.
pub proof fn lemma_downscale_of_equal(image: Seq<u8>, x: int, y: int, ch: int)
    requires
        image.len() == 1048576,
        0 <= x < 256,
        0 <= y < 256,
        0 <= ch < 4,
        image[(2 * y) * 2048 + (2 * x) * 4 + ch] == image[(2 * y + 1) * 2048 + (2 * x) * 4 + ch],
        image[(2 * y) * 2048 + (2 * x) * 4 + ch] == image[(2 * y) * 2048 + (2 * x + 1) * 4 + ch],
        image[(2 * y) * 2048 + (2 * x) * 4 + ch] == image[(2 * y + 1) * 2048 + (2 * x + 1) * 4 + ch],
    ensures
        downscaled(image)[y * 1024 + x * 4 + ch] == image[(2 * y) * 2048 + (2 * x) * 4 + ch],
{
    let i = y * 1024 + x * 4 + ch;
    assert(i / 1024 == y && (i % 1024) / 4 == x && i % 4 == ch);
}

/// The bytes of a stored chunk, none where there is no record.
pub fn extract_chunk_record(record: Option<ChunkDatabaseRecord>) -> (data: Vec<u8>)
    ensures
        data@ == match record {
            Some(r) => r.data@,
            None => Seq::<u8>::empty(),
        },
{
    match record {
        Some(record) => record.data,
        None => Vec::new(),
    }
}

/// The bytes of a stored preview tile, none where there is no record.
pub fn extract_preview_record(record: Option<PreviewDatabaseRecord>) -> (data: Vec<u8>)
    ensures
        data@ == match record {
            Some(r) => r.data@,
            None => Seq::<u8>::empty(),
        },
{
    match record {
        Some(record) => record.data,
        None => Vec::new(),
    }
}

/// Decodes a stored block into the pixels of a tile; an empty block stands
/// for no pixels.
pub fn decompress_vec_lz4(compressed: &[u8]) -> (data: Result<Vec<u8>, PreviewError>)
    ensures
        compressed@.len() == 0 ==> data is Ok && data->Ok_0@.len() == 0,
        compressed@.len() > 0 ==> match data {
            Ok(d) => lz4_unblock(compressed@, 262144) == Some(d@),
            Err(e) => lz4_unblock(compressed@, 262144) is None && e == PreviewError::Undecodable,
        },
{
    if compressed.len() == 0 {
        return Ok(Vec::new());
    }
    match decompress_lz4(compressed, 262144) {
        Some(data) => Ok(data),
        None => Err(PreviewError::Undecodable),
    }
}

/// Copies the tile `in_data` into the quarter at column `x` and row `y` of
/// the image `out_data` of 512 × 512 pixels. An empty tile is left out.
pub fn fill_image(out_data: &mut Vec<u8>, in_data: &[u8], x: u32, y: u32)
    requires
        old(out_data)@.len() == 1048576,
        in_data@.len() == 0 || in_data@.len() == 262144,
        x <= 1,
        y <= 1,
    ensures
        final(out_data)@ == blitted(old(out_data)@, in_data@, x as int, y as int),
{
    if in_data.len() == 0 {
        assert(out_data@ =~= blitted(old(out_data)@, in_data@, x as int, y as int));
        return ;
    }
    let offset_x: usize = 256 * x as usize;
    let offset_y: usize = 256 * y as usize;
    let ghost before = out_data@;
    let ghost want = blitted(before, in_data@, x as int, y as int);
    let mut local_y: usize = 0;
    while local_y < 256
        invariant
            local_y <= 256,
            out_data@.len() == 1048576,
            in_data@.len() == 262144,
            x <= 1,
            y <= 1,
            offset_x == 256 * x,
            offset_y == 256 * y,
            want == blitted(before, in_data@, x as int, y as int),
            forall|i: int|
                0 <= i < 1048576 ==> out_data@[i] == if i / 2048 < offset_y + local_y {
                    want[i]
                } else {
                    before[i]
                },
        decreases 256 - local_y,
    {
        let mut local_x: usize = 0;
        while local_x < 256
            invariant
                local_y < 256,
                local_x <= 256,
                out_data@.len() == 1048576,
                in_data@.len() == 262144,
                x <= 1,
                y <= 1,
                offset_x == 256 * x,
                offset_y == 256 * y,
                want == blitted(before, in_data@, x as int, y as int),
                forall|i: int|
                    0 <= i < 1048576 ==> out_data@[i] == if i / 2048 < offset_y + local_y || (i
                        / 2048 == offset_y + local_y && (i % 2048) / 4 < offset_x + local_x && (i
                        % 2048) / 4 >= offset_x) {
                        want[i]
                    } else {
                        before[i]
                    },
            decreases 256 - local_x,
        {
            let target_x = offset_x + local_x;
            let target_y = offset_y + local_y;
            let offset_in = local_y * 1024 + local_x * 4;
            let offset_out = target_y * 2048 + target_x * 4;
            let ghost mid = out_data@;
            out_data[offset_out] = in_data[offset_in];
            out_data[offset_out + 1] = in_data[offset_in + 1];
            out_data[offset_out + 2] = in_data[offset_in + 2];
            out_data[offset_out + 3] = in_data[offset_in + 3];
            proof {
                assert forall|i: int| 0 <= i < 1048576 implies out_data@[i] == if i / 2048 < offset_y
                    + local_y || (i / 2048 == offset_y + local_y && (i % 2048) / 4 < offset_x
                    + local_x + 1 && (i % 2048) / 4 >= offset_x) {
                    want[i]
                } else {
                    before[i]
                } by {
                    if offset_out <= i < offset_out + 4 {
                        assert(i / 2048 == target_y && (i % 2048) / 4 == target_x);
                        assert(i % 4 == i - offset_out);
                    } else {
                        assert(out_data@[i] == mid[i]);
                    }
                }
            }
            local_x += 1;
        }
        proof {
            assert forall|i: int| 0 <= i < 1048576 implies out_data@[i] == if i / 2048 < offset_y
                + local_y + 1 {
                want[i]
            } else {
                before[i]
            } by {
                if i / 2048 == offset_y + local_y {
                    let px = (i % 2048) / 4;
                    if !(offset_x <= px < offset_x + 256) {
                        assert(px / 256 != x);
                    }
                } else if i / 2048 < offset_y + local_y {
                } else {
                }
            }
        }
        local_y += 1;
    }
    proof {
        assert forall|i: int| 0 <= i < 1048576 implies out_data@[i] == want[i] by {
            if i / 2048 >= offset_y + 256 {
                assert((i / 2048) / 256 != y);
            }
        }
        assert(out_data@ =~= want);
    }
}

/// Decodes the stored block `compressed` and copies its tile into the
/// quarter at column `x` and row `y` of `out_rgba`.
pub fn decompress_and_blit(compressed: &[u8], x: u32, y: u32, out_rgba: &mut Vec<u8>) -> (done: Result<
    (),
    PreviewError,
>)
    requires
        old(out_rgba)@.len() == 1048576,
        x <= 1,
        y <= 1,
    ensures
        final(out_rgba)@.len() == 1048576,
        match done {
            Ok(()) => tile_of(compressed@) is Ok && final(out_rgba)@ == blitted(
                old(out_rgba)@,
                tile_of(compressed@)->Ok_0,
                x as int,
                y as int,
            ),
            Err(e) => tile_of(compressed@) == Err::<Seq<u8>, PreviewError>(e) && final(out_rgba)@
                == old(out_rgba)@,
        },
{
    let data = match decompress_vec_lz4(compressed) {
        Ok(d) => d,
        Err(e) => {
            return Err(e);
        },
    };
    if data.len() == 196608 {
        let opaque = rgb_to_rgba(data.as_slice());
        fill_image(out_rgba, opaque.as_slice(), x, y);
        return Ok(());
    }
    if data.len() != 0 && data.len() != 262144 {
        return Err(PreviewError::NotATile);
    }
    fill_image(out_rgba, data.as_slice(), x, y);
    Ok(())
}

/// The image of 512 × 512 pixels at half its size.
pub fn downscale(rgba: &Vec<u8>) -> (out: Vec<u8>)
    requires
        rgba@.len() == 1048576,
    ensures
        out@ == downscaled(rgba@),
{
    let mut out: Vec<u8> = vec![0u8; 262144];
    let mut y: usize = 0;
    while y < 256
        invariant
            y <= 256,
            rgba@.len() == 1048576,
            out@.len() == 262144,
            forall|i: int| 0 <= i < y * 1024 ==> out@[i] == downscaled(rgba@)[i],
        decreases 256 - y,
    {
        let mut x: usize = 0;
        while x < 256
            invariant
                y < 256,
                x <= 256,
                rgba@.len() == 1048576,
                out@.len() == 262144,
                forall|i: int| 0 <= i < y * 1024 + x * 4 ==> out@[i] == downscaled(rgba@)[i],
            decreases 256 - x,
        {
            let in_x = x * 2;
            let in_y = y * 2;
            let mut channel: usize = 0;
            while channel < 4
                invariant
                    y < 256,
                    x < 256,
                    channel <= 4,
                    in_x == x * 2,
                    in_y == y * 2,
                    rgba@.len() == 1048576,
                    out@.len() == 262144,
                    forall|i: int|
                        0 <= i < y * 1024 + x * 4 + channel ==> out@[i] == downscaled(rgba@)[i],
                decreases 4 - channel,
            {
                let sum: u32 = rgba[in_y * 2048 + in_x * 4 + channel] as u32 + rgba[(in_y + 1) * 2048
                    + in_x * 4 + channel] as u32 + rgba[in_y * 2048 + (in_x + 1) * 4 + channel] as u32
                    + rgba[(in_y + 1) * 2048 + (in_x + 1) * 4 + channel] as u32;
                let at = y * 1024 + x * 4 + channel;
                assert(at / 1024 == y && (at % 1024) / 4 == x && at % 4 == channel);
                out[at] = (sum / 4) as u8;
                channel += 1;
            }
            x += 1;
        }
        y += 1;
    }
    assert(out@ =~= downscaled(rgba@));
    out
}

/// Renders one tile from the four stored blocks below it: the four are
/// decoded and fused into one image, the image is downscaled to half its
/// size, and the result is compressed, into a block that decodes back to
/// the downscaled image.
pub fn process_one_block(request: &BlockRequest, compressed: &Quad<Vec<u8>>) -> (result: Result<
    PreviewProcessResult,
    PreviewError,
>)
    ensures
        match result {
            Ok(done) => {
                &&& tile_of(compressed.topleft@) is Ok
                &&& tile_of(compressed.topright@) is Ok
                &&& tile_of(compressed.bottomleft@) is Ok
                &&& tile_of(compressed.bottomright@) is Ok
                &&& done.data@ == lz4_block(
                    downscaled(
                        fused(
                            tile_of(compressed.topleft@)->Ok_0,
                            tile_of(compressed.topright@)->Ok_0,
                            tile_of(compressed.bottomleft@)->Ok_0,
                            tile_of(compressed.bottomright@)->Ok_0,
                        ),
                    ),
                )
                &&& lz4_unblock(done.data@, 262144) == Some(
                    downscaled(
                        fused(
                            tile_of(compressed.topleft@)->Ok_0,
                            tile_of(compressed.topright@)->Ok_0,
                            tile_of(compressed.bottomleft@)->Ok_0,
                            tile_of(compressed.bottomright@)->Ok_0,
                        ),
                    ),
                )
                &&& done.has_more
                &&& done.upper_pos == upper_pos(request.position)
            },
            Err(e) => {
                if tile_of(compressed.topleft@) is Err {
                    tile_of(compressed.topleft@) == Err::<Seq<u8>, PreviewError>(e)
                } else if tile_of(compressed.topright@) is Err {
                    tile_of(compressed.topright@) == Err::<Seq<u8>, PreviewError>(e)
                } else if tile_of(compressed.bottomleft@) is Err {
                    tile_of(compressed.bottomleft@) == Err::<Seq<u8>, PreviewError>(e)
                } else {
                    tile_of(compressed.bottomright@) == Err::<Seq<u8>, PreviewError>(e)
                }
            },
        },
{
    let mut rgba: Vec<u8> = vec![0u8; 1048576];
    assert(rgba@ =~= Seq::new(1048576, |i: int| 0u8));
    match decompress_and_blit(compressed.topleft.as_slice(), 0, 0, &mut rgba) {
        Ok(()) => {},
        Err(e) => {
            return Err(e);
        },
    }
    match decompress_and_blit(compressed.topright.as_slice(), 1, 0, &mut rgba) {
        Ok(()) => {},
        Err(e) => {
            return Err(e);
        },
    }
    match decompress_and_blit(compressed.bottomleft.as_slice(), 0, 1, &mut rgba) {
        Ok(()) => {},
        Err(e) => {
            return Err(e);
        },
    }
    match decompress_and_blit(compressed.bottomright.as_slice(), 1, 1, &mut rgba) {
        Ok(()) => {},
        Err(e) => {
            return Err(e);
        },
    }
    let small = downscale(&rgba);
    let data = compress_lz4(small.as_slice());
    let upper = IVec2 { x: floor_half(request.position.x), y: floor_half(request.position.y) };
    Ok(PreviewProcessResult { has_more: true, upper_pos: upper, data })
}

/// The zoom of the level at `index` of the pyramid.
pub fn layer_index_to_zoom(index: u8) -> (zoom: u8)
    requires
        index < 255,
    ensures
        zoom == index + 1,
{
    index + 1
}

/// The levels of an empty pyramid: zoom 1 to 5.
pub fn init_layers_vec() -> (layers: Vec<PreviewSystemLayer>)
    ensures
        layers@.len() == 5,
        forall|i: int|
            0 <= i < 5 ==> (#[trigger] layers@[i]).zoom == i + 1 && layers@[i].update_queue@.len()
                == 0,
{
    let mut layers: Vec<PreviewSystemLayer> = Vec::new();
    let mut i: u8 = 0;
    while i < PREVIEW_SYSTEM_LAYER_COUNT
        invariant
            i <= 5,
            layers@.len() == i,
            forall|j: int|
                0 <= j < i ==> (#[trigger] layers@[j]).zoom == j + 1 && layers@[j].update_queue@.len()
                    == 0,
        decreases 5 - i,
    {
        layers.push(PreviewSystemLayer::new(layer_index_to_zoom(i)));
        i += 1;
    }
    layers
}

impl PreviewSystemLayer {
    /// No tile waits twice.
    pub open spec fn wf(&self) -> bool {
        self.update_queue@.no_duplicates()
    }

    /// A level of the given zoom on which no tile waits.
    pub fn new(zoom: u8) -> (layer: Self)
        ensures
            layer.zoom == zoom,
            layer.update_queue@.len() == 0,
            layer.wf(),
    {
        PreviewSystemLayer { zoom, update_queue: Vec::new() }
    }

    /// Lets the tile at `coords` wait to be rendered, unless it waits
    /// already.
    pub fn add_to_queue(&mut self, coords: IVec2)
        requires
            old(self).wf(),
        ensures
            final(self).wf(),
            final(self).zoom == old(self).zoom,
            final(self).update_queue@ == enqueued(old(self).update_queue@, coords),
    {
        if list_contains(&self.update_queue, coords) {
            return ;
        }
        self.update_queue.push(coords);
        proof {
            let q = self.update_queue@;
            let before = old(self).update_queue@;
            assert forall|a: int, b: int| 0 <= a < q.len() && 0 <= b < q.len() && a != b implies q[a]
                != q[b] by {
                if a < before.len() {
                    assert(q[a] == before[a]);
                }
                if b < before.len() {
                    assert(q[b] == before[b]);
                }
            }
        }
    }

    /// Takes the tile that waits last, and says where the four below it are
    /// found: among the chunks for zoom 1, one level down else.
    pub fn begin_block(&mut self) -> (request: Option<BlockRequest>)
        requires
            old(self).wf(),
        ensures
            final(self).wf(),
            final(self).zoom == old(self).zoom,
            old(self).update_queue@.len() == 0 ==> request is None && final(self).update_queue@.len()
                == 0,
            old(self).update_queue@.len() > 0 ==> {
                &&& request is Some
                &&& final(self).update_queue@ == old(self).update_queue@.drop_last()
                &&& request->Some_0.position == old(self).update_queue@.last()
                &&& request->Some_0.zoom == old(self).zoom
                &&& request->Some_0.from_chunks == (old(self).zoom == 1)
                &&& request->Some_0.children.topleft == child_pos(request->Some_0.position, 0, 0)
                &&& request->Some_0.children.topright == child_pos(request->Some_0.position, 1, 0)
                &&& request->Some_0.children.bottomleft == child_pos(request->Some_0.position, 0, 1)
                &&& request->Some_0.children.bottomright == child_pos(request->Some_0.position, 1, 1)
            },
    {
        let position = match self.update_queue.pop() {
            Some(p) => p,
            None => {
                return None;
            },
        };
        proof {
            let q = self.update_queue@;
            let before = old(self).update_queue@;
            assert(q =~= before.drop_last());
            assert forall|a: int, b: int| 0 <= a < q.len() && 0 <= b < q.len() && a != b implies q[a]
                != q[b] by {
                assert(q[a] == before[a] && q[b] == before[b]);
            }
        }
        let x2: i64 = position.x as i64 * 2;
        let y2: i64 = position.y as i64 * 2;
        Some(
            BlockRequest {
                position,
                zoom: self.zoom,
                children: Quad {
                    topleft: IVec2 { x: clamp(x2), y: clamp(y2) },
                    topright: IVec2 { x: clamp(x2 + 1), y: clamp(y2) },
                    bottomleft: IVec2 { x: clamp(x2), y: clamp(y2 + 1) },
                    bottomright: IVec2 { x: clamp(x2 + 1), y: clamp(y2 + 1) },
                },
                from_chunks: self.zoom == 1,
            },
        )
    }
}

impl PreviewSystem {
    /// On no level a tile waits twice.
    pub open spec fn wf(&self) -> bool {
        forall|i: int| 0 <= i < self.layers@.len() ==> (#[trigger] self.layers@[i]).wf()
    }

    /// A pyramid of five levels on which nothing waits.
    pub fn new() -> (system: Self)
        ensures
            system.wf(),
            system.layers@.len() == 5,
            system.update_queue_cache@.len() == 0,
            forall|i: int|
                0 <= i < 5 ==> (#[trigger] system.layers@[i]).zoom == i + 1
                    && system.layers@[i].update_queue@.len() == 0,
    {
        let layers = init_layers_vec();
        assert forall|i: int| 0 <= i < layers@.len() implies (#[trigger] layers@[i]).wf() by {
            assert(layers@[i].update_queue@.len() == 0);
        }
        PreviewSystem { layers, update_queue_cache: Vec::new() }
    }

    /// The zoom of the level at `index`.
    pub fn layer_index_to_zoom(index: u8) -> (zoom: u8)
        requires
            index < 255,
        ensures
            zoom == index + 1,
    {
        index + 1
    }

    /// Lets the tiles above the chunks saved since the last rendering wait
    /// on the first level.
    pub fn process_queue(&mut self)
        requires
            old(self).wf(),
            old(self).layers@.len() > 0,
        ensures
            final(self).wf(),
            final(self).update_queue_cache@.len() == 0,
            final(self).layers@.len() == old(self).layers@.len(),
            final(self).layers@[0].zoom == old(self).layers@[0].zoom,
            final(self).layers@[0].update_queue@ == enqueued_all(
                old(self).layers@[0].update_queue@,
                old(self).update_queue_cache@,
                old(self).update_queue_cache@.len() as int,
            ),
            forall|i: int|
                1 <= i < old(self).layers@.len() ==> #[trigger] final(self).layers@[i] == old(
                    self,
                ).layers@[i],
    {
        let mut pending: Vec<IVec2> = Vec::new();
        std::mem::swap(&mut pending, &mut self.update_queue_cache);
        let mut k: usize = 0;
        while k < pending.len()
            invariant
                k <= pending@.len(),
                pending@ == old(self).update_queue_cache@,
                self.wf(),
                self.update_queue_cache@.len() == 0,
                self.layers@.len() == old(self).layers@.len(),
                self.layers@.len() > 0,
                self.layers@[0].zoom == old(self).layers@[0].zoom,
                self.layers@[0].update_queue@ == enqueued_all(
                    old(self).layers@[0].update_queue@,
                    pending@,
                    k as int,
                ),
                forall|i: int|
                    1 <= i < old(self).layers@.len() ==> #[trigger] self.layers@[i] == old(
                        self,
                    ).layers@[i],
            decreases pending@.len() - k,
        {
            let ghost before = self.layers@;
            self.layers[0].add_to_queue(pending[k]);
            proof {
                assert forall|i: int| 0 <= i < self.layers@.len() implies (#[trigger] self.layers@[i]).wf() by {
                    if i > 0 {
                        assert(self.layers@[i] == before[i]);
                    }
                }
            }
            k += 1;
        }
    }

    /// Takes the levels out to be rendered and leaves an empty pyramid, so
    /// that tiles can wait anew while the taken ones are rendered.
    pub fn take_layers(&mut self) -> (taken: Vec<PreviewSystemLayer>)
        requires
            old(self).wf(),
        ensures
            final(self).wf(),
            taken@ == old(self).layers@,
            final(self).layers@.len() == 5,
            forall|i: int|
                0 <= i < 5 ==> (#[trigger] final(self).layers@[i]).zoom == i + 1 && final(self).layers@[i].update_queue@.len() == 0,
            final(self).update_queue_cache == old(self).update_queue_cache,
    {
        let mut taken = init_layers_vec();
        assert forall|i: int| 0 <= i < taken@.len() implies (#[trigger] taken@[i]).wf() by {
            assert(taken@[i].update_queue@.len() == 0);
        }
        std::mem::swap(&mut taken, &mut self.layers);
        taken
    }

    /// After the tile of level `index` was rendered, lets the tile above it
    /// wait on the next level, if there is one.
    pub fn finish_block(layers: &mut Vec<PreviewSystemLayer>, index: usize, upper_pos: IVec2)
        requires
            index < old(layers)@.len(),
            forall|i: int| 0 <= i < old(layers)@.len() ==> (#[trigger] old(layers)@[i]).wf(),
        ensures
            final(layers)@.len() == old(layers)@.len(),
            forall|i: int| 0 <= i < final(layers)@.len() ==> (#[trigger] final(layers)@[i]).wf(),
            forall|i: int|
                0 <= i < old(layers)@.len() && i != index + 1 ==> #[trigger] final(layers)@[i] == old(
                    layers,
                )@[i],
            index + 1 < old(layers)@.len() ==> final(layers)@[index + 1].zoom == old(layers)@[index
                + 1].zoom && final(layers)@[index + 1].update_queue@ == enqueued(
                old(layers)@[index + 1].update_queue@,
                upper_pos,
            ),
    {
        if index < layers.len() - 1 {
            let ghost before = layers@;
            layers[index + 1].add_to_queue(upper_pos);
            proof {
                assert forall|i: int| 0 <= i < layers@.len() implies (#[trigger] layers@[i]).wf() by {
                    if i != index + 1 {
                        assert(layers@[i] == before[i]);
                    }
                }
            }
        }
    }
}

} // verus!

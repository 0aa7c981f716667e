//! One chunk: its base image, its overlays, the sessions that watch it and
//! the frames that tell them of every change.

use vstd::prelude::*;
use crate::buffer::{buffer_as_slice, buffer_len, buffer_new, buffer_put_u8, written};
use crate::chunk::compositor::{
    composed_pixel, is_composite, layer_ids, lemma_composite_unique, lemma_session_picks,
    picks_valid, pos_of_index, session_has_layer, session_picks, Compositor, LayerEntry, LayerID,
};
use crate::chunk::layer::{
    filled, lemma_rgb_put_all_len, lemma_rgb_put_same, rgb_at, rgb_offset, rgb_put, rgb_put_all,
    ChunkPixelRGB, ChunkPixelRGBA, LayerRGB, RGBData,
};
use crate::chunk::picks::{picked, LayerPicks};
use crate::compression::{
    compress_lz4, decompress_lz4, lz4_block, lz4_block_len_max, lz4_unblock,
};
use crate::id::SessionHandle;
use crate::limits::{BLOB_LEN_MAX, CHUNK_IMAGE_SIZE_BYTES_RGB};
use crate::packet_server::{
    chunk_image_frame, pixel_pack_frame, prepare_packet_chunk_image, prepare_packet_pixel_pack,
    Packet,
};
use crate::pixel::ColorRGB;
use crate::signal::Signal;
use crate::vector::{IVec2, U8Vec2};

verus! {

/// A session that watches a chunk.
#[derive(Clone, Copy, PartialEq, Eq, Structural, Debug)]
pub struct LinkedSession {
    pub handle: SessionHandle,
}

/// A frame on its way to the send queue of one session.
pub struct Delivery {
    pub to: SessionHandle,
    pub packet: Packet,
}

/// One tile of the canvas.
pub struct ChunkInstance {
    /// Nothing was ever stored or drawn here: the chunk is white.
    pub new_chunk: bool,
    pub position: IVec2,
    /// The base differs from what storage holds.
    pub modified: bool,
    pub linked_sessions: Vec<LinkedSession>,
    pub main_layer: LayerRGB,
    pub compositor: Compositor,
    /// An LZ4 block of the base, kept while it is current.
    pub compressed_image_data: Option<Vec<u8>>,
}

/// A batch of `count` writes to a chunk is reported by the whole chunk: the
/// caller asks for that, or the batch is too long for one pixel pack.
pub open spec fn sends_whole(send_whole_chunk: bool, count: nat) -> bool {
    send_whole_chunk || count > PIXEL_BATCH_MAX
}

/// Most pixels that one pixel pack reports.
pub const PIXEL_BATCH_MAX: usize = 0x0800_0000;

/// Whom each frame of `outbox` goes to, and its bytes.
pub open spec fn delivered(outbox: Seq<Delivery>) -> Seq<(SessionHandle, Seq<u8>)> {
    outbox.map_values(|d: Delivery| (d.to, d.packet@))
}

/// The handles of `linked`, in order.
pub open spec fn linked_handles(linked: Seq<LinkedSession>) -> Seq<SessionHandle> {
    linked.map_values(|s: LinkedSession| s.handle)
}

/// A white chunk image.
pub open spec fn white_image() -> Seq<u8> {
    filled(196608, 255)
}

/// The block decodes to a whole chunk image.
pub open spec fn decodes_whole(block: Seq<u8>) -> bool {
    lz4_unblock(block, 196608) matches Some(raw) && raw.len() == 196608
}

/// The image that a stored block stands for: what it decodes to, or white
/// where it does not decode to a whole image.
pub open spec fn decoded_or_white(block: Seq<u8>) -> Seq<u8> {
    if decodes_whole(block) {
        lz4_unblock(block, 196608)->Some_0
    } else {
        white_image()
    }
}

/// The image of the base with the picked overlays blended over it.
pub open spec fn composite_image(base: Seq<u8>, layers: Seq<LayerEntry>, picks: Seq<usize>) -> Seq<
    u8,
> {
    Seq::new(
        196608,
        |i: int|
            {
                let c = composed_pixel(base, layers, picks, pos_of_index(i / 3));
                if i % 3 == 0 {
                    c.r
                } else if i % 3 == 1 {
                    c.g
                } else {
                    c.b
                }
            },
    )
}

/// The bytes `x, y, r, g, b` of each pixel, one pixel after the other.
pub open spec fn pack_bytes(pixels: Seq<ChunkPixelRGB>) -> Seq<u8>
    decreases pixels.len(),
{
    if pixels.len() == 0 {
        Seq::empty()
    } else {
        pack_bytes(pixels.drop_last()) + seq![
            pixels.last().pos.x,
            pixels.last().pos.y,
            pixels.last().color.r,
            pixels.last().color.g,
            pixels.last().color.b,
        ]
    }
}

/// The frame that reports `pixels` of the chunk at `chunk_pos`.
pub open spec fn pixel_pack_packet(chunk_pos: IVec2, pixels: Seq<ChunkPixelRGB>) -> Seq<u8> {
    pixel_pack_frame(
        lz4_block(pack_bytes(pixels)),
        chunk_pos.x,
        chunk_pos.y,
        pixels.len() as u32,
        (5 * pixels.len()) as u32,
    )
}

/// The writes among `pixels` that change the image: each is held against
/// the image as the writes before it left it.
pub open spec fn changed_pixels(base: Seq<u8>, pixels: Seq<ChunkPixelRGB>) -> Seq<ChunkPixelRGB>
    decreases pixels.len(),
{
    if pixels.len() == 0 {
        Seq::empty()
    } else if rgb_at(rgb_put_all(base, pixels.drop_last()), pixels.last().pos)
        == pixels.last().color {
        changed_pixels(base, pixels.drop_last())
    } else {
        changed_pixels(base, pixels.drop_last()).push(pixels.last())
    }
}

/// What a client with the picked overlays sees at each of `coords`.
pub open spec fn seen_pixels(
    base: Seq<u8>,
    layers: Seq<LayerEntry>,
    picks: Seq<usize>,
    coords: Seq<U8Vec2>,
) -> Seq<ChunkPixelRGB> {
    coords.map_values(
        |c: U8Vec2| ChunkPixelRGB { pos: c, color: composed_pixel(base, layers, picks, c) },
    )
}

/// The positions of `pixels`, in order.
pub open spec fn positions(pixels: Seq<ChunkPixelRGB>) -> Seq<U8Vec2> {
    pixels.map_values(|p: ChunkPixelRGB| p.pos)
}

/// The chunk one zoom level up that covers the chunk or tile at `pos`.
pub open spec fn upper_pos(pos: IVec2) -> IVec2 {
    IVec2 { x: (pos.x as int / 2) as i32, y: (pos.y as int / 2) as i32 }
}

/// `composite_image` is the composite.
pub proof fn lemma_composite_image(base: Seq<u8>, layers: Seq<LayerEntry>, picks: Seq<usize>)
    ensures
        is_composite(composite_image(base, layers, picks), base, layers, picks),
{
    let image = composite_image(base, layers, picks);
    assert forall|pos: U8Vec2| #[trigger]
        rgb_at(image, pos) == composed_pixel(base, layers, picks, pos) by {
        let o = rgb_offset(pos);
        assert(o / 3 == pos.y as int * 256 + pos.x as int);
        assert((o + 1) / 3 == pos.y as int * 256 + pos.x as int);
        assert((o + 2) / 3 == pos.y as int * 256 + pos.x as int);
        assert(pos_of_index(pos.y as int * 256 + pos.x as int) == pos);
    }
}

/// A pixel pack holds five bytes for each pixel.
pub proof fn lemma_pack_bytes_len(pixels: Seq<ChunkPixelRGB>)
    ensures
        pack_bytes(pixels).len() == 5 * pixels.len(),
    decreases pixels.len(),
{
    if pixels.len() > 0 {
        lemma_pack_bytes_len(pixels.drop_last());
    }
}

/// The changed writes are no more than the writes, and leaving out the
/// others gives the same image.
pub proof fn lemma_changed_pixels(base: Seq<u8>, pixels: Seq<ChunkPixelRGB>)
    requires
        base.len() == 196608,
    ensures
        changed_pixels(base, pixels).len() <= pixels.len(),
        rgb_put_all(base, changed_pixels(base, pixels)) == rgb_put_all(base, pixels),
        changed_pixels(base, pixels).len() == 0 ==> rgb_put_all(base, pixels) == base,
    decreases pixels.len(),
{
    if pixels.len() > 0 {
        let front = pixels.drop_last();
        lemma_changed_pixels(base, front);
        lemma_rgb_put_all_len(base, front);
        let before = rgb_put_all(base, front);
        if rgb_at(before, pixels.last().pos) == pixels.last().color {
            lemma_rgb_put_same(before, pixels.last().pos);
        } else {
            let kept = changed_pixels(base, front).push(pixels.last());
            assert(kept.drop_last() =~= changed_pixels(base, front));
        }
    }
}

/// The LZ4 block of a white chunk image.
pub fn get_empty_chunk_rgb() -> (block: Vec<u8>)
    ensures
        block@ == lz4_block(white_image()),
        block@.len() <= BLOB_LEN_MAX,
        lz4_unblock(block@, 196608) == Some(white_image()),
{
    let stub_img: Vec<u8> = vec![255u8; CHUNK_IMAGE_SIZE_BYTES_RGB];
    assert(stub_img@ =~= white_image());
    compress_lz4(stub_img.as_slice())
}

/// The LZ4 block of a white chunk image.
pub fn get_empty_chunk() -> (block: Vec<u8>)
    ensures
        block@ == lz4_block(white_image()),
        block@.len() <= BLOB_LEN_MAX,
{
    get_empty_chunk_rgb()
}

/// A copy of `bytes`.
pub fn clone_bytes(bytes: &Vec<u8>) -> (copy: Vec<u8>)
    ensures
        copy@ == bytes@,
{
    let mut copy: Vec<u8> = Vec::with_capacity(bytes.len());
    let mut i: usize = 0;
    while i < bytes.len()
        invariant
            i <= bytes@.len(),
            copy@ == bytes@.take(i as int),
        decreases bytes@.len() - i,
    {
        copy.push(bytes[i]);
        assert(copy@ =~= bytes@.take(i as int + 1));
        i += 1;
    }
    assert(bytes@.take(bytes@.len() as int) =~= bytes@);
    copy
}

/// The half of `v`, rounded down.
pub fn floor_half(v: i32) -> (h: i32)
    ensures
        h == v as int / 2,
{
    if v >= 0 {
        v / 2
    } else {
        let up: i64 = (1 - v as i64) / 2;
        (0 - up) as i32
    }
}

/// Appends `x, y, r, g, b` of each pixel to `buf`.
fn gen_pixel_pack(buf: &mut bytes::BytesMut, pixels: &[ChunkPixelRGB])
    requires
        written(*old(buf)).len() + 5 * pixels@.len() <= usize::MAX,
    ensures
        written(*final(buf)) == written(*old(buf)) + pack_bytes(pixels@),
{
    let ghost start = written(*buf);
    let mut i: usize = 0;
    assert(start + pack_bytes(pixels@.take(0)) =~= start);
    while i < pixels.len()
        invariant
            i <= pixels@.len(),
            start.len() + 5 * pixels@.len() <= usize::MAX,
            written(*buf) == start + pack_bytes(pixels@.take(i as int)),
        decreases pixels@.len() - i,
    {
        let pixel = pixels[i];
        proof {
            lemma_pack_bytes_len(pixels@.take(i as int));
            assert(pixels@.take(i as int + 1).drop_last() =~= pixels@.take(i as int));
        }
        let ghost before = written(*buf);
        buffer_put_u8(buf, pixel.pos.x);
        buffer_put_u8(buf, pixel.pos.y);
        buffer_put_u8(buf, pixel.color.r);
        buffer_put_u8(buf, pixel.color.g);
        buffer_put_u8(buf, pixel.color.b);
        assert(written(*buf) =~= before + seq![
            pixel.pos.x,
            pixel.pos.y,
            pixel.color.r,
            pixel.color.g,
            pixel.color.b,
        ]);
        assert(written(*buf) =~= start + pack_bytes(pixels@.take(i as int + 1)));
        i += 1;
    }
    assert(pixels@.take(pixels@.len() as int) =~= pixels@);
}

/// The frame that reports `pixels` of the chunk at `chunk_pos`.
fn gen_packet_pixel_pack(chunk_pos: IVec2, pixels: &[ChunkPixelRGB]) -> (p: Packet)
    requires
        pixels@.len() <= PIXEL_BATCH_MAX,
    ensures
        p@ == pixel_pack_packet(chunk_pos, pixels@),
{
    let mut buf = buffer_new();
    gen_pixel_pack(&mut buf, pixels);
    proof {
        lemma_pack_bytes_len(pixels@);
        assert(written(buf) =~= pack_bytes(pixels@));
    }
    let raw_size = buffer_len(&buf);
    let packed = compress_lz4(buffer_as_slice(&buf));
    prepare_packet_pixel_pack(
        packed.as_slice(),
        chunk_pos.x,
        chunk_pos.y,
        pixels.len() as u32,
        raw_size as u32,
    )
}

impl ChunkInstance {
    /// The base image of the chunk, whether it is held as pixels, as a
    /// block, or not at all.
    pub open spec fn pixels(&self) -> Seq<u8> {
        if self.main_layer.is_allocated() {
            self.main_layer.bytes()
        } else {
            match self.compressed_image_data {
                Some(block) => decoded_or_white(block@),
                None => white_image(),
            }
        }
    }

    /// The chunk is consistent: a modified chunk keeps no block; a block
    /// kept beside the pixels decodes to exactly them; a new chunk holds
    /// nothing; no session is linked twice.
    pub open spec fn wf(&self) -> bool {
        &&& self.main_layer.wf()
        &&& self.compositor.wf()
        &&& self.modified ==> self.compressed_image_data is None
        &&& self.modified ==> self.main_layer.is_allocated()
        &&& self.compressed_image_data matches Some(block) ==> block@.len() <= BLOB_LEN_MAX
        &&& self.compressed_image_data matches Some(block) ==> (self.main_layer.is_allocated()
            ==> lz4_unblock(block@, 196608) == Some(self.main_layer.bytes()))
        &&& self.new_chunk ==> !self.main_layer.is_allocated() && self.compressed_image_data is None
        &&& linked_handles(self.linked_sessions@).no_duplicates()
    }

    /// The image of a chunk made from what storage holds.
    pub open spec fn new_pixels(stored: Option<Vec<u8>>) -> Seq<u8> {
        match stored {
            Some(block) => if block@.len() <= BLOB_LEN_MAX {
                decoded_or_white(block@)
            } else {
                white_image()
            },
            None => white_image(),
        }
    }

    /// The session `handle` watches the chunk.
    pub open spec fn is_linked(&self, handle: SessionHandle) -> bool {
        linked_handles(self.linked_sessions@).contains(handle)
    }

    /// The block that a client without overlays is sent.
    pub open spec fn plain_blob(&self) -> Seq<u8> {
        match self.compressed_image_data {
            Some(block) => block@,
            None => lz4_block(self.pixels()),
        }
    }

    /// The block that a client without overlays is sent once the base is
    /// held as pixels: the block kept where it is readable, else a fresh
    /// block of the pixels.
    pub open spec fn settled_blob(&self) -> Seq<u8> {
        match self.compressed_image_data {
            Some(block) => if self.main_layer.is_allocated() || decodes_whole(block@) {
                block@
            } else {
                lz4_block(white_image())
            },
            None => lz4_block(self.pixels()),
        }
    }

    /// The block that a client with overlays of its own is sent: the base
    /// with those overlays blended over it.
    pub open spec fn composited_blob(&self, handle: SessionHandle) -> Seq<u8> {
        lz4_block(composite_image(self.pixels(), self.compositor.layers@, self.picks_of(handle)))
    }

    /// The overlays that the session `handle` sees.
    pub open spec fn picks_of(&self, handle: SessionHandle) -> Seq<usize> {
        session_picks(self.compositor.layers@, handle, self.compositor.layers@.len() as int)
    }

    /// The block that the session `handle` is sent for the whole chunk:
    /// the base under its own overlays where it has any, else the base.
    pub open spec fn blob_for(&self, handle: SessionHandle) -> Seq<u8> {
        if session_has_layer(self.compositor.layers@, handle) {
            self.composited_blob(handle)
        } else {
            self.plain_blob()
        }
    }

    /// The frames that send the whole chunk to each of `linked`.
    pub open spec fn image_frames(&self, linked: Seq<LinkedSession>) -> Seq<
        (SessionHandle, Seq<u8>),
    > {
        linked.map_values(
            |s: LinkedSession| (s.handle, chunk_image_frame(self.position, self.blob_for(s.handle))),
        )
    }

    /// The pixels `coords` as the session `handle` sees them.
    pub open spec fn seen_by(&self, handle: SessionHandle, coords: Seq<U8Vec2>) -> Seq<
        ChunkPixelRGB,
    > {
        seen_pixels(self.pixels(), self.compositor.layers@, self.picks_of(handle), coords)
    }

    /// The frames that report the pixels `coords`, as each of `linked` sees
    /// them.
    pub open spec fn update_frames(&self, linked: Seq<LinkedSession>, coords: Seq<U8Vec2>) -> Seq<
        (SessionHandle, Seq<u8>),
    > {
        linked.map_values(
            |s: LinkedSession|
                (s.handle, pixel_pack_packet(self.position, self.seen_by(s.handle, coords))),
        )
    }

    /// The frames that tell each of `linked` how the places `coords` look
    /// to it now: pixel packs, or the whole chunk where there are too many
    /// places for a pack.
    pub open spec fn report_frames(&self, linked: Seq<LinkedSession>, coords: Seq<U8Vec2>) -> Seq<
        (SessionHandle, Seq<u8>),
    > {
        if coords.len() > PIXEL_BATCH_MAX {
            self.image_frames(linked)
        } else {
            self.update_frames(linked, coords)
        }
    }

    /// The frames that report the changed pixels `changed` to each of
    /// `linked`: as written to a session without overlays, as seen to one
    /// with overlays.
    pub open spec fn pack_frames(&self, linked: Seq<LinkedSession>, changed: Seq<ChunkPixelRGB>) -> Seq<
        (SessionHandle, Seq<u8>),
    > {
        linked.map_values(
            |s: LinkedSession|
                if session_has_layer(self.compositor.layers@, s.handle) {
                    (
                        s.handle,
                        pixel_pack_packet(self.position, self.seen_by(s.handle, positions(changed))),
                    )
                } else {
                    (s.handle, pixel_pack_packet(self.position, changed))
                },
        )
    }

    /// A chunk at `position` that nobody watches. With a stored block it
    /// stands for what the block decodes to; without one it is new and
    /// white. A block too long to be framed counts as unreadable.
    pub fn new(position: IVec2, compressed_image_data: Option<Vec<u8>>) -> (chunk: Self)
        ensures
            chunk.wf(),
            chunk.position == position,
            !chunk.modified,
            chunk.linked_sessions@.len() == 0,
            chunk.compositor.layers@.len() == 0,
            !chunk.main_layer.is_allocated(),
            chunk.new_chunk == (compressed_image_data is None),
            chunk.pixels() == Self::new_pixels(compressed_image_data),
    {
        let new_chunk = compressed_image_data.is_none();
        let kept = match compressed_image_data {
            Some(block) => if block.len() <= BLOB_LEN_MAX {
                Some(block)
            } else {
                None
            },
            None => None,
        };
        let chunk = ChunkInstance {
            new_chunk,
            position,
            modified: false,
            linked_sessions: Vec::new(),
            main_layer: LayerRGB::new(),
            compositor: Compositor::new(),
            compressed_image_data: kept,
        };
        assert(linked_handles(chunk.linked_sessions@) =~= Seq::<SessionHandle>::empty());
        assert(crate::chunk::compositor::layer_ids(chunk.compositor.layers@) =~= Seq::empty());
        chunk
    }

    /// Makes sure the base is held as pixels: decoded from the block kept,
    /// or white where there is none or it does not decode to a whole image.
    /// An unreadable block is dropped.
    pub fn allocate_image(&mut self)
        requires
            old(self).wf(),
        ensures
            final(self).wf(),
            final(self).main_layer.is_allocated(),
            final(self).main_layer.bytes() == old(self).pixels(),
            final(self).pixels() == old(self).pixels(),
            !final(self).new_chunk,
            final(self).position == old(self).position,
            final(self).modified == old(self).modified,
            final(self).linked_sessions == old(self).linked_sessions,
            final(self).compositor == old(self).compositor,
            final(self).compressed_image_data == match old(self).compressed_image_data {
                Some(block) => if old(self).main_layer.is_allocated() || decodes_whole(block@) {
                    Some(block)
                } else {
                    None
                },
                None => None,
            },
            final(self).plain_blob() == old(self).settled_blob(),
            final(self).settled_blob() == old(self).settled_blob(),
    {
        if self.main_layer.data.0.len() == CHUNK_IMAGE_SIZE_BYTES_RGB {
            return ;
        }
        self.new_chunk = false;
        let decoded = match &self.compressed_image_data {
            Some(block) => decompress_lz4(block.as_slice(), CHUNK_IMAGE_SIZE_BYTES_RGB),
            None => None,
        };
        match decoded {
            Some(raw) => {
                if raw.len() == CHUNK_IMAGE_SIZE_BYTES_RGB {
                    self.main_layer.apply(RGBData(raw));
                    return ;
                }
            },
            None => {},
        }
        self.compressed_image_data = None;
        self.main_layer.alloc_white();
    }

    /// Marks the base as different from what storage holds, or as the same;
    /// a base that differs keeps no block.
    fn set_main_modified(&mut self, modified: bool)
        ensures
            final(self).modified == modified,
            final(self).compressed_image_data == if modified {
                None
            } else {
                old(self).compressed_image_data
            },
            final(self).new_chunk == old(self).new_chunk,
            final(self).position == old(self).position,
            final(self).linked_sessions == old(self).linked_sessions,
            final(self).main_layer.bytes() == old(self).main_layer.bytes(),
            final(self).compositor == old(self).compositor,
    {
        self.modified = modified;
        if modified {
            self.compressed_image_data = None;
        }
    }

    /// Writes `writes`, first to last, into the overlay named `layer_id`,
    /// which is added where the chunk has none of that name and is given an
    /// image of transparent black where it has none.
    pub fn paint_overlay(&mut self, layer_id: &LayerID, writes: &[ChunkPixelRGBA])
        requires
            old(self).wf(),
        ensures
            final(self).wf(),
            final(self).position == old(self).position,
            final(self).linked_sessions == old(self).linked_sessions,
            final(self).modified == old(self).modified,
            final(self).new_chunk == old(self).new_chunk,
            final(self).main_layer == old(self).main_layer,
            final(self).compressed_image_data == old(self).compressed_image_data,
            crate::chunk::cache::overlay_written(
                old(self).compositor.layers@,
                final(self).compositor.layers@,
                *layer_id,
                writes@,
            ),
    {
        let ghost before = self.compositor.layers@;
        let ghost ids = layer_ids(before);
        let layer = self.compositor.get_or_alloc_mut(layer_id);
        if layer.layer.data.0.len() != 262144 {
            layer.layer.alloc_blank();
        }
        layer.layer.set_pixels(writes);
        proof {
            let after = self.compositor.layers@;
            let new_ids = layer_ids(after);
            if ids.contains(*layer_id) {
                let i = ids.index_of(*layer_id);
                assert(ids[i] == *layer_id);
                assert(new_ids =~= ids);
                assert(new_ids[i] == *layer_id);
                assert(new_ids.index_of(*layer_id) == i) by {
                    let j = new_ids.index_of(*layer_id);
                    assert(new_ids[j] == *layer_id);
                }
                assert forall|j: int| 0 <= j < after.len() implies (#[trigger] after[j]).layer.layer.wf() by {
                    if j != i {
                        assert(after[j] == before[j]);
                    }
                }
                assert forall|j: int| 0 <= j < before.len() && before[j].id != *layer_id implies #[trigger] after[j]
                    == before[j] by {
                    assert(ids[j] == before[j].id);
                }
            } else {
                assert(new_ids =~= ids.push(*layer_id));
                let last = new_ids.len() - 1;
                assert(new_ids[last] == *layer_id);
                assert forall|a: int, b: int|
                    0 <= a < new_ids.len() && 0 <= b < new_ids.len() && a != b implies new_ids[a]
                    != new_ids[b] by {
                    if a < ids.len() {
                        assert(new_ids[a] == ids[a]);
                    }
                    if b < ids.len() {
                        assert(new_ids[b] == ids[b]);
                    }
                }
                assert(new_ids.index_of(*layer_id) == last) by {
                    let j = new_ids.index_of(*layer_id);
                    assert(new_ids[j] == *layer_id);
                }
                assert forall|j: int| 0 <= j < after.len() implies (#[trigger] after[j]).layer.layer.wf() by {
                    if j < before.len() {
                        assert(after[j] == before[j]);
                    }
                }
            }
        }
    }

    /// The base colour at `chunk_pixel_pos` of a chunk held as pixels.
    pub fn get_pixel_main(&self, chunk_pixel_pos: U8Vec2) -> (color: ColorRGB)
        requires
            self.main_layer.is_allocated(),
        ensures
            color == rgb_at(self.pixels(), chunk_pixel_pos),
    {
        self.main_layer.get_pixel(chunk_pixel_pos)
    }

    /// A copy of the base image, whether the chunk holds it as pixels, as a
    /// block, or not at all.
    pub fn snapshot(&self) -> (image: Vec<u8>)
        requires
            self.wf(),
        ensures
            image@ == self.pixels(),
            image@.len() == 196608,
    {
        if self.main_layer.data.0.len() == CHUNK_IMAGE_SIZE_BYTES_RGB {
            return clone_bytes(&self.main_layer.data.0);
        }
        let decoded = match &self.compressed_image_data {
            Some(block) => decompress_lz4(block.as_slice(), CHUNK_IMAGE_SIZE_BYTES_RGB),
            None => None,
        };
        match decoded {
            Some(raw) => {
                if raw.len() == CHUNK_IMAGE_SIZE_BYTES_RGB {
                    return raw;
                }
            },
            None => {},
        }
        let white: Vec<u8> = vec![255u8; CHUNK_IMAGE_SIZE_BYTES_RGB];
        assert(white@ =~= white_image());
        white
    }

    /// The base layer.
    pub fn get_layer_main(&self) -> (layer: &LayerRGB)
        ensures
            layer == &self.main_layer,
    {
        &self.main_layer
    }

    /// Puts `layer` in place of the base and sends the whole chunk to every
    /// session that watches it.
    pub fn replace_layer_main(&mut self, layer: LayerRGB, outbox: &mut Vec<Delivery>)
        requires
            old(self).wf(),
            layer.is_allocated(),
        ensures
            final(self).wf(),
            final(self).main_layer.bytes() == layer.bytes(),
            final(self).modified,
            !final(self).new_chunk,
            final(self).position == old(self).position,
            final(self).linked_sessions == old(self).linked_sessions,
            final(self).compositor == old(self).compositor,
            delivered(final(outbox)@) == delivered(old(outbox)@) + final(self).image_frames(
                final(self).linked_sessions@,
            ),
    {
        self.main_layer = layer;
        self.new_chunk = false;
        self.set_main_modified(true);
        self.send_chunk_data_to_all(outbox);
    }

    /// The LZ4 block of the chunk as the session `session_handle` sees it:
    /// the base with the overlays of that session blended over it.
    pub fn encode_composited_chunk_data(&mut self, session_handle: &SessionHandle) -> (block: Vec<u8>)
        requires
            old(self).wf(),
        ensures
            final(self).wf(),
            block@ == old(self).composited_blob(*session_handle),
            block@.len() <= BLOB_LEN_MAX,
            final(self).main_layer.is_allocated(),
            final(self).main_layer.bytes() == old(self).pixels(),
            final(self).pixels() == old(self).pixels(),
            final(self).position == old(self).position,
            final(self).modified == old(self).modified,
            final(self).linked_sessions == old(self).linked_sessions,
            final(self).compositor == old(self).compositor,
            final(self).plain_blob() == old(self).settled_blob(),
            final(self).settled_blob() == old(self).settled_blob(),
    {
        self.allocate_image();
        let picks = self.compositor.construct_layers_from_session(session_handle);
        let image = self.compositor.composite(&self.main_layer, &picks);
        proof {
            lemma_composite_image(
                self.main_layer.bytes(),
                self.compositor.layers@,
                picked(picks),
            );
            lemma_composite_unique(
                image.bytes(),
                composite_image(self.main_layer.bytes(), self.compositor.layers@, picked(picks)),
                self.main_layer.bytes(),
                self.compositor.layers@,
                picked(picks),
            );
        }
        image.compress_lz4()
    }

    /// The LZ4 block of the base. Where the base is as storage holds it,
    /// the block is kept for later.
    fn encode_plain(&mut self) -> (block: Vec<u8>)
        requires
            old(self).wf(),
        ensures
            final(self).wf(),
            block@ == lz4_block(old(self).pixels()),
            block@.len() <= BLOB_LEN_MAX,
            lz4_unblock(block@, 196608) == Some(old(self).pixels()),
            old(self).pixels().len() == 196608,
            final(self).pixels() == old(self).pixels(),
            final(self).position == old(self).position,
            final(self).modified == old(self).modified,
            final(self).linked_sessions == old(self).linked_sessions,
            final(self).compositor == old(self).compositor,
            final(self).new_chunk == old(self).new_chunk,
            old(self).new_chunk ==> final(self).main_layer.bytes() == old(self).main_layer.bytes()
                && final(self).compressed_image_data == old(self).compressed_image_data,
            !old(self).new_chunk ==> {
                &&& final(self).main_layer.bytes() == old(self).pixels()
                &&& final(self).main_layer.is_allocated()
                &&& crate::compression::bytes_of(final(self).compressed_image_data) == if old(
                    self,
                ).modified {
                    None
                } else {
                    Some(block@)
                }
            },
    {
        if self.new_chunk {
            return get_empty_chunk_rgb();
        }
        self.allocate_image();
        let block = self.main_layer.compress_lz4();
        if !self.modified {
            self.compressed_image_data = Some(clone_bytes(&block));
        }
        block
    }

    /// The LZ4 block of the base, to be stored or sent.
    ///
    /// With `clear_modified` the chunk is handed over to storage: it counts
    /// as unmodified, lets go of its pixels and keeps the block, and the
    /// preview tile above it is queued for rendering. A chunk that is new
    /// has nothing to hand over and stays as it is.
    pub fn encode_chunk_data(&mut self, clear_modified: bool, preview_queue: &mut Vec<IVec2>) -> (block:
        Vec<u8>)
        requires
            old(self).wf(),
        ensures
            final(self).wf(),
            block@ == lz4_block(old(self).pixels()),
            block@.len() <= BLOB_LEN_MAX,
            lz4_unblock(block@, 196608) == Some(old(self).pixels()),
            old(self).pixels().len() == 196608,
            final(self).pixels() == old(self).pixels(),
            final(self).position == old(self).position,
            final(self).linked_sessions == old(self).linked_sessions,
            final(self).compositor == old(self).compositor,
            final(self).new_chunk == old(self).new_chunk,
            old(self).new_chunk ==> {
                &&& final(self).main_layer.bytes() == old(self).main_layer.bytes()
                &&& final(self).compressed_image_data == old(self).compressed_image_data
                &&& final(self).modified == old(self).modified
                &&& final(preview_queue)@ == old(preview_queue)@
            },
            !old(self).new_chunk && clear_modified ==> {
                &&& !final(self).modified
                &&& final(self).main_layer.bytes() == Seq::<u8>::empty()
                &&& crate::compression::bytes_of(final(self).compressed_image_data) == Some(block@)
                &&& final(preview_queue)@ == old(preview_queue)@.push(upper_pos(old(self).position))
            },
            !old(self).new_chunk && !clear_modified ==> {
                &&& final(self).modified == old(self).modified
                &&& final(self).main_layer.bytes() == old(self).pixels()
                &&& crate::compression::bytes_of(final(self).compressed_image_data) == if old(
                    self,
                ).modified {
                    None
                } else {
                    Some(block@)
                }
                &&& final(preview_queue)@ == old(preview_queue)@
            },
    {
        if self.new_chunk {
            return get_empty_chunk_rgb();
        }
        let block = self.encode_plain();
        if clear_modified {
            self.set_main_modified(false);
            self.compressed_image_data = Some(clone_bytes(&block));
            self.main_layer.free();
            let upper = IVec2 { x: floor_half(self.position.x), y: floor_half(self.position.y) };
            preview_queue.push(upper);
        }
        block
    }

    /// Applies `pixels` to the base, whether they change it or not.
    fn set_pixels_internal(&mut self, pixels: &[ChunkPixelRGB])
        requires
            old(self).main_layer.is_allocated(),
        ensures
            final(self).main_layer.bytes() == rgb_put_all(old(self).main_layer.bytes(), pixels@),
            final(self).main_layer.is_allocated(),
            final(self).modified == old(self).modified,
            final(self).compressed_image_data == old(self).compressed_image_data,
            final(self).new_chunk == old(self).new_chunk,
            final(self).position == old(self).position,
            final(self).linked_sessions == old(self).linked_sessions,
            final(self).compositor == old(self).compositor,
    {
        self.main_layer.set_pixels(pixels);
    }

    /// Applies `pixels` and sends the whole chunk to every watcher.
    fn set_pixels_whole_chunk(&mut self, pixels: &[ChunkPixelRGB], outbox: &mut Vec<Delivery>)
        requires
            old(self).wf(),
            old(self).main_layer.is_allocated(),
        ensures
            final(self).wf(),
            final(self).main_layer.bytes() == rgb_put_all(old(self).main_layer.bytes(), pixels@),
            final(self).main_layer.is_allocated(),
            final(self).modified,
            final(self).position == old(self).position,
            final(self).linked_sessions == old(self).linked_sessions,
            final(self).compositor == old(self).compositor,
            delivered(final(outbox)@) == delivered(old(outbox)@) + final(self).image_frames(
                final(self).linked_sessions@,
            ),
    {
        self.set_pixels_internal(pixels);
        self.set_main_modified(true);
        self.send_chunk_data_to_all(outbox);
    }

    /// The positions of `pixels`.
    fn positions_of(pixels: &Vec<ChunkPixelRGB>) -> (coords: Vec<U8Vec2>)
        ensures
            coords@ == positions(pixels@),
    {
        let mut coords: Vec<U8Vec2> = Vec::with_capacity(pixels.len());
        let mut i: usize = 0;
        while i < pixels.len()
            invariant
                i <= pixels@.len(),
                coords@ == positions(pixels@.take(i as int)),
            decreases pixels@.len() - i,
        {
            coords.push(pixels[i].pos);
            assert(coords@ =~= positions(pixels@.take(i as int + 1)));
            i += 1;
        }
        assert(pixels@.take(pixels@.len() as int) =~= pixels@);
        coords
    }

    /// The pixels at `coords` as the session `handle` sees them.
    fn seen_at(&self, handle: &SessionHandle, coords: &[U8Vec2]) -> (seen: Vec<ChunkPixelRGB>)
        requires
            self.main_layer.is_allocated(),
        ensures
            seen@ == self.seen_by(*handle, coords@),
    {
        let picks = self.compositor.construct_layers_from_session(handle);
        let mut seen: Vec<ChunkPixelRGB> = Vec::with_capacity(coords.len());
        let mut i: usize = 0;
        while i < coords.len()
            invariant
                i <= coords@.len(),
                self.main_layer.is_allocated(),
                picked(picks) == self.picks_of(*handle),
                picks_valid(self.compositor.layers@, picked(picks)),
                seen@ == self.seen_by(*handle, coords@.take(i as int)),
            decreases coords@.len() - i,
        {
            let coord = coords[i];
            let rgb = self.compositor.calc_pixel(&self.main_layer, &picks, coord);
            seen.push(ChunkPixelRGB { color: rgb, pos: coord });
            assert(seen@ =~= self.seen_by(*handle, coords@.take(i as int + 1)));
            i += 1;
        }
        assert(coords@.take(coords@.len() as int) =~= coords@);
        seen
    }

    /// Applies the writes among `pixels` that change the base and reports
    /// them to every watcher.
    fn set_pixels_pack(&mut self, pixels: &[ChunkPixelRGB], outbox: &mut Vec<Delivery>)
        requires
            old(self).wf(),
            old(self).main_layer.is_allocated(),
            pixels@.len() <= PIXEL_BATCH_MAX,
        ensures
            final(self).wf(),
            final(self).main_layer.bytes() == rgb_put_all(old(self).main_layer.bytes(), pixels@),
            final(self).main_layer.is_allocated(),
            final(self).position == old(self).position,
            final(self).linked_sessions == old(self).linked_sessions,
            final(self).compositor == old(self).compositor,
            changed_pixels(old(self).main_layer.bytes(), pixels@).len() == 0 ==> {
                &&& final(self).modified == old(self).modified
                &&& final(self).compressed_image_data == old(self).compressed_image_data
                &&& final(self).main_layer.bytes() == old(self).main_layer.bytes()
                &&& final(outbox)@ == old(outbox)@
            },
            changed_pixels(old(self).main_layer.bytes(), pixels@).len() > 0 ==> {
                &&& final(self).modified
                &&& delivered(final(outbox)@) == delivered(old(outbox)@) + final(self).pack_frames(
                    final(self).linked_sessions@,
                    changed_pixels(old(self).main_layer.bytes(), pixels@),
                )
            },
    {
        let ghost base = self.main_layer.bytes();
        let mut modified_pixels: Vec<ChunkPixelRGB> = Vec::new();
        let mut i: usize = 0;
        while i < pixels.len()
            invariant
                i <= pixels@.len(),
                pixels@.len() <= PIXEL_BATCH_MAX,
                base.len() == 196608,
                self.main_layer.is_allocated(),
                self.main_layer.bytes() == rgb_put_all(base, pixels@.take(i as int)),
                modified_pixels@ == changed_pixels(base, pixels@.take(i as int)),
                modified_pixels@.len() <= i,
                self.modified == old(self).modified,
                self.compressed_image_data == old(self).compressed_image_data,
                self.new_chunk == old(self).new_chunk,
                self.position == old(self).position,
                self.linked_sessions == old(self).linked_sessions,
                self.compositor == old(self).compositor,
            decreases pixels@.len() - i,
        {
            let pixel = pixels[i];
            proof {
                assert(pixels@.take(i as int + 1).drop_last() =~= pixels@.take(i as int));
                lemma_rgb_put_same(self.main_layer.bytes(), pixel.pos);
            }
            let color = self.main_layer.get_pixel(pixel.pos);
            if pixel.color != color {
                self.main_layer.set_pixel(pixel.pos, pixel.color);
                modified_pixels.push(pixel);
            }
            i += 1;
        }
        proof {
            assert(pixels@.take(pixels@.len() as int) =~= pixels@);
            lemma_changed_pixels(base, pixels@);
        }
        if modified_pixels.len() == 0 {
            return ;
        }
        self.set_main_modified(true);

        let coords = Self::positions_of(&modified_pixels);
        let mut plain: Option<Packet> = None;
        let ghost before = delivered(outbox@);
        let mut k: usize = 0;
        assert(before + self.pack_frames(self.linked_sessions@.take(0), modified_pixels@) =~= before);
        while k < self.linked_sessions.len()
            invariant
                k <= self.linked_sessions@.len(),
                self.wf(),
                self.main_layer.is_allocated(),
                modified_pixels@.len() <= PIXEL_BATCH_MAX,
                coords@ == positions(modified_pixels@),
                plain matches Some(p) ==> p@ == pixel_pack_packet(self.position, modified_pixels@),
                delivered(outbox@) == before + self.pack_frames(
                    self.linked_sessions@.take(k as int),
                    modified_pixels@,
                ),
            decreases self.linked_sessions@.len() - k,
        {
            let handle = self.linked_sessions[k].handle;
            let packet = if !self.compositor.has_session_composition(&handle) {
                let ready = match &plain {
                    Some(p) => p.duplicate(),
                    None => gen_packet_pixel_pack(self.position, modified_pixels.as_slice()),
                };
                if plain.is_none() {
                    plain = Some(ready.duplicate());
                }
                ready
            } else {
                let seen = self.seen_at(&handle, coords.as_slice());
                gen_packet_pixel_pack(self.position, seen.as_slice())
            };
            let ghost sent = delivered(outbox@);
            let ghost frame = packet@;
            outbox.push(Delivery { to: handle, packet });
            proof {
                assert(delivered(outbox@) =~= sent.push((handle, frame)));
                assert(self.pack_frames(self.linked_sessions@.take(k as int + 1), modified_pixels@)
                    =~= self.pack_frames(
                    self.linked_sessions@.take(k as int),
                    modified_pixels@,
                ).push((handle, frame)));
                assert(delivered(outbox@) =~= before + self.pack_frames(
                    self.linked_sessions@.take(k as int + 1),
                    modified_pixels@,
                ));
            }
            k += 1;
        }
        proof {
            assert(self.linked_sessions@.take(self.linked_sessions@.len() as int)
                =~= self.linked_sessions@);
        }
    }

    /// Writes `pixels`, first to last, into the base of a chunk held as
    /// pixels, and tells every session that watches the chunk.
    ///
    /// With `send_whole_chunk` each watcher is sent the whole chunk. Without
    /// it each is sent a pixel pack of the writes that changed the base, and
    /// nothing at all where none did.
    pub fn set_pixels(
        &mut self,
        pixels: &[ChunkPixelRGB],
        send_whole_chunk: bool,
        outbox: &mut Vec<Delivery>,
    )
        requires
            old(self).wf(),
            old(self).main_layer.is_allocated(),
        ensures
            final(self).wf(),
            final(self).main_layer.bytes() == rgb_put_all(old(self).main_layer.bytes(), pixels@),
            final(self).main_layer.is_allocated(),
            final(self).position == old(self).position,
            final(self).linked_sessions == old(self).linked_sessions,
            final(self).compositor == old(self).compositor,
            sends_whole(send_whole_chunk, pixels@.len()) ==> {
                &&& final(self).modified
                &&& delivered(final(outbox)@) == delivered(old(outbox)@) + final(self).image_frames(
                    final(self).linked_sessions@,
                )
            },
            !sends_whole(send_whole_chunk, pixels@.len()) && changed_pixels(
                old(self).main_layer.bytes(),
                pixels@,
            ).len() == 0 ==> {
                &&& final(self).modified == old(self).modified
                &&& final(self).compressed_image_data == old(self).compressed_image_data
                &&& final(outbox)@ == old(outbox)@
            },
            !sends_whole(send_whole_chunk, pixels@.len()) && changed_pixels(
                old(self).main_layer.bytes(),
                pixels@,
            ).len() > 0 ==> {
                &&& final(self).modified
                &&& delivered(final(outbox)@) == delivered(old(outbox)@) + final(self).pack_frames(
                    final(self).linked_sessions@,
                    changed_pixels(old(self).main_layer.bytes(), pixels@),
                )
            },
    {
        if send_whole_chunk || pixels.len() > PIXEL_BATCH_MAX {
            self.set_pixels_whole_chunk(pixels, outbox);
        } else {
            self.set_pixels_pack(pixels, outbox);
        }
    }

    /// Tells every watcher how the places `coords` look to it now: in one
    /// pixel pack each, or, where there are too many places for a pack, by
    /// the whole chunk.
    pub fn send_pixel_updates(&mut self, coords: &[U8Vec2], outbox: &mut Vec<Delivery>)
        requires
            old(self).wf(),
            old(self).main_layer.is_allocated(),
        ensures
            final(self).wf(),
            final(self).main_layer.is_allocated(),
            final(self).main_layer.bytes() == old(self).main_layer.bytes(),
            final(self).pixels() == old(self).pixels(),
            final(self).position == old(self).position,
            final(self).modified == old(self).modified,
            final(self).linked_sessions == old(self).linked_sessions,
            final(self).compositor == old(self).compositor,
            coords@.len() <= PIXEL_BATCH_MAX ==> *final(self) == *old(self),
            delivered(final(outbox)@) == delivered(old(outbox)@) + final(self).report_frames(
                final(self).linked_sessions@,
                coords@,
            ),
    {
        if coords.len() > PIXEL_BATCH_MAX {
            self.send_chunk_data_to_all(outbox);
            return ;
        }
        let ghost before = delivered(outbox@);
        let mut k: usize = 0;
        assert(before + self.update_frames(self.linked_sessions@.take(0), coords@) =~= before);
        while k < self.linked_sessions.len()
            invariant
                k <= self.linked_sessions@.len(),
                self.main_layer.is_allocated(),
                coords@.len() <= PIXEL_BATCH_MAX,
                delivered(outbox@) == before + self.update_frames(
                    self.linked_sessions@.take(k as int),
                    coords@,
                ),
            decreases self.linked_sessions@.len() - k,
        {
            let handle = self.linked_sessions[k].handle;
            let seen = self.seen_at(&handle, coords);
            let packet = gen_packet_pixel_pack(self.position, seen.as_slice());
            let ghost sent = delivered(outbox@);
            let ghost frame = packet@;
            outbox.push(Delivery { to: handle, packet });
            proof {
                assert(delivered(outbox@) =~= sent.push((handle, frame)));
                assert(self.update_frames(self.linked_sessions@.take(k as int + 1), coords@)
                    =~= self.update_frames(self.linked_sessions@.take(k as int), coords@).push(
                    (handle, frame),
                ));
                assert(delivered(outbox@) =~= before + self.update_frames(
                    self.linked_sessions@.take(k as int + 1),
                    coords@,
                ));
            }
            k += 1;
        }
        proof {
            assert(self.linked_sessions@.take(self.linked_sessions@.len() as int)
                =~= self.linked_sessions@);
        }
    }

    /// Sends the whole chunk to every session that watches it, each under
    /// its own overlays.
    pub fn send_chunk_data_to_all(&mut self, outbox: &mut Vec<Delivery>)
        requires
            old(self).wf(),
        ensures
            final(self).wf(),
            final(self).main_layer.is_allocated(),
            final(self).main_layer.bytes() == old(self).pixels(),
            final(self).position == old(self).position,
            final(self).modified == old(self).modified,
            final(self).linked_sessions == old(self).linked_sessions,
            final(self).compositor == old(self).compositor,
            final(self).plain_blob() == old(self).settled_blob(),
            delivered(final(outbox)@) == delivered(old(outbox)@) + final(self).image_frames(
                final(self).linked_sessions@,
            ),
    {
        self.allocate_image();
        let ghost settled = *self;
        let ghost before = delivered(outbox@);
        let mut k: usize = 0;
        assert(before + settled.image_frames(self.linked_sessions@.take(0)) =~= before);
        while k < self.linked_sessions.len()
            invariant
                k <= self.linked_sessions@.len(),
                self.wf(),
                settled.main_layer.is_allocated(),
                self.main_layer.bytes() == settled.main_layer.bytes(),
                self.position == settled.position,
                self.modified == settled.modified,
                self.linked_sessions == settled.linked_sessions,
                self.compositor == settled.compositor,
                self.plain_blob() == settled.plain_blob(),
                delivered(outbox@) == before + settled.image_frames(
                    self.linked_sessions@.take(k as int),
                ),
            decreases self.linked_sessions@.len() - k,
        {
            let handle = self.linked_sessions[k].handle;
            let ghost sent = delivered(outbox@);
            let ghost now = *self;
            self.send_chunk_data_to_session(&handle, outbox);
            proof {
                assert(now.blob_for(handle) == settled.blob_for(handle));
                assert(settled.image_frames(self.linked_sessions@.take(k as int + 1))
                    =~= settled.image_frames(self.linked_sessions@.take(k as int)).push(
                    (handle, chunk_image_frame(settled.position, settled.blob_for(handle))),
                ));
                assert(delivered(outbox@) =~= before + settled.image_frames(
                    self.linked_sessions@.take(k as int + 1),
                ));
            }
            k += 1;
        }
        proof {
            assert(self.linked_sessions@.take(self.linked_sessions@.len() as int)
                =~= self.linked_sessions@);
            assert(settled.image_frames(self.linked_sessions@) =~= self.image_frames(
                self.linked_sessions@,
            ));
        }
    }

    /// Sends the whole chunk to the session `session_handle`: the base
    /// under the overlays of that session where it has any, else the block
    /// kept for the base, or a fresh one. The block sent for the base is
    /// kept afterwards, unless the chunk is new or modified.
    pub fn send_chunk_data_to_session(
        &mut self,
        session_handle: &SessionHandle,
        outbox: &mut Vec<Delivery>,
    )
        requires
            old(self).wf(),
        ensures
            final(self).wf(),
            final(self).pixels() == old(self).pixels(),
            final(self).position == old(self).position,
            final(self).modified == old(self).modified,
            final(self).linked_sessions == old(self).linked_sessions,
            final(self).compositor == old(self).compositor,
            old(self).main_layer.is_allocated() ==> final(self).main_layer.bytes() == old(
                self,
            ).main_layer.bytes() && final(self).plain_blob() == old(self).plain_blob(),
            !session_has_layer(old(self).compositor.layers@, *session_handle) ==> {
                &&& final(self).new_chunk == old(self).new_chunk
                &&& crate::compression::bytes_of(final(self).compressed_image_data) == if old(
                    self,
                ).new_chunk || old(self).modified {
                    None
                } else {
                    Some(old(self).plain_blob())
                }
            },
            delivered(final(outbox)@) == delivered(old(outbox)@).push(
                (*session_handle, chunk_image_frame(old(self).position, old(self).blob_for(*session_handle))),
            ),
    {
        let composited = self.compositor.has_session_composition(session_handle);
        let compressed_data = if composited {
            self.encode_composited_chunk_data(session_handle)
        } else {
            let kept = match &self.compressed_image_data {
                Some(block) => Some(clone_bytes(block)),
                None => None,
            };
            match kept {
                Some(block) => block,
                None => self.encode_plain(),
            }
        };
        let packet = prepare_packet_chunk_image(self.position, compressed_data.as_slice());
        outbox.push(Delivery { to: *session_handle, packet });
        proof {
            assert(delivered(outbox@) =~= delivered(old(outbox)@).push(
                (*session_handle, chunk_image_frame(old(self).position, old(self).blob_for(*session_handle))),
            ));
        }
    }

    /// Finds the session `handle` among the watchers.
    fn find_linked(&self, handle: &SessionHandle) -> (found: Option<usize>)
        ensures
            match found {
                Some(i) => i < self.linked_sessions@.len() && self.linked_sessions@[i as int].handle
                    == *handle,
                None => !self.is_linked(*handle),
            },
            found is Some ==> self.is_linked(*handle),
    {
        let mut i: usize = 0;
        while i < self.linked_sessions.len()
            invariant
                i <= self.linked_sessions@.len(),
                forall|j: int| 0 <= j < i ==> (#[trigger] self.linked_sessions@[j]).handle != *handle,
            decreases self.linked_sessions@.len() - i,
        {
            if self.linked_sessions[i].handle == *handle {
                assert(linked_handles(self.linked_sessions@)[i as int] == *handle);
                return Some(i);
            }
            i += 1;
        }
        assert forall|j: int| 0 <= j < linked_handles(self.linked_sessions@).len() implies linked_handles(
            self.linked_sessions@,
        )[j] != *handle by {
            assert(linked_handles(self.linked_sessions@)[j] == self.linked_sessions@[j].handle);
        }
        None
    }

    /// Lets the session `handle` watch the chunk. A session that watches
    /// already is not added again.
    pub fn link_session(&mut self, handle: &SessionHandle)
        requires
            old(self).wf(),
        ensures
            final(self).wf(),
            final(self).is_linked(*handle),
            final(self).linked_sessions@ == if old(self).is_linked(*handle) {
                old(self).linked_sessions@
            } else {
                old(self).linked_sessions@.push(LinkedSession { handle: *handle })
            },
            final(self).new_chunk == old(self).new_chunk,
            final(self).position == old(self).position,
            final(self).modified == old(self).modified,
            final(self).main_layer == old(self).main_layer,
            final(self).compositor == old(self).compositor,
            final(self).compressed_image_data == old(self).compressed_image_data,
    {
        match self.find_linked(handle) {
            Some(_) => {},
            None => {
                let ghost before = linked_handles(self.linked_sessions@);
                self.linked_sessions.push(LinkedSession { handle: *handle });
                proof {
                    let after = linked_handles(self.linked_sessions@);
                    assert(after =~= before.push(*handle));
                    assert(after[after.len() - 1] == *handle);
                    assert forall|i: int, j: int|
                        0 <= i < after.len() && 0 <= j < after.len() && i != j implies after[i]
                        != after[j] by {
                        if i < before.len() {
                            assert(before[i] == after[i]);
                        }
                        if j < before.len() {
                            assert(before[j] == after[j]);
                        }
                    }
                }
            },
        }
    }

    /// Stops the session `handle` from watching the chunk and removes its
    /// overlays. Once nobody watches, `gc_signal` is armed.
    pub fn unlink_session(&mut self, handle: &SessionHandle, gc_signal: &mut Signal)
        requires
            old(self).wf(),
        ensures
            final(self).wf(),
            !final(self).is_linked(*handle),
            final(self).linked_sessions@ == if old(self).is_linked(*handle) {
                old(self).linked_sessions@.remove(
                    linked_handles(old(self).linked_sessions@).index_of(*handle),
                )
            } else {
                old(self).linked_sessions@
            },
            final(self).compositor.layers@ == old(self).compositor.layers@.filter(
                |entry: LayerEntry| entry.id.owner() != *handle,
            ),
            final(gc_signal).triggered == (old(gc_signal).triggered
                || final(self).linked_sessions@.len() == 0),
            final(self).new_chunk == old(self).new_chunk,
            final(self).position == old(self).position,
            final(self).modified == old(self).modified,
            final(self).main_layer == old(self).main_layer,
            final(self).compressed_image_data == old(self).compressed_image_data,
    {
        match self.find_linked(handle) {
            Some(idx) => {
                let ghost before = linked_handles(self.linked_sessions@);
                proof {
                    assert(before[idx as int] == *handle);
                    let j = before.index_of(*handle);
                    assert(before[j] == *handle);
                    assert(j == idx);
                }
                self.linked_sessions.remove(idx);
                proof {
                    let after = linked_handles(self.linked_sessions@);
                    assert(after =~= before.remove(idx as int));
                    assert forall|i: int, j: int|
                        0 <= i < after.len() && 0 <= j < after.len() && i != j implies after[i]
                        != after[j] by {
                        let bi = if i < idx { i } else { i + 1 };
                        let bj = if j < idx { j } else { j + 1 };
                        assert(after[i] == before[bi]);
                        assert(after[j] == before[bj]);
                    }
                    assert forall|i: int| 0 <= i < after.len() implies after[i] != *handle by {
                        let bi = if i < idx { i } else { i + 1 };
                        assert(after[i] == before[bi]);
                    }
                }
            },
            None => {},
        }
        if self.linked_sessions.len() == 0 {
            gc_signal.notify();
        }
        self.compositor.deref_session(handle);
    }
}

/// Every chunk in keeping with itself holds a block only beside pixels that
/// the block decodes to.
pub proof fn lemma_cached_block_decodes_to_base(chunk: ChunkInstance)
    requires
        chunk.wf(),
        chunk.compressed_image_data is Some,
        chunk.main_layer.is_allocated(),
    ensures
        lz4_unblock(chunk.compressed_image_data->Some_0@, 196608) == Some(chunk.main_layer.bytes()),
        decoded_or_white(chunk.compressed_image_data->Some_0@) == chunk.main_layer.bytes(),
{
}

} // verus!

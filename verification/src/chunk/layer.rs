//! Dense pixel buffers of one chunk: RGB for the base, RGBA for overlays.

use vstd::prelude::*;
use crate::compression::{compress_lz4, lz4_block, lz4_block_len_max, lz4_unblock};
use crate::limits::{CHUNK_IMAGE_SIZE_BYTES_RGB, CHUNK_IMAGE_SIZE_BYTES_RGBA};
use crate::pixel::{ColorRGB, ColorRGBA};
use crate::vector::U8Vec2;

verus! {

/// A colour at a position inside one chunk.
#[derive(Clone, Copy, PartialEq, Eq, Structural, Debug)]
pub struct ChunkPixelRGB {
    pub pos: U8Vec2,
    pub color: ColorRGB,
}

/// A colour with opacity at a position inside one chunk.
#[derive(Clone, Copy, PartialEq, Eq, Structural, Debug)]
pub struct ChunkPixelRGBA {
    pub pos: U8Vec2,
    pub color: ColorRGBA,
}

/// Bytes of an RGBA image of one chunk, row by row.
pub struct RGBAData(pub Vec<u8>);

/// Bytes of an RGB image of one chunk, row by row.
pub struct RGBData(pub Vec<u8>);

/// An overlay: empty, or 256×256 pixels of four bytes.
pub struct LayerRGBA {
    pub data: RGBAData,
}

/// A base image: empty, or 256×256 pixels of three bytes.
pub struct LayerRGB {
    pub data: RGBData,
}

/// Where the pixel `pos` starts in an RGBA image.
pub open spec fn rgba_offset(pos: U8Vec2) -> int {
    pos.y as int * 1024 + pos.x as int * 4
}

/// Where the pixel `pos` starts in an RGB image.
pub open spec fn rgb_offset(pos: U8Vec2) -> int {
    pos.y as int * 768 + pos.x as int * 3
}

/// The pixel `pos` of an RGBA image.
pub open spec fn rgba_at(data: Seq<u8>, pos: U8Vec2) -> ColorRGBA {
    ColorRGBA {
        r: data[rgba_offset(pos)],
        g: data[rgba_offset(pos) + 1],
        b: data[rgba_offset(pos) + 2],
        a: data[rgba_offset(pos) + 3],
    }
}

/// The pixel `pos` of an RGB image.
pub open spec fn rgb_at(data: Seq<u8>, pos: U8Vec2) -> ColorRGB {
    ColorRGB { r: data[rgb_offset(pos)], g: data[rgb_offset(pos) + 1], b: data[rgb_offset(pos) + 2] }
}

/// An RGBA image with the pixel `pos` replaced.
pub open spec fn rgba_put(data: Seq<u8>, pos: U8Vec2, color: ColorRGBA) -> Seq<u8> {
    data.update(rgba_offset(pos), color.r).update(rgba_offset(pos) + 1, color.g).update(
        rgba_offset(pos) + 2,
        color.b,
    ).update(rgba_offset(pos) + 3, color.a)
}

/// An RGB image with the pixel `pos` replaced.
pub open spec fn rgb_put(data: Seq<u8>, pos: U8Vec2, color: ColorRGB) -> Seq<u8> {
    data.update(rgb_offset(pos), color.r).update(rgb_offset(pos) + 1, color.g).update(
        rgb_offset(pos) + 2,
        color.b,
    )
}

/// An RGBA image after the writes `pixels`, applied first to last.
pub open spec fn rgba_put_all(data: Seq<u8>, pixels: Seq<ChunkPixelRGBA>) -> Seq<u8>
    decreases pixels.len(),
{
    if pixels.len() == 0 {
        data
    } else {
        rgba_put(rgba_put_all(data, pixels.drop_last()), pixels.last().pos, pixels.last().color)
    }
}

/// An RGB image after the writes `pixels`, applied first to last.
pub open spec fn rgb_put_all(data: Seq<u8>, pixels: Seq<ChunkPixelRGB>) -> Seq<u8>
    decreases pixels.len(),
{
    if pixels.len() == 0 {
        data
    } else {
        rgb_put(rgb_put_all(data, pixels.drop_last()), pixels.last().pos, pixels.last().color)
    }
}

/// An image of `len` bytes that all hold `value`.
pub open spec fn filled(len: int, value: u8) -> Seq<u8> {
    Seq::new(len as nat, |i: int| value)
}

/// Replacing a pixel of an RGB image changes that pixel and no other.
pub proof fn lemma_rgb_put_at(data: Seq<u8>, pos: U8Vec2, color: ColorRGB, other: U8Vec2)
    requires
        data.len() == 196608,
    ensures
        rgb_put(data, pos, color).len() == 196608,
        rgb_at(rgb_put(data, pos, color), other) == if other == pos {
            color
        } else {
            rgb_at(data, other)
        },
{
}

/// Writes keep the size of an RGB image.
pub proof fn lemma_rgb_put_all_len(data: Seq<u8>, pixels: Seq<ChunkPixelRGB>)
    requires
        data.len() == 196608,
    ensures
        rgb_put_all(data, pixels).len() == data.len(),
    decreases pixels.len(),
{
    if pixels.len() > 0 {
        lemma_rgb_put_all_len(data, pixels.drop_last());
    }
}

/// Writes keep the size of an RGBA image.
pub proof fn lemma_rgba_put_all_len(data: Seq<u8>, pixels: Seq<ChunkPixelRGBA>)
    requires
        data.len() == 262144,
    ensures
        rgba_put_all(data, pixels).len() == data.len(),
    decreases pixels.len(),
{
    if pixels.len() > 0 {
        lemma_rgba_put_all_len(data, pixels.drop_last());
    }
}

/// Writing a pixel that already has the written colour changes nothing.
pub proof fn lemma_rgb_put_same(data: Seq<u8>, pos: U8Vec2)
    requires
        data.len() == 196608,
    ensures
        rgb_put(data, pos, rgb_at(data, pos)) == data,
{
    assert(rgb_put(data, pos, rgb_at(data, pos)) =~= data);
}

impl LayerRGBA {
    /// The bytes of the layer; none where it is empty.
    pub open spec fn bytes(&self) -> Seq<u8> {
        self.data.0@
    }

    /// The layer holds a whole image.
    pub open spec fn is_allocated(&self) -> bool {
        self.data.0@.len() == 262144
    }

    /// The layer is empty or holds a whole image.
    pub open spec fn wf(&self) -> bool {
        self.data.0@.len() == 0 || self.data.0@.len() == 262144
    }

    /// An empty layer.
    pub fn new() -> (layer: Self)
        ensures
            layer.bytes() == Seq::<u8>::empty(),
            layer.wf(),
    {
        LayerRGBA { data: RGBAData(Vec::new()) }
    }

    /// The image, where the layer holds any bytes.
    pub fn read(&self) -> (data: Option<&RGBAData>)
        ensures
            self.bytes().len() == 0 ==> data is None,
            self.bytes().len() != 0 ==> data == Some(&self.data),
    {
        if self.data.0.len() == 0 {
            None
        } else {
            Some(&self.data)
        }
    }

    /// Replaces the bytes of the layer.
    pub fn set_data(&mut self, data: RGBAData)
        ensures
            final(self).data == data,
    {
        self.data = data;
    }

    /// The bytes of the layer, whether it is empty or not.
    pub fn read_unchecked(&self) -> (data: &RGBAData)
        ensures
            data == &self.data,
    {
        &self.data
    }

    /// The LZ4 block of the bytes of the layer, which decodes back to them.
    pub fn compress_lz4(&self) -> (out: Vec<u8>)
        ensures
            out@ == lz4_block(self.bytes()),
            out@.len() <= lz4_block_len_max(self.bytes().len() as int),
            lz4_unblock(out@, self.bytes().len() as int) == Some(self.bytes()),
    {
        compress_lz4(self.data.0.as_slice())
    }

    /// The bytes of the layer, to be changed in place.
    pub fn read_unchecked_mut(&mut self) -> (data: &mut RGBAData)
        ensures
            *data == old(self).data,
            final(self).data == *final(data),
    {
        &mut self.data
    }

    /// Makes the layer a whole image of transparent black.
    pub fn alloc_transparent_black(&mut self)
        ensures
            final(self).bytes() == filled(262144, 0),
            final(self).is_allocated(),
    {
        let data: Vec<u8> = vec![0u8; CHUNK_IMAGE_SIZE_BYTES_RGBA];
        assert(data@ =~= filled(262144, 0));
        self.data = RGBAData(data);
    }

    /// Makes the layer a whole image of transparent black.
    pub fn alloc_blank(&mut self)
        ensures
            final(self).bytes() == filled(262144, 0),
            final(self).is_allocated(),
    {
        self.alloc_transparent_black();
    }

    /// Empties the layer.
    pub fn free(&mut self)
        ensures
            final(self).bytes() == Seq::<u8>::empty(),
    {
        self.data = RGBAData(Vec::new());
    }

    /// The pixel at `chunk_pixel_pos` of an allocated layer.
    pub fn get_pixel(&self, chunk_pixel_pos: U8Vec2) -> (color: ColorRGBA)
        requires
            self.is_allocated(),
        ensures
            color == rgba_at(self.bytes(), chunk_pixel_pos),
    {
        let offset: usize = chunk_pixel_pos.y as usize * 1024 + chunk_pixel_pos.x as usize * 4;
        ColorRGBA {
            r: self.data.0[offset],
            g: self.data.0[offset + 1],
            b: self.data.0[offset + 2],
            a: self.data.0[offset + 3],
        }
    }

    /// Replaces the pixel at `chunk_pixel_pos` of an allocated layer.
    pub fn set_pixel(&mut self, chunk_pixel_pos: U8Vec2, color: ColorRGBA)
        requires
            old(self).is_allocated(),
        ensures
            final(self).bytes() == rgba_put(old(self).bytes(), chunk_pixel_pos, color),
            final(self).is_allocated(),
    {
        let offset: usize = chunk_pixel_pos.y as usize * 1024 + chunk_pixel_pos.x as usize * 4;
        self.data.0[offset] = color.r;
        self.data.0[offset + 1] = color.g;
        self.data.0[offset + 2] = color.b;
        self.data.0[offset + 3] = color.a;
    }

    /// Applies the writes `pixels`, first to last, to an allocated layer.
    pub fn set_pixels(&mut self, pixels: &[ChunkPixelRGBA])
        requires
            old(self).is_allocated(),
        ensures
            final(self).bytes() == rgba_put_all(old(self).bytes(), pixels@),
            final(self).is_allocated(),
    {
        let mut i: usize = 0;
        while i < pixels.len()
            invariant
                i <= pixels@.len(),
                self.is_allocated(),
                self.bytes() == rgba_put_all(old(self).bytes(), pixels@.take(i as int)),
            decreases pixels@.len() - i,
        {
            let pixel = pixels[i];
            self.set_pixel(pixel.pos, pixel.color);
            proof {
                assert(pixels@.take(i as int + 1).drop_last() =~= pixels@.take(i as int));
            }
            i += 1;
        }
        proof {
            assert(pixels@.take(pixels@.len() as int) =~= pixels@);
        }
    }
}

impl LayerRGB {
    /// The bytes of the layer; none where it is empty.
    pub open spec fn bytes(&self) -> Seq<u8> {
        self.data.0@
    }

    /// The layer holds a whole image.
    pub open spec fn is_allocated(&self) -> bool {
        self.data.0@.len() == 196608
    }

    /// The layer is empty or holds a whole image.
    pub open spec fn wf(&self) -> bool {
        self.data.0@.len() == 0 || self.data.0@.len() == 196608
    }

    /// An empty layer.
    pub fn new() -> (layer: Self)
        ensures
            layer.bytes() == Seq::<u8>::empty(),
            layer.wf(),
    {
        LayerRGB { data: RGBData(Vec::new()) }
    }

    /// The image, where the layer holds any bytes.
    pub fn read(&self) -> (data: Option<&RGBData>)
        ensures
            self.bytes().len() == 0 ==> data is None,
            self.bytes().len() != 0 ==> data == Some(&self.data),
    {
        if self.data.0.len() == 0 {
            None
        } else {
            Some(&self.data)
        }
    }

    /// Replaces the bytes of the layer.
    pub fn apply(&mut self, data: RGBData)
        ensures
            final(self).data == data,
    {
        self.data = data;
    }

    /// The bytes of the layer, whether it is empty or not.
    pub fn read_unchecked(&self) -> (data: &RGBData)
        ensures
            data == &self.data,
    {
        &self.data
    }

    /// The LZ4 block of the bytes of the layer, which decodes back to them.
    pub fn compress_lz4(&self) -> (out: Vec<u8>)
        ensures
            out@ == lz4_block(self.bytes()),
            out@.len() <= lz4_block_len_max(self.bytes().len() as int),
            lz4_unblock(out@, self.bytes().len() as int) == Some(self.bytes()),
    {
        compress_lz4(self.data.0.as_slice())
    }

    /// Makes the layer a whole image of white.
    pub fn alloc_white(&mut self)
        ensures
            final(self).bytes() == filled(196608, 255),
            final(self).is_allocated(),
    {
        let data: Vec<u8> = vec![255u8; CHUNK_IMAGE_SIZE_BYTES_RGB];
        assert(data@ =~= filled(196608, 255));
        self.data = RGBData(data);
    }

    /// Empties the layer.
    pub fn free(&mut self)
        ensures
            final(self).bytes() == Seq::<u8>::empty(),
    {
        self.data = RGBData(Vec::new());
    }

    /// The pixel at `chunk_pixel_pos` of an allocated layer.
    pub fn get_pixel(&self, chunk_pixel_pos: U8Vec2) -> (color: ColorRGB)
        requires
            self.is_allocated(),
        ensures
            color == rgb_at(self.bytes(), chunk_pixel_pos),
    {
        let offset: usize = chunk_pixel_pos.y as usize * 768 + chunk_pixel_pos.x as usize * 3;
        ColorRGB { r: self.data.0[offset], g: self.data.0[offset + 1], b: self.data.0[offset + 2] }
    }

    /// Replaces the pixel at `chunk_pixel_pos` of an allocated layer.
    pub fn set_pixel(&mut self, chunk_pixel_pos: U8Vec2, color: ColorRGB)
        requires
            old(self).is_allocated(),
        ensures
            final(self).bytes() == rgb_put(old(self).bytes(), chunk_pixel_pos, color),
            final(self).is_allocated(),
    {
        let offset: usize = chunk_pixel_pos.y as usize * 768 + chunk_pixel_pos.x as usize * 3;
        self.data.0[offset] = color.r;
        self.data.0[offset + 1] = color.g;
        self.data.0[offset + 2] = color.b;
    }

    /// Applies the writes `pixels`, first to last, to an allocated layer.
    pub fn set_pixels(&mut self, pixels: &[ChunkPixelRGB])
        requires
            old(self).is_allocated(),
        ensures
            final(self).bytes() == rgb_put_all(old(self).bytes(), pixels@),
            final(self).is_allocated(),
    {
        let mut i: usize = 0;
        while i < pixels.len()
            invariant
                i <= pixels@.len(),
                self.is_allocated(),
                self.bytes() == rgb_put_all(old(self).bytes(), pixels@.take(i as int)),
            decreases pixels@.len() - i,
        {
            let pixel = pixels[i];
            self.set_pixel(pixel.pos, pixel.color);
            proof {
                assert(pixels@.take(i as int + 1).drop_last() =~= pixels@.take(i as int));
            }
            i += 1;
        }
        proof {
            assert(pixels@.take(pixels@.len() as int) =~= pixels@);
        }
    }
}

} // verus!

//! Overlays of the sessions that draw on one chunk, and their blend with
//! the base.

use vstd::prelude::*;
use crate::chunk::layer::{
    lemma_rgb_put_at, rgb_at, rgb_offset, rgb_put, rgba_at, ChunkPixelRGB, LayerRGB, LayerRGBA,
    RGBData,
};
use crate::chunk::picks::{picked, picks_get, picks_len, picks_new, picks_push, LayerPicks};
use crate::id::SessionHandle;
use crate::pixel::{blend_spec, ColorRGB, ColorRGBA};
use crate::vector::U8Vec2;

verus! {

pub struct CompositionLayer {
    pub layer: LayerRGBA,
}

/// Names an overlay: the generation that its session gave it, and the
/// session.
#[derive(Clone, Copy, PartialEq, Eq, Structural, Debug, Hash)]
pub enum LayerID {
    Session(u64, SessionHandle),
}

/// One overlay under its name.
pub struct LayerEntry {
    pub id: LayerID,
    pub layer: CompositionLayer,
}

/// The overlays of one chunk, oldest first. No name occurs twice.
pub struct Compositor {
    pub layers: Vec<LayerEntry>,
}

impl LayerID {
    /// The session that owns the overlay.
    pub open spec fn owner(self) -> SessionHandle {
        match self {
            LayerID::Session(_, handle) => handle,
        }
    }

    /// The session that owns the overlay.
    pub fn session(&self) -> (handle: SessionHandle)
        ensures
            handle == self.owner(),
    {
        match self {
            LayerID::Session(_, handle) => *handle,
        }
    }
}

impl CompositionLayer {
    /// An overlay without an image.
    pub fn new() -> (layer: Self)
        ensures
            layer.layer.bytes() == Seq::<u8>::empty(),
    {
        CompositionLayer { layer: LayerRGBA::new() }
    }
}

/// The names of `layers`, in order.
pub open spec fn layer_ids(layers: Seq<LayerEntry>) -> Seq<LayerID> {
    layers.map_values(|entry: LayerEntry| entry.id)
}

/// Some overlay in `layers` belongs to the session `handle`.
pub open spec fn session_has_layer(layers: Seq<LayerEntry>, handle: SessionHandle) -> bool {
    exists|i: int| 0 <= i < layers.len() && (#[trigger] layers[i]).id.owner() == handle
}

/// The overlay at `index` belongs to `handle` and holds an image.
pub open spec fn is_pick(layers: Seq<LayerEntry>, handle: SessionHandle, index: int) -> bool {
    layers[index].id.owner() == handle && layers[index].layer.layer.is_allocated()
}

/// The indices below `upto` of the overlays that belong to `handle` and hold
/// an image, in ascending order.
pub open spec fn session_picks(layers: Seq<LayerEntry>, handle: SessionHandle, upto: int) -> Seq<
    usize,
>
    decreases upto,
{
    if upto <= 0 {
        Seq::empty()
    } else if is_pick(layers, handle, upto - 1) {
        session_picks(layers, handle, upto - 1).push((upto - 1) as usize)
    } else {
        session_picks(layers, handle, upto - 1)
    }
}

/// Every index in `picks` names an overlay of `layers` that holds an image.
pub open spec fn picks_valid(layers: Seq<LayerEntry>, picks: Seq<usize>) -> bool {
    forall|k: int|
        0 <= k < picks.len() ==> (#[trigger] picks[k]) < layers.len()
            && layers[picks[k] as int].layer.layer.is_allocated()
}

/// The colours that the picked overlays hold at `pos`, in blending order.
pub open spec fn stack_colors(layers: Seq<LayerEntry>, picks: Seq<usize>, pos: U8Vec2) -> Seq<
    ColorRGBA,
> {
    Seq::new(picks.len(), |k: int| rgba_at(layers[picks[k] as int].layer.layer.bytes(), pos))
}

/// `colors` blended over `base` one after the other, each with its own
/// opacity as weight.
pub open spec fn blend_stack(base: ColorRGBA, colors: Seq<ColorRGBA>) -> ColorRGBA
    decreases colors.len(),
{
    if colors.len() == 0 {
        base
    } else {
        blend_spec(colors.last().a, blend_stack(base, colors.drop_last()), colors.last())
    }
}

/// The colour that a client sees at `pos`: the picked overlays blended over
/// the opaque base.
pub open spec fn composed_pixel(
    base: Seq<u8>,
    layers: Seq<LayerEntry>,
    picks: Seq<usize>,
    pos: U8Vec2,
) -> ColorRGB {
    let seen = blend_stack(
        ColorRGBA { r: rgb_at(base, pos).r, g: rgb_at(base, pos).g, b: rgb_at(base, pos).b, a: 255 },
        stack_colors(layers, picks, pos),
    );
    ColorRGB { r: seen.r, g: seen.g, b: seen.b }
}

/// `image` is the base with the picked overlays blended over every pixel.
pub open spec fn is_composite(
    image: Seq<u8>,
    base: Seq<u8>,
    layers: Seq<LayerEntry>,
    picks: Seq<usize>,
) -> bool {
    &&& image.len() == 196608
    &&& forall|pos: U8Vec2| #[trigger] rgb_at(image, pos) == composed_pixel(base, layers, picks, pos)
}

/// The bytes of pixel number `index`, counted row by row, are those of the
/// pixel at that position.
pub open spec fn pos_of_index(index: int) -> U8Vec2 {
    U8Vec2 { x: (index % 256) as u8, y: (index / 256) as u8 }
}

/// An RGB image is known by its pixels.
pub proof fn lemma_rgb_image_by_pixels(a: Seq<u8>, b: Seq<u8>)
    requires
        a.len() == 196608,
        b.len() == 196608,
        forall|pos: U8Vec2| #[trigger] rgb_at(a, pos) == rgb_at(b, pos),
    ensures
        a == b,
{
    assert forall|i: int| 0 <= i < 196608 implies a[i] == b[i] by {
        let p = i / 3;
        let pos = pos_of_index(p);
        assert(rgb_at(a, pos) == rgb_at(b, pos));
        assert(rgb_offset(pos) == 3 * p);
    }
    assert(a =~= b);
}

/// Two composites of the same base and overlays are the same image.
pub proof fn lemma_composite_unique(
    a: Seq<u8>,
    b: Seq<u8>,
    base: Seq<u8>,
    layers: Seq<LayerEntry>,
    picks: Seq<usize>,
)
    requires
        is_composite(a, base, layers, picks),
        is_composite(b, base, layers, picks),
    ensures
        a == b,
{
    assert forall|pos: U8Vec2| #[trigger] rgb_at(a, pos) == rgb_at(b, pos) by {
        assert(rgb_at(a, pos) == composed_pixel(base, layers, picks, pos));
        assert(rgb_at(b, pos) == composed_pixel(base, layers, picks, pos));
    }
    lemma_rgb_image_by_pixels(a, b);
}

/// The picks of a session are valid, and there are none where the session
/// has no overlay.
pub proof fn lemma_session_picks(layers: Seq<LayerEntry>, handle: SessionHandle, upto: int)
    requires
        0 <= upto <= layers.len() <= usize::MAX,
    ensures
        picks_valid(layers, session_picks(layers, handle, upto)),
        session_picks(layers, handle, upto).len() <= upto,
        !session_has_layer(layers, handle) ==> session_picks(layers, handle, upto).len() == 0,
    decreases upto,
{
    if upto > 0 {
        lemma_session_picks(layers, handle, upto - 1);
        let prev = session_picks(layers, handle, upto - 1);
        let cur = session_picks(layers, handle, upto);
        if is_pick(layers, handle, upto - 1) {
            assert(layers[upto - 1].id.owner() == handle);
            assert forall|k: int| 0 <= k < cur.len() implies (#[trigger] cur[k]) < layers.len()
                && layers[cur[k] as int].layer.layer.is_allocated() by {
                if k < prev.len() {
                    assert(cur[k] == prev[k]);
                }
            }
        }
    }
}

impl Compositor {
    /// No name occurs twice, and every overlay is empty or a whole image.
    pub open spec fn wf(&self) -> bool {
        &&& layer_ids(self.layers@).no_duplicates()
        &&& forall|i: int| 0 <= i < self.layers@.len() ==> (#[trigger] self.layers@[i]).layer.layer.wf()
    }

    /// A compositor without overlays.
    pub fn new() -> (c: Self)
        ensures
            c.layers@ == Seq::<LayerEntry>::empty(),
            c.wf(),
    {
        Compositor { layers: Vec::new() }
    }

    /// Finds the overlay named `id`.
    fn find(&self, id: &LayerID) -> (found: Option<usize>)
        ensures
            match found {
                Some(i) => i < self.layers@.len() && self.layers@[i as int].id == *id,
                None => !layer_ids(self.layers@).contains(*id),
            },
    {
        let mut i: usize = 0;
        while i < self.layers.len()
            invariant
                i <= self.layers@.len(),
                forall|j: int| 0 <= j < i ==> (#[trigger] self.layers@[j]).id != *id,
            decreases self.layers@.len() - i,
        {
            if self.layers[i].id == *id {
                return Some(i);
            }
            i += 1;
        }
        assert forall|j: int| 0 <= j < layer_ids(self.layers@).len() implies layer_ids(
            self.layers@,
        )[j] != *id by {
            assert(layer_ids(self.layers@)[j] == self.layers@[j].id);
        }
        None
    }

    /// The overlay named `id`; where there is none yet, a new one without an
    /// image is added behind the others.
    pub fn get_or_alloc_mut(&mut self, id: &LayerID) -> (layer: &mut CompositionLayer)
        requires
            old(self).wf(),
        ensures
            layer_ids(old(self).layers@).contains(*id) ==> {
                let i = layer_ids(old(self).layers@).index_of(*id);
                &&& *layer == old(self).layers@[i].layer
                &&& final(self).layers@ == old(self).layers@.update(
                    i,
                    LayerEntry { id: *id, layer: *final(layer) },
                )
            },
            !layer_ids(old(self).layers@).contains(*id) ==> {
                &&& layer.layer.bytes() == Seq::<u8>::empty()
                &&& final(self).layers@ == old(self).layers@.push(
                    LayerEntry { id: *id, layer: *final(layer) },
                )
            },
    {
        let found = self.find(id);
        let at: usize = match found {
            Some(i) => {
                proof {
                    let ids = layer_ids(self.layers@);
                    assert(ids[i as int] == *id);
                    let j = ids.index_of(*id);
                    assert(ids[j] == *id);
                }
                i
            },
            None => {
                self.layers.push(LayerEntry { id: *id, layer: CompositionLayer::new() });
                self.layers.len() - 1
            },
        };
        &mut self.layers[at].layer
    }

    /// The overlay named `layer_id`, if there is one.
    pub fn get(&self, layer_id: &LayerID) -> (layer: Option<&CompositionLayer>)
        requires
            self.wf(),
        ensures
            layer is Some <==> layer_ids(self.layers@).contains(*layer_id),
            layer matches Some(found) ==> *found == self.layers@[layer_ids(self.layers@).index_of(
                *layer_id,
            )].layer,
    {
        match self.find(layer_id) {
            Some(i) => {
                proof {
                    let ids = layer_ids(self.layers@);
                    assert(ids[i as int] == *layer_id);
                    let j = ids.index_of(*layer_id);
                    assert(ids[j] == *layer_id);
                }
                Some(&self.layers[i].layer)
            },
            None => None,
        }
    }

    /// The overlay named `layer_id`, if there is one, to be changed in place.
    pub fn get_mut(&mut self, layer_id: &LayerID) -> (layer: Option<&mut CompositionLayer>)
        requires
            old(self).wf(),
        ensures
            layer is Some <==> layer_ids(old(self).layers@).contains(*layer_id),
            layer is None ==> final(self).layers@ == old(self).layers@,
            layer matches Some(found) ==> {
                let i = layer_ids(old(self).layers@).index_of(*layer_id);
                &&& *found == old(self).layers@[i].layer
                &&& final(self).layers@ == old(self).layers@.update(
                    i,
                    LayerEntry { id: *layer_id, layer: *final(found) },
                )
            },
    {
        match self.find(layer_id) {
            Some(i) => {
                proof {
                    let ids = layer_ids(self.layers@);
                    assert(ids[i as int] == *layer_id);
                    let j = ids.index_of(*layer_id);
                    assert(ids[j] == *layer_id);
                }
                Some(&mut self.layers[i].layer)
            },
            None => None,
        }
    }

    /// The colour that a client sees at `chunk_pixel_pos` when the picked
    /// overlays lie over `base`.
    pub fn calc_pixel(&self, base: &LayerRGB, picks: &LayerPicks, chunk_pixel_pos: U8Vec2) -> (color:
        ColorRGB)
        requires
            base.is_allocated(),
            picks_valid(self.layers@, picked(*picks)),
        ensures
            color == composed_pixel(base.bytes(), self.layers@, picked(*picks), chunk_pixel_pos),
    {
        let ghost colors = stack_colors(self.layers@, picked(*picks), chunk_pixel_pos);
        let ground = base.get_pixel(chunk_pixel_pos);
        let mut col = ColorRGBA { r: ground.r, g: ground.g, b: ground.b, a: 255 };
        let ghost start = col;
        let n = picks_len(picks);
        let mut k: usize = 0;
        while k < n
            invariant
                n == picked(*picks).len(),
                k <= n,
                picks_valid(self.layers@, picked(*picks)),
                colors == stack_colors(self.layers@, picked(*picks), chunk_pixel_pos),
                col == blend_stack(start, colors.take(k as int)),
            decreases n - k,
        {
            let index = picks_get(picks, k);
            assert(picked(*picks)[k as int] == index);
            let rgba = self.layers[index].layer.layer.get_pixel(chunk_pixel_pos);
            proof {
                assert(colors.take(k as int + 1).drop_last() =~= colors.take(k as int));
                assert(colors.take(k as int + 1).last() == rgba);
            }
            col = ColorRGBA::blend_gamma_corrected(rgba.a, col, rgba);
            k += 1;
        }
        proof {
            assert(colors.take(n as int) =~= colors);
        }
        ColorRGB { r: col.r, g: col.g, b: col.b }
    }

    /// Removes the overlay named `layer_id`, if there is one.
    pub fn remove_layer_id(&mut self, layer_id: LayerID)
        requires
            old(self).wf(),
        ensures
            final(self).wf(),
            final(self).layers@ == old(self).layers@.filter(|entry: LayerEntry| entry.id != layer_id),
            !layer_ids(final(self).layers@).contains(layer_id),
    {
        self.retain_layers(Ghost(|entry: LayerEntry| entry.id != layer_id), Some(layer_id), None);
        proof {
            let kept = old(self).layers@.filter(|entry: LayerEntry| entry.id != layer_id);
            lemma_filter_keeps_pred(old(self).layers@, |entry: LayerEntry| entry.id != layer_id);
            assert forall|j: int| 0 <= j < layer_ids(kept).len() implies layer_ids(kept)[j]
                != layer_id by {
                assert(layer_ids(kept)[j] == kept[j].id);
            }
        }
    }

    /// Removes every overlay of the session `handle`.
    pub fn deref_session(&mut self, handle: &SessionHandle)
        requires
            old(self).wf(),
        ensures
            final(self).wf(),
            final(self).layers@ == old(self).layers@.filter(
                |entry: LayerEntry| entry.id.owner() != *handle,
            ),
            !session_has_layer(final(self).layers@, *handle),
    {
        self.retain_layers(
            Ghost(|entry: LayerEntry| entry.id.owner() != *handle),
            None,
            Some(*handle),
        );
        proof {
            lemma_filter_keeps_pred(
                old(self).layers@,
                |entry: LayerEntry| entry.id.owner() != *handle,
            );
        }
    }

    /// Keeps the overlays that `keep` holds of and drops the others: those
    /// named `drop_id`, or those owned by `drop_owner`.
    fn retain_layers(
        &mut self,
        Ghost(keep): Ghost<spec_fn(LayerEntry) -> bool>,
        drop_id: Option<LayerID>,
        drop_owner: Option<SessionHandle>,
    )
        requires
            old(self).wf(),
            forall|entry: LayerEntry|
                #[trigger] keep(entry) == !(drop_id == Some(entry.id) || drop_owner == Some(
                    entry.id.owner(),
                )),
        ensures
            final(self).wf(),
            final(self).layers@ == old(self).layers@.filter(keep),
    {
        let ghost original = self.layers@;
        let ghost mut done: int = 0;
        let mut i: usize = 0;
        proof {
            reveal(Seq::filter);
            assert(original.take(0).filter(keep) =~= Seq::<LayerEntry>::empty());
            assert(original.skip(0) =~= original);
        }
        while i < self.layers.len()
            invariant
                0 <= done <= original.len(),
                i <= self.layers@.len(),
                i == original.take(done).filter(keep).len(),
                self.layers@ == original.take(done).filter(keep) + original.skip(done),
                forall|entry: LayerEntry|
                    #[trigger] keep(entry) == !(drop_id == Some(entry.id) || drop_owner == Some(
                        entry.id.owner(),
                    )),
            decreases original.len() - done,
        {
            let ghost before = self.layers@;
            assert(before[i as int] == original.skip(done)[0]);
            assert(original.skip(done)[0] == original[done]);
            let id = self.layers[i].id;
            let dropped = match drop_id {
                Some(d) => d == id,
                None => false,
            } || match drop_owner {
                Some(h) => h == id.session(),
                None => false,
            };
            proof {
                reveal(Seq::filter);
                assert(original.take(done + 1).drop_last() =~= original.take(done));
                assert(original.take(done + 1).last() == original[done]);
                assert(dropped == !keep(original[done]));
            }
            if dropped {
                self.layers.remove(i);
                proof {
                    assert(self.layers@ =~= original.take(done + 1).filter(keep) + original.skip(
                        done + 1,
                    ));
                    done = done + 1;
                }
            } else {
                proof {
                    assert(self.layers@ =~= original.take(done + 1).filter(keep) + original.skip(
                        done + 1,
                    ));
                    done = done + 1;
                }
                i += 1;
            }
        }
        proof {
            assert(original.skip(done).len() == 0);
            assert(done == original.len());
            assert(original.take(done) =~= original);
            assert(self.layers@ =~= original.filter(keep));
            lemma_filter_keeps_wf(original, keep);
        }
    }

    /// Whether some overlay belongs to the session `handle`.
    pub fn has_session_composition(&self, handle: &SessionHandle) -> (has: bool)
        ensures
            has == session_has_layer(self.layers@, *handle),
    {
        let mut i: usize = 0;
        while i < self.layers.len()
            invariant
                i <= self.layers@.len(),
                forall|j: int| 0 <= j < i ==> (#[trigger] self.layers@[j]).id.owner() != *handle,
            decreases self.layers@.len() - i,
        {
            if self.layers[i].id.session() == *handle {
                return true;
            }
            i += 1;
        }
        false
    }

    /// Picks the overlays of the session `handle` that hold an image, oldest
    /// first.
    pub fn construct_layers_from_session(&self, handle: &SessionHandle) -> (picks: LayerPicks)
        ensures
            picked(picks) == session_picks(self.layers@, *handle, self.layers@.len() as int),
            picks_valid(self.layers@, picked(picks)),
    {
        let mut picks = picks_new();
        let mut i: usize = 0;
        while i < self.layers.len()
            invariant
                i <= self.layers@.len(),
                picked(picks) == session_picks(self.layers@, *handle, i as int),
                picked(picks).len() <= i,
            decreases self.layers@.len() - i,
        {
            proof {
                lemma_session_picks(self.layers@, *handle, i as int);
            }
            if self.layers[i].id.session() == *handle && self.layers[i].layer.layer.data.0.len()
                == 262144 {
                picks_push(&mut picks, i);
            }
            i += 1;
        }
        proof {
            lemma_session_picks(self.layers@, *handle, self.layers@.len() as int);
        }
        picks
    }

    /// The image that a client sees when the picked overlays lie over
    /// `base`.
    pub fn composite(&self, base: &LayerRGB, picks: &LayerPicks) -> (out: LayerRGB)
        requires
            base.is_allocated(),
            picks_valid(self.layers@, picked(*picks)),
        ensures
            is_composite(out.bytes(), base.bytes(), self.layers@, picked(*picks)),
            out.is_allocated(),
    {
        let mut out = LayerRGB::new();
        out.alloc_white();
        let mut y: u32 = 0;
        while y < 256
            invariant
                y <= 256,
                base.is_allocated(),
                out.is_allocated(),
                picks_valid(self.layers@, picked(*picks)),
                forall|pos: U8Vec2|
                    pos.y < y ==> #[trigger] rgb_at(out.bytes(), pos) == composed_pixel(
                        base.bytes(),
                        self.layers@,
                        picked(*picks),
                        pos,
                    ),
            decreases 256 - y,
        {
            let mut x: u32 = 0;
            while x < 256
                invariant
                    y < 256,
                    x <= 256,
                    base.is_allocated(),
                    out.is_allocated(),
                    picks_valid(self.layers@, picked(*picks)),
                    forall|pos: U8Vec2|
                        (pos.y < y || (pos.y == y && pos.x < x)) ==> #[trigger] rgb_at(
                            out.bytes(),
                            pos,
                        ) == composed_pixel(base.bytes(), self.layers@, picked(*picks), pos),
                decreases 256 - x,
            {
                let here = U8Vec2 { x: x as u8, y: y as u8 };
                let color = self.calc_pixel(base, picks, here);
                let ghost before = out.bytes();
                out.set_pixel(here, color);
                proof {
                    assert forall|pos: U8Vec2|
                        (pos.y < y || (pos.y == y && pos.x < x + 1)) implies #[trigger] rgb_at(
                        out.bytes(),
                        pos,
                    ) == composed_pixel(base.bytes(), self.layers@, picked(*picks), pos) by {
                        lemma_rgb_put_at(before, here, color, pos);
                        if pos != here {
                            assert(rgb_at(before, pos) == composed_pixel(
                                base.bytes(),
                                self.layers@,
                                picked(*picks),
                                pos,
                            ));
                        }
                    }
                }
                x += 1;
            }
            y += 1;
        }
        out
    }
}

/// What is kept satisfies the test by which it was kept.
pub proof fn lemma_filter_keeps_pred(layers: Seq<LayerEntry>, keep: spec_fn(LayerEntry) -> bool)
    ensures
        forall|i: int| 0 <= i < layers.filter(keep).len() ==> keep(#[trigger] layers.filter(keep)[i]),
    decreases layers.len(),
{
    reveal(Seq::filter);
    if layers.len() > 0 {
        lemma_filter_keeps_pred(layers.drop_last(), keep);
    }
}

/// Dropping overlays keeps the names distinct and the images whole.
pub proof fn lemma_filter_keeps_wf(layers: Seq<LayerEntry>, keep: spec_fn(LayerEntry) -> bool)
    requires
        layer_ids(layers).no_duplicates(),
        forall|i: int| 0 <= i < layers.len() ==> (#[trigger] layers[i]).layer.layer.wf(),
    ensures
        layer_ids(layers.filter(keep)).no_duplicates(),
        forall|i: int|
            0 <= i < layers.filter(keep).len() ==> (#[trigger] layers.filter(keep)[i]).layer.layer.wf(),
        forall|i: int|
            0 <= i < layers.filter(keep).len() ==> layers.contains(#[trigger] layers.filter(keep)[i]),
    decreases layers.len(),
{
    reveal(Seq::filter);
    if layers.len() > 0 {
        let front = layers.drop_last();
        assert forall|i: int, j: int|
            0 <= i < layer_ids(front).len() && 0 <= j < layer_ids(front).len() && i != j implies layer_ids(
            front,
        )[i] != layer_ids(front)[j] by {
            assert(layer_ids(front)[i] == layer_ids(layers)[i]);
            assert(layer_ids(front)[j] == layer_ids(layers)[j]);
        }
        assert forall|i: int| 0 <= i < front.len() implies (#[trigger] front[i]).layer.layer.wf() by {
            assert(front[i] == layers[i]);
        }
        lemma_filter_keeps_wf(front, keep);
        let kept_front = front.filter(keep);
        let kept = layers.filter(keep);
        assert forall|i: int| 0 <= i < kept.len() implies layers.contains(#[trigger] kept[i]) by {
            if i < kept_front.len() {
                assert(kept[i] == kept_front[i]);
                assert(front.contains(kept_front[i]));
                let w = choose|w: int| 0 <= w < front.len() && front[w] == kept_front[i];
                assert(layers[w] == kept[i]);
            } else {
                assert(kept[i] == layers.last());
                assert(layers[layers.len() - 1] == kept[i]);
            }
        }
        assert forall|i: int| 0 <= i < kept.len() implies (#[trigger] kept[i]).layer.layer.wf() by {
            assert(layers.contains(kept[i]));
        }
        if keep(layers.last()) {
            assert forall|i: int, j: int|
                0 <= i < layer_ids(kept).len() && 0 <= j < layer_ids(kept).len() && i != j implies layer_ids(
                kept,
            )[i] != layer_ids(kept)[j] by {
                let last = kept.len() - 1;
                if i < last && j < last {
                    assert(layer_ids(kept)[i] == layer_ids(kept_front)[i]);
                    assert(layer_ids(kept)[j] == layer_ids(kept_front)[j]);
                } else {
                    let low = if i < last { i } else { j };
                    assert(kept[low] == kept_front[low]);
                    assert(front.contains(kept_front[low]));
                    let w = choose|w: int| 0 <= w < front.len() && front[w] == kept_front[low];
                    assert(layer_ids(layers)[w] == kept[low].id);
                    assert(layer_ids(layers)[layers.len() - 1] == kept[last].id);
                }
            }
        }
    }
}

} // verus!

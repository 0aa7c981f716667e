//! How the cursor of a session paints: each tool in turn, and undo.

use vstd::prelude::*;
use vstd::string::StringExecFns;
use vstd::utf8::encode_utf8;
use crate::canvas::{painted_on, set_pixels_main};
use crate::chunk::chunk::{delivered, Delivery};
use crate::chunk::system::{chunk_pos_of, chunk_positions, ChunkSystem};
use crate::history::History;
use crate::id::SessionHandle;
use crate::packet_client::ToolType;
use crate::packet_server::{prepare_packet_status_text, status_text_frame};
use crate::pixel::{ColorRGB, ColorRGBA, GlobalPixelRGBA};
use crate::random::draw_rolls;
use crate::room::RoomInstance;
use crate::session::{effective_tool_size, SessionInstance, ToolParams};
use crate::text::{decimal_text, number_to_string};
use crate::tool::blend::{
    blur_loaded, blur_pixels, blurred, smooth_brush_pixels, smooth_stroke, smudge_pixels,
    smudge_stroke,
};
use crate::tool::brush::{cells_from, lemma_cells_from_len, shape_data, BrushShapeIterCell, ShapeType};
use crate::tool::fill::{fill_pixels, in_flood};
use crate::tool::iter::{abs, line_len};
use crate::tool::paint::{
    brush_pixels, brush_stroke, spray_pixels, sprayed,
};
use crate::tool::reach::{reach_around, Reach};
use crate::util::{distance_squared_int32, manhattan};
use crate::vector::IVec2;

verus! {

/// The cells of the brush of the given kind.
pub open spec fn brush_cells(shape_type: ShapeType, size: u8, filled: bool) -> Seq<BrushShapeIterCell> {
    cells_from(shape_data(shape_type, size as int, filled), size as int, 0)
}

/// The colour of a tool as it is painted: opaque.
pub open spec fn paint_of(color: ColorRGB) -> ColorRGBA {
    ColorRGBA { r: color.r, g: color.g, b: color.b, a: 255 }
}

/// The part of the canvas that a tool may touch when the cursor moves from
/// `from` to `to`: what lies within 302 pixels of the way, or, where the
/// way is longer than 250 pixels in Manhattan distance and is therefore not
/// followed, of its end.
pub open spec fn stroke_reach(from: IVec2, to: IVec2) -> Reach {
    if manhattan(from, to) > 250 {
        reach_around(to, to, 302)
    } else {
        reach_around(from, to, 302)
    }
}

/// Where the chunks of a rectangle are loaded, so are those of a rectangle
/// inside it.
pub proof fn lemma_reach_inside(outer: Reach, inner: Reach, system: &ChunkSystem)
    requires
        outer.loaded(system),
        outer.lo.x <= inner.lo.x,
        outer.lo.y <= inner.lo.y,
        inner.hi.x <= outer.hi.x,
        inner.hi.y <= outer.hi.y,
    ensures
        inner.loaded(system),
{
    assert forall|chunk: IVec2| #[trigger] inner.meets(chunk) implies system.is_loaded(chunk) by {
        assert(outer.meets(chunk));
    }
}

/// The frames of an outbox, as whom they go to and their bytes.
pub type Sent = Seq<(SessionHandle, Seq<u8>)>;

/// Nothing but the cursor of the session and the canvas of the room has
/// changed, and the cursor is where it was.
pub open spec fn only_painted(
    before: SessionInstance,
    after: SessionInstance,
    room_before: RoomInstance,
    room_after: RoomInstance,
) -> bool {
    &&& after.same_but_painting(before)
    &&& after.state.cursor.just_clicked == before.state.cursor.just_clicked
    &&& room_after.sessions == room_before.sessions
    &&& room_after.preview_system == room_before.preview_system
    &&& room_after.cleaned_up == room_before.cleaned_up
}

/// The tool did nothing but, perhaps, let the cursor up.
pub open spec fn nothing_painted(
    before: SessionInstance,
    after: SessionInstance,
    room_before: RoomInstance,
    room_after: RoomInstance,
    sent_before: Sent,
    sent_after: Sent,
) -> bool {
    &&& after.history == before.history
    &&& room_after.chunk_system == room_before.chunk_system
    &&& sent_after == sent_before
}

/// The tool painted `pixels` and recorded what they replace.
pub open spec fn stroke_painted(
    before: SessionInstance,
    after: SessionInstance,
    room_before: RoomInstance,
    room_after: RoomInstance,
    sent_before: Sent,
    sent_after: Sent,
    pixels: Seq<GlobalPixelRGBA>,
) -> bool {
    painted_on(
        room_before.chunk_system,
        room_after.chunk_system,
        before.history,
        after.history,
        sent_before,
        sent_after,
        pixels,
        true,
    )
}

/// The way of the cursor is followed: the cursor is down, and the way is no
/// longer than 250 pixels in Manhattan distance.
pub open spec fn follows_cursor(session: SessionInstance) -> bool {
    session.state.cursor.down && manhattan(
        session.state.cursor.pos_prev.to_vec_spec(),
        session.state.cursor.pos.to_vec_spec(),
    ) <= 250
}

/// What the round or the square brush does: see `update_cursor_brush`.
pub open spec fn brush_effect(
    before: SessionInstance,
    after: SessionInstance,
    room_before: RoomInstance,
    room_after: RoomInstance,
    sent_before: Sent,
    sent_after: Sent,
    square: bool,
) -> bool {
    let size = effective_tool_size(before.tool.tool_type, before.tool.size);
    let kind = if square {
        ShapeType::Square
    } else {
        ShapeType::Circle
    };
    &&& only_painted(before, after, room_before, room_after)
    &&& after.state.cursor.down == follows_cursor(before)
    &&& !follows_cursor(before) ==> nothing_painted(
        before,
        after,
        room_before,
        room_after,
        sent_before,
        sent_after,
    )
    &&& follows_cursor(before) ==> stroke_painted(
        before,
        after,
        room_before,
        room_after,
        sent_before,
        sent_after,
        brush_stroke(
            before.state.cursor.pos_prev.to_vec_spec(),
            before.state.cursor.pos.to_vec_spec(),
            brush_cells(kind, size, true),
            brush_cells(kind, size, false),
            size as int,
            paint_of(before.tool.color),
            line_len(
                before.state.cursor.pos_prev.to_vec_spec(),
                before.state.cursor.pos.to_vec_spec(),
            ),
        ),
    )
}

/// What the spray does: see `update_cursor_spray`.
pub open spec fn spray_effect(
    before: SessionInstance,
    after: SessionInstance,
    room_before: RoomInstance,
    room_after: RoomInstance,
    sent_before: Sent,
    sent_after: Sent,
    spray_threshold: u32,
) -> bool {
    let size = effective_tool_size(before.tool.tool_type, before.tool.size);
    let from = before.state.cursor.pos_prev.to_vec_spec();
    let to = before.state.cursor.pos.to_vec_spec();
    &&& only_painted(before, after, room_before, room_after)
    &&& after.state.cursor.down == follows_cursor(before)
    &&& !follows_cursor(before) ==> nothing_painted(
        before,
        after,
        room_before,
        room_after,
        sent_before,
        sent_after,
    )
    &&& follows_cursor(before) ==> exists|rolls: Seq<u32>|
        {
            &&& rolls.len() == line_len(from, to) * brush_cells(ShapeType::Circle, size, true).len()
            &&& #[trigger] stroke_painted(
                before,
                after,
                room_before,
                room_after,
                sent_before,
                sent_after,
                sprayed(
                    from,
                    to,
                    brush_cells(ShapeType::Circle, size, true),
                    size as int,
                    paint_of(before.tool.color),
                    spray_threshold,
                    rolls,
                    rolls.len() as int,
                ),
            )
        }
}

/// What taking back a stroke does: see `process_command_undo`.
pub open spec fn undo_effect(
    before: SessionInstance,
    after: SessionInstance,
    system_before: ChunkSystem,
    system_after: ChunkSystem,
    sent_before: Sent,
    sent_after: Sent,
    session_handle: SessionHandle,
) -> bool {
    &&& after.same_but_painting(before)
    &&& after.state.cursor == before.state.cursor
    &&& if before.history.cells@.len() == 0 {
        &&& system_after == system_before
        &&& sent_after == sent_before
        &&& after.history.cells@.len() == 0
    } else {
        &&& after.history.cells@ == before.history.cells@.drop_last()
        &&& exists|between: Sent|
            {
                &&& #[trigger] painted_on(
                    system_before,
                    system_after,
                    after.history,
                    after.history,
                    sent_before.push(
                        (
                            session_handle,
                            status_text_frame(
                                encode_utf8(
                                    "Undoing "@ + decimal_text(
                                        before.history.cells@.last().pixels@.len() as u64,
                                    ) + " pixels..."@,
                                ),
                            ),
                        ),
                    ),
                    between,
                    before.history.cells@.last().pixels@,
                    false,
                )
                &&& sent_after == between.push(
                    (session_handle, status_text_frame(encode_utf8(""@))),
                )
            }
    }
}

/// Every pixel of the latest snapshot lies in a loaded chunk.
pub open spec fn undo_loaded(session: SessionInstance, system: &ChunkSystem) -> bool {
    session.history.cells@.len() > 0 ==> forall|k: int|
        0 <= k < session.history.cells@.last().pixels@.len() ==> system.is_loaded(
            chunk_pos_of((#[trigger] session.history.cells@.last().pixels@[k]).pos),
        )
}

/// A line is no longer than the Manhattan distance of its ends, and one
/// more.
pub proof fn lemma_line_len_bound(from: IVec2, to: IVec2)
    ensures
        1 <= line_len(from, to) <= manhattan(from, to) + 1,
{
}

impl SessionInstance {
    /// Everything but the history and the cursor is as in `other`.
    pub open spec fn same_but_painting(&self, other: SessionInstance) -> bool {
        &&& self.state.nick_name == other.state.nick_name
        &&& self.state.cursor.pos == other.state.cursor.pos
        &&& self.state.cursor.pos_prev == other.state.cursor.pos_prev
        &&& self.state.cursor.pos_sent == other.state.cursor.pos_sent
        &&& self.admin_mode == other.admin_mode
        &&& self.needs_boundary_test == other.needs_boundary_test
        &&& self.boundary == other.boundary
        &&& self.linked_chunks == other.linked_chunks
        &&& self.chunks_sent == other.chunks_sent
        &&& self.chunks_received == other.chunks_received
        &&& self.tool == other.tool
        &&& self.kicked == other.kicked
        &&& self.announced == other.announced
        &&& self.joined == other.joined
        &&& self.cleaned_up == other.cleaned_up
        &&& self.tool_state == other.tool_state
        &&& self.serial_generator == other.serial_generator
    }

    /// The chunk that must be loaded before a tool follows the cursor from
    /// `from` to `to`, if any is missing.
    pub fn needed_chunk(system: &ChunkSystem, from: IVec2, to: IVec2) -> (missing: Option<IVec2>)
        ensures
            missing is None <==> stroke_reach(from, to).loaded(system),
            missing matches Some(chunk) ==> !system.is_loaded(chunk) && stroke_reach(from, to).meets(
                chunk,
            ),
    {
        let reach = if distance_squared_int32(from, to) > 250 {
            Reach::around(to, to, 302)
        } else {
            Reach::around(from, to, 302)
        };
        reach.missing_chunk(system)
    }

    /// The base colour of the pixel at `global_pos`, if its chunk is
    /// loaded.
    pub fn get_pixel_main(&self, system: &ChunkSystem, global_pos: IVec2) -> (color: Option<ColorRGBA>)
        requires
            system.wf(),
        ensures
            color is Some <==> system.is_loaded(chunk_pos_of(global_pos)),
            color matches Some(c) ==> c == paint_of(system.pixel_at(global_pos)),
    {
        let mut cache = crate::canvas_cache::CanvasCache::new();
        assert(cache.wf(system)) by {
            assert(crate::canvas_cache::copied_positions(cache.cells@) =~= Seq::<IVec2>::empty());
        }
        cache.get_pixel(system, &global_pos)
    }

    /// Writes `pixels` to the canvas; with `with_history`, what they replace
    /// is recorded in the history of the session.
    pub fn set_pixels_main(
        &mut self,
        system: &mut ChunkSystem,
        pixels: &[GlobalPixelRGBA],
        with_history: bool,
        outbox: &mut Vec<Delivery>,
    )
        requires
            old(self).wf(),
            old(system).wf(),
        ensures
            final(self).wf(),
            final(system).wf(),
            painted_on(
                *old(system),
                *final(system),
                old(self).history,
                final(self).history,
                delivered(old(outbox)@),
                delivered(final(outbox)@),
                pixels@,
                with_history,
            ),
            final(self).same_but_painting(*old(self)),
            final(self).state.cursor == old(self).state.cursor,
    {
        set_pixels_main(system, &mut self.history, pixels, with_history, outbox);
    }

    /// Tells the client what the server is busy with.
    pub fn queue_send_status_text(&self, session_handle: &SessionHandle, text: &str, outbox: &mut Vec<Delivery>)
        ensures
            delivered(final(outbox)@) == delivered(old(outbox)@).push(
                (*session_handle, status_text_frame(encode_utf8(text@))),
            ),
    {
        let packet = prepare_packet_status_text(text);
        let ghost frame = packet@;
        let ghost had = delivered(outbox@);
        outbox.push(Delivery { to: *session_handle, packet });
        assert(delivered(outbox@) =~= had.push((*session_handle, frame)));
    }

    /// The chunk that must be loaded before the latest stroke is taken
    /// back, if one is missing.
    pub fn undo_needs(&self, system: &ChunkSystem) -> (missing: Option<IVec2>)
        requires
            system.wf(),
        ensures
            missing is None <==> undo_loaded(*self, system),
            missing matches Some(chunk) ==> !system.is_loaded(chunk),
    {
        if self.history.cells.len() == 0 {
            return None;
        }
        let cell = &self.history.cells[self.history.cells.len() - 1];
        assert(*cell == self.history.cells@.last());
        let mut k: usize = 0;
        while k < cell.pixels.len()
            invariant
                k <= cell.pixels@.len(),
                system.wf(),
                self.history.cells@.len() > 0,
                *cell == self.history.cells@.last(),
                forall|j: int|
                    0 <= j < k ==> system.is_loaded(chunk_pos_of((#[trigger] cell.pixels@[j]).pos)),
            decreases cell.pixels@.len() - k,
        {
            let chunk_pos = ChunkSystem::global_pixel_pos_to_chunk_pos(cell.pixels[k].pos);
            if system.get_chunk(chunk_pos).is_none() {
                assert(self.history.cells@.last().pixels@[k as int] == cell.pixels@[k as int]);
                return Some(chunk_pos);
            }
            k += 1;
        }
        None
    }

    /// Takes back the latest stroke, whose chunks must be loaded (see
    /// `undo_needs`): its snapshot is taken out of the
    /// history and the colours that it holds are written back, without a
    /// record. The client is told what is going on, and then that it is
    /// over. Without a snapshot nothing happens.
    pub fn process_command_undo(&mut self, session_handle: &SessionHandle, system: &mut ChunkSystem, outbox: &mut Vec<Delivery>)
        requires
            old(self).wf(),
            old(system).wf(),
            undo_loaded(*old(self), old(system)),
        ensures
            final(self).wf(),
            final(system).wf(),
            undo_effect(
                *old(self),
                *final(self),
                *old(system),
                *final(system),
                delivered(old(outbox)@),
                delivered(final(outbox)@),
                *session_handle,
            ),
    {
        let cell = match self.history.undo() {
            Some(c) => c,
            None => {
                return ;
            },
        };
        let mut text = String::from_str("Undoing ");
        let digits = number_to_string(cell.pixels.len() as u64);
        text.append(digits.as_str());
        text.append(" pixels...");
        self.queue_send_status_text(session_handle, text.as_str(), outbox);
        self.set_pixels_main(system, cell.pixels.as_slice(), false, outbox);
        let ghost mid = delivered(outbox@);
        self.queue_send_status_text(session_handle, "", outbox);
        proof {
            assert(painted_on(
                *old(system),
                *system,
                self.history,
                self.history,
                delivered(old(outbox)@).push(
                    (
                        *session_handle,
                        status_text_frame(
                            encode_utf8(
                                "Undoing "@ + decimal_text(
                                    old(self).history.cells@.last().pixels@.len() as u64,
                                ) + " pixels..."@,
                            ),
                        ),
                    ),
                ),
                mid,
                old(self).history.cells@.last().pixels@,
                false,
            ));
        }
    }

    /// The round or the square brush: where the cursor is down, a dab of
    /// the brush at every `1 + size / 6`-th pixel of the way of the cursor.
    /// A way of more than 250 pixels in Manhattan distance is not followed:
    /// the cursor is let up instead.
    pub fn update_cursor_brush(&mut self, room: &mut RoomInstance, square: bool, outbox: &mut Vec<Delivery>)
        requires
            old(self).wf(),
            old(room).wf(),
            old(self).state.cursor.down ==> stroke_reach(
                old(self).state.cursor.pos_prev.to_vec_spec(),
                old(self).state.cursor.pos.to_vec_spec(),
            ).loaded(&old(room).chunk_system),
        ensures
            final(self).wf(),
            final(room).wf(),
            brush_effect(
                *old(self),
                *final(self),
                *old(room),
                *final(room),
                delivered(old(outbox)@),
                delivered(final(outbox)@),
                square,
            ),
    {
        if !self.state.cursor.down {
            return ;
        }
        let tool_size = self.get_tool_size();
        let from = self.state.cursor.pos_prev.to_vec();
        let to = self.state.cursor.pos.to_vec();
        if distance_squared_int32(from, to) > 250 {
            self.state.cursor.down = false;
            return ;
        }
        let shape_filled = if square {
            room.brush_shapes.get_square_filled(tool_size)
        } else {
            room.brush_shapes.get_circle_filled(tool_size)
        };
        let shape_outline = if square {
            room.brush_shapes.get_square_outline(tool_size)
        } else {
            room.brush_shapes.get_circle_outline(tool_size)
        };
        let tool_color = self.tool.color.rgba(255);
        let pixels = brush_pixels(from, to, tool_size, &shape_filled, &shape_outline, tool_color);
        self.set_pixels_main(&mut room.chunk_system, pixels.as_slice(), true, outbox);
    }

    /// The spray: where the cursor is down, at every pixel of its way each
    /// pixel of the disk of the tool is painted or not as a roll of the dice
    /// decides. A way of more than 250 pixels in Manhattan distance is not
    /// followed: the cursor is let up instead.
    pub fn update_cursor_spray(&mut self, room: &mut RoomInstance, spray_threshold: u32, outbox: &mut Vec<Delivery>)
        requires
            old(self).wf(),
            old(room).wf(),
            old(self).state.cursor.down ==> stroke_reach(
                old(self).state.cursor.pos_prev.to_vec_spec(),
                old(self).state.cursor.pos.to_vec_spec(),
            ).loaded(&old(room).chunk_system),
        ensures
            final(self).wf(),
            final(room).wf(),
            spray_effect(
                *old(self),
                *final(self),
                *old(room),
                *final(room),
                delivered(old(outbox)@),
                delivered(final(outbox)@),
                spray_threshold,
            ),
    {
        if !self.state.cursor.down {
            return ;
        }
        let from = self.state.cursor.pos_prev.to_vec();
        let to = self.state.cursor.pos.to_vec();
        let far = distance_squared_int32(from, to);
        if far > 250 {
            self.state.cursor.down = false;
            return ;
        }
        let tool_size = self.get_tool_size();
        let shape_filled = room.brush_shapes.get_circle_filled(tool_size);
        let tool_color = self.tool.color.rgba(255);
        let count = Self::count_cells(&shape_filled);
        proof {
            lemma_line_len_bound(from, to);
            lemma_cells_from_len(shape_filled.data@, tool_size as int, 0);
            assert(line_len(from, to) * count <= 251 * 65025) by (nonlinear_arith)
                requires
                    0 <= line_len(from, to) <= 251,
                    0 <= count <= 65025,
            ;
            assert(line_len(from, to) == far + 1 || line_len(from, to) <= far + 1);
        }
        let points = Self::line_length(from, to);
        let rolls = draw_rolls(points * count);
        let pixels = spray_pixels(from, to, &shape_filled, tool_color, spray_threshold, &rolls);
        self.set_pixels_main(&mut room.chunk_system, pixels.as_slice(), true, outbox);
        proof {
            let size = effective_tool_size(old(self).tool.tool_type, old(self).tool.size);
            assert(shape_filled.cells() == brush_cells(ShapeType::Circle, size, true));
            assert(stroke_painted(
                *old(self),
                *self,
                *old(room),
                *room,
                delivered(old(outbox)@),
                delivered(outbox@),
                sprayed(
                    from,
                    to,
                    brush_cells(ShapeType::Circle, size, true),
                    size as int,
                    paint_of(old(self).tool.color),
                    spray_threshold,
                    rolls@,
                    rolls@.len() as int,
                ),
            ));
        }
    }

    /// How many cells a shape covers.
    fn count_cells(shape: &crate::tool::brush::BrushShape) -> (count: usize)
        requires
            shape.wf(),
        ensures
            count == shape.cells().len(),
            count <= 65025,
    {
        let mut iter = shape.iterate();
        let mut count: usize = 0;
        proof {
            lemma_cells_from_len(shape.data@, shape.size as int, 0);
        }
        loop
            invariant
                iter.wf(),
                iter.shape == shape,
                shape.cells().len() <= 65025,
                count <= shape.cells().len(),
                iter@ == shape.cells().skip(count as int),
            decreases shape.cells().len() - count,
        {
            match iter.next() {
                Some(_) => {
                    proof {
                        assert(shape.cells().skip(count as int).skip(1) =~= shape.cells().skip(
                            count as int + 1,
                        ));
                    }
                    count += 1;
                },
                None => {
                    return count;
                },
            }
        }
    }

    /// How many pixels the line from `from` to `to` has, where its ends are
    /// no more than 250 pixels apart.
    fn line_length(from: IVec2, to: IVec2) -> (len: usize)
        requires
            manhattan(from, to) <= 250,
        ensures
            len == line_len(from, to),
            len <= 251,
    {
        let ax: i64 = if to.x >= from.x {
            to.x as i64 - from.x as i64
        } else {
            from.x as i64 - to.x as i64
        };
        let ay: i64 = if to.y >= from.y {
            to.y as i64 - from.y as i64
        } else {
            from.y as i64 - to.y as i64
        };
        if ax >= ay {
            (ax + 1) as usize
        } else {
            (ay + 1) as usize
        }
    }
}

/// The size that the smooth brush works with: at least 4.
pub open spec fn smooth_size(session: SessionInstance) -> u8 {
    if effective_tool_size(session.tool.tool_type, session.tool.size) < 4 {
        4
    } else {
        effective_tool_size(session.tool.tool_type, session.tool.size)
    }
}

/// What the blur does: see `update_cursor_blur`.
pub open spec fn blur_effect(
    before: SessionInstance,
    after: SessionInstance,
    room_before: RoomInstance,
    room_after: RoomInstance,
    sent_before: Sent,
    sent_after: Sent,
    blend_intensity: u8,
) -> bool {
    let size = effective_tool_size(before.tool.tool_type, before.tool.size);
    &&& only_painted(before, after, room_before, room_after)
    &&& after.state.cursor.down == before.state.cursor.down
    &&& !before.state.cursor.down ==> nothing_painted(
        before,
        after,
        room_before,
        room_after,
        sent_before,
        sent_after,
    )
    &&& before.state.cursor.down ==> stroke_painted(
        before,
        after,
        room_before,
        room_after,
        sent_before,
        sent_after,
        blurred(
            |g: IVec2| room_before.chunk_system.pixel_at(g),
            before.state.cursor.pos.to_vec_spec(),
            brush_cells(ShapeType::Circle, size, true),
            size as int,
            blend_intensity,
            brush_cells(ShapeType::Circle, size, true).len() as int,
        ),
    )
}

/// What the smooth brush does: see `update_cursor_smooth_brush`.
pub open spec fn smooth_effect(
    before: SessionInstance,
    after: SessionInstance,
    room_before: RoomInstance,
    room_after: RoomInstance,
    sent_before: Sent,
    sent_after: Sent,
    kernel: Seq<u8>,
) -> bool {
    let size = smooth_size(before);
    let from = before.state.cursor.pos_prev.to_vec_spec();
    let to = before.state.cursor.pos.to_vec_spec();
    &&& only_painted(before, after, room_before, room_after)
    &&& after.state.cursor.down == follows_cursor(before)
    &&& !follows_cursor(before) || kernel.len() != size * size ==> nothing_painted(
        before,
        after,
        room_before,
        room_after,
        sent_before,
        sent_after,
    )
    &&& follows_cursor(before) && kernel.len() == size * size ==> stroke_painted(
        before,
        after,
        room_before,
        room_after,
        sent_before,
        sent_after,
        smooth_stroke(
            |g: IVec2| room_before.chunk_system.pixel_at(g),
            from,
            to,
            size as int,
            kernel,
            paint_of(before.tool.color),
            line_len(from, to),
        ).1,
    )
}

/// What the smudge does: see `update_cursor_smudge`.
pub open spec fn smudge_effect(
    before: SessionInstance,
    after: SessionInstance,
    room_before: RoomInstance,
    room_after: RoomInstance,
    sent_before: Sent,
    sent_after: Sent,
    blend_intensity: u8,
) -> bool {
    let size = effective_tool_size(before.tool.tool_type, before.tool.size);
    let from = before.state.cursor.pos_prev.to_vec_spec();
    let to = before.state.cursor.pos.to_vec_spec();
    &&& only_painted(before, after, room_before, room_after)
    &&& after.state.cursor.down == follows_cursor(before)
    &&& !follows_cursor(before) ==> nothing_painted(
        before,
        after,
        room_before,
        room_after,
        sent_before,
        sent_after,
    )
    &&& follows_cursor(before) ==> stroke_painted(
        before,
        after,
        room_before,
        room_after,
        sent_before,
        sent_after,
        smudge_stroke(
            |g: IVec2| room_before.chunk_system.pixel_at(g),
            from,
            to,
            brush_cells(ShapeType::Circle, size, true),
            size as int,
            blend_intensity,
            line_len(from, to),
        ).1,
    )
}

/// The fill repaints: the cursor was just pressed, on a chunk that the
/// session watches, and on a pixel of another colour than that of the tool.
pub open spec fn fill_starts(session: SessionInstance, room: RoomInstance) -> bool {
    let seed = session.state.cursor.pos.to_vec_spec();
    &&& session.state.cursor.down
    &&& session.state.cursor.just_clicked
    &&& crate::session::linked_positions(session.linked_chunks@).contains(chunk_pos_of(seed))
    &&& room.chunk_system.pixel_at(seed) != session.tool.color
}

/// `pixels` are what the fill repaints from `seed`: each pixel that the fill
/// reaches, once, in the colour `color`.
pub open spec fn is_fill(system: ChunkSystem, seed: IVec2, target: ColorRGB, color: ColorRGB, pixels: Seq<GlobalPixelRGBA>) -> bool {
    &&& crate::history::pixel_positions(pixels).no_duplicates()
    &&& forall|k: int| 0 <= k < pixels.len() ==> (#[trigger] pixels[k]).color == paint_of(color)
    &&& forall|p: IVec2| #[trigger]
        crate::history::pixel_positions(pixels).contains(p) <==> in_flood(
            |g: IVec2| system.pixel_at(g),
            seed,
            target,
            p,
        )
}

/// What the fill does: see `update_cursor_fill`.
pub open spec fn fill_effect(
    before: SessionInstance,
    after: SessionInstance,
    room_before: RoomInstance,
    room_after: RoomInstance,
    sent_before: Sent,
    sent_after: Sent,
) -> bool {
    let seed = before.state.cursor.pos.to_vec_spec();
    &&& only_painted(before, after, room_before, room_after)
    &&& after.state.cursor.down == before.state.cursor.down
    &&& !fill_starts(before, room_before) ==> nothing_painted(
        before,
        after,
        room_before,
        room_after,
        sent_before,
        sent_after,
    )
    &&& fill_starts(before, room_before) ==> exists|pixels: Seq<GlobalPixelRGBA>|
        {
            &&& is_fill(
                room_before.chunk_system,
                seed,
                room_before.chunk_system.pixel_at(seed),
                before.tool.color,
                pixels,
            )
            &&& #[trigger] stroke_painted(
                before,
                after,
                room_before,
                room_after,
                sent_before,
                sent_after,
                pixels,
            )
        }
}

/// Where the chunks around a pixel are loaded, the blur can read every
/// pixel that it needs.
pub proof fn lemma_blur_in_reach(system: &ChunkSystem, cursor: IVec2, cells: Seq<BrushShapeIterCell>, size: int, n: int)
    requires
        reach_around(cursor, cursor, 257).loaded(system),
        0 <= size <= 255,
        0 <= n <= cells.len(),
    ensures
        blur_loaded(system, cursor, cells, size, n),
    decreases n,
{
    if n > 0 {
        lemma_blur_in_reach(system, cursor, cells, size, n - 1);
        let reach = reach_around(cursor, cursor, 257);
        let x = cursor.x + cells[n - 1].local_x - size / 2;
        let y = cursor.y + cells[n - 1].local_y - size / 2;
        if crate::tool::blend::has_neighbours(x, y) {
            crate::tool::reach::lemma_reach_loaded(reach, system, IVec2 { x: x as i32, y: y as i32 });
            crate::tool::reach::lemma_reach_loaded(
                reach,
                system,
                IVec2 { x: (x - 1) as i32, y: y as i32 },
            );
            crate::tool::reach::lemma_reach_loaded(
                reach,
                system,
                IVec2 { x: (x + 1) as i32, y: y as i32 },
            );
            crate::tool::reach::lemma_reach_loaded(
                reach,
                system,
                IVec2 { x: x as i32, y: (y - 1) as i32 },
            );
            crate::tool::reach::lemma_reach_loaded(
                reach,
                system,
                IVec2 { x: x as i32, y: (y + 1) as i32 },
            );
        }
    }
}

impl SessionInstance {
    /// The blur: where the cursor is down, every pixel of the disk of the
    /// tool around the cursor is blended with the mean of its four
    /// neighbours.
    pub fn update_cursor_blur(&mut self, room: &mut RoomInstance, blend_intensity: u8, outbox: &mut Vec<Delivery>)
        requires
            old(self).wf(),
            old(room).wf(),
            old(self).state.cursor.down ==> stroke_reach(
                old(self).state.cursor.pos_prev.to_vec_spec(),
                old(self).state.cursor.pos.to_vec_spec(),
            ).loaded(&old(room).chunk_system),
        ensures
            final(self).wf(),
            final(room).wf(),
            blur_effect(
                *old(self),
                *final(self),
                *old(room),
                *final(room),
                delivered(old(outbox)@),
                delivered(final(outbox)@),
                blend_intensity,
            ),
    {
        if !self.state.cursor.down {
            return ;
        }
        let cursor_pos = self.state.cursor.pos.to_vec();
        let tool_size = self.get_tool_size();
        let shape_filled = room.brush_shapes.get_circle_filled(tool_size);
        proof {
            lemma_reach_inside(
                stroke_reach(self.state.cursor.pos_prev.to_vec_spec(), cursor_pos),
                reach_around(cursor_pos, cursor_pos, 257),
                &room.chunk_system,
            );
            lemma_blur_in_reach(
                &room.chunk_system,
                cursor_pos,
                shape_filled.cells(),
                tool_size as int,
                shape_filled.cells().len() as int,
            );
            lemma_cells_from_len(shape_filled.data@, tool_size as int, 0);
        }
        let pixels = match blur_pixels(&room.chunk_system, cursor_pos, &shape_filled, blend_intensity) {
            Ok(p) => p,
            Err(_) => {
                return ;
            },
        };
        self.set_pixels_main(&mut room.chunk_system, pixels.as_slice(), true, outbox);
    }

    /// The smooth brush: where the cursor is down, at every
    /// `1 + size / 6`-th pixel of its way each pixel of the square of the
    /// brush is blended toward the colour of the tool, with the weight that
    /// `kernel` gives it. The size is at least 4. A kernel that does not
    /// hold a weight for each cell of the square paints nothing. A way of
    /// more than 250 pixels in Manhattan distance is not followed: the
    /// cursor is let up instead.
    pub fn update_cursor_smooth_brush(&mut self, room: &mut RoomInstance, kernel: &[u8], outbox: &mut Vec<Delivery>)
        requires
            old(self).wf(),
            old(room).wf(),
            old(self).state.cursor.down ==> stroke_reach(
                old(self).state.cursor.pos_prev.to_vec_spec(),
                old(self).state.cursor.pos.to_vec_spec(),
            ).loaded(&old(room).chunk_system),
        ensures
            final(self).wf(),
            final(room).wf(),
            smooth_effect(
                *old(self),
                *final(self),
                *old(room),
                *final(room),
                delivered(old(outbox)@),
                delivered(final(outbox)@),
                kernel@,
            ),
    {
        if !self.state.cursor.down {
            return ;
        }
        let size = self.get_tool_size();
        let tool_size: u8 = if size < 4 {
            4
        } else {
            size
        };
        let from = self.state.cursor.pos_prev.to_vec();
        let to = self.state.cursor.pos.to_vec();
        if distance_squared_int32(from, to) > 250 {
            self.state.cursor.down = false;
            return ;
        }
        assert(0 <= tool_size as int * tool_size as int <= 65025) by (nonlinear_arith)
            requires
                0 <= tool_size <= 255,
        ;
        if kernel.len() != tool_size as usize * tool_size as usize {
            return ;
        }
        proof {
            lemma_reach_inside(stroke_reach(from, to), reach_around(from, to, 257), &room.chunk_system);
            lemma_line_len_bound(from, to);
        }
        let tool_color = self.tool.color.rgba(255);
        let pixels = smooth_brush_pixels(&room.chunk_system, from, to, tool_size, kernel, tool_color);
        self.set_pixels_main(&mut room.chunk_system, pixels.as_slice(), true, outbox);
    }

    /// The smudge: where the cursor is down, at every pixel of its way but
    /// the first each pixel of the disk of the tool is blended with the
    /// pixel one step back along the way. A way of more than 250 pixels in
    /// Manhattan distance is not followed: the cursor is let up instead.
    pub fn update_cursor_smudge(&mut self, room: &mut RoomInstance, blend_intensity: u8, outbox: &mut Vec<Delivery>)
        requires
            old(self).wf(),
            old(room).wf(),
            old(self).state.cursor.down ==> stroke_reach(
                old(self).state.cursor.pos_prev.to_vec_spec(),
                old(self).state.cursor.pos.to_vec_spec(),
            ).loaded(&old(room).chunk_system),
        ensures
            final(self).wf(),
            final(room).wf(),
            smudge_effect(
                *old(self),
                *final(self),
                *old(room),
                *final(room),
                delivered(old(outbox)@),
                delivered(final(outbox)@),
                blend_intensity,
            ),
    {
        if !self.state.cursor.down {
            return ;
        }
        let from = self.state.cursor.pos_prev.to_vec();
        let to = self.state.cursor.pos.to_vec();
        if distance_squared_int32(from, to) > 250 {
            self.state.cursor.down = false;
            return ;
        }
        let tool_size = self.get_tool_size();
        let shape_filled = room.brush_shapes.get_circle_filled(tool_size);
        proof {
            lemma_reach_inside(stroke_reach(from, to), reach_around(from, to, 257), &room.chunk_system);
            lemma_line_len_bound(from, to);
            lemma_cells_from_len(shape_filled.data@, tool_size as int, 0);
        }
        let pixels = smudge_pixels(&room.chunk_system, from, to, &shape_filled, blend_intensity);
        self.set_pixels_main(&mut room.chunk_system, pixels.as_slice(), true, outbox);
    }

    /// The fill: where the cursor was just pressed on a chunk that the
    /// session watches, the region of one colour around the cursor is
    /// repainted in the colour of the tool, as far as 300 pixels in
    /// Manhattan distance from the cursor. A region that has the colour of
    /// the tool already is left as it is.
    pub fn update_cursor_fill(&mut self, room: &mut RoomInstance, outbox: &mut Vec<Delivery>)
        requires
            old(self).wf(),
            old(room).wf(),
            old(self).state.cursor.down ==> stroke_reach(
                old(self).state.cursor.pos_prev.to_vec_spec(),
                old(self).state.cursor.pos.to_vec_spec(),
            ).loaded(&old(room).chunk_system),
        ensures
            final(self).wf(),
            final(room).wf(),
            fill_effect(
                *old(self),
                *final(self),
                *old(room),
                *final(room),
                delivered(old(outbox)@),
                delivered(final(outbox)@),
            ),
    {
        if !self.state.cursor.down || !self.state.cursor.just_clicked {
            return ;
        }
        let global_pos = self.state.cursor.pos.to_vec();
        if !self.is_chunk_linked(ChunkSystem::global_pixel_pos_to_chunk_pos(global_pos)) {
            return ;
        }
        proof {
            lemma_reach_inside(
                stroke_reach(self.state.cursor.pos_prev.to_vec_spec(), global_pos),
                reach_around(global_pos, global_pos, 301),
                &room.chunk_system,
            );
            crate::tool::reach::lemma_reach_loaded(
                reach_around(global_pos, global_pos, 301),
                &room.chunk_system,
                global_pos,
            );
        }
        let color = match self.get_pixel_main(&room.chunk_system, global_pos) {
            Some(c) => c,
            None => {
                return ;
            },
        };
        if self.tool.color.rgba(255) == color {
            return ;
        }
        let target = color.rgb();
        let pixels = fill_pixels(&room.chunk_system, global_pos, target, self.tool.color);
        proof {
            assert(is_fill(room.chunk_system, global_pos, target, self.tool.color, pixels@));
        }
        self.set_pixels_main(&mut room.chunk_system, pixels.as_slice(), true, outbox);
        proof {
            assert(stroke_painted(
                *old(self),
                *self,
                *old(room),
                *room,
                delivered(old(outbox)@),
                delivered(outbox@),
                pixels@,
            ));
        }
    }
}

} // verus!

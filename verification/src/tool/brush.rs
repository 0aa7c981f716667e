//! Brush shapes: which cells of a `size × size` square a brush covers.

use vstd::prelude::*;
use std::collections::HashMap;

verus! {

broadcast use vstd::std_specs::hash::group_hash_axioms;

/// A brush shape: one byte for each cell of a square, row by row, 1 where
/// the brush covers the cell.
pub struct BrushShape {
    /// Width and height.
    pub size: u8,
    pub data: Vec<u8>,
}

/// A covered cell of a shape.
#[derive(Clone, Copy, PartialEq, Eq, Structural, Debug)]
pub struct BrushShapeIterCell {
    pub local_x: u8,
    pub local_y: u8,
}

/// Walks the covered cells of a shape, row by row.
pub struct BrushShapeIter<'a> {
    pub shape: &'a BrushShape,
    pub cur_x: u8,
    pub cur_y: u8,
}

#[derive(Clone, Copy, PartialEq, Eq, Structural, Debug)]
pub enum ShapeType {
    Circle,
    Square,
}

/// The shapes made so far, by kind and size.
pub struct BrushShapes {
    pub circle_filled: HashMap<u8, BrushShape>,
    pub circle_outline: HashMap<u8, BrushShape>,
    pub square_filled: HashMap<u8, BrushShape>,
    pub square_outline: HashMap<u8, BrushShape>,
}

/// The square of the distance of the cell `(x, y)` from the centre cell of
/// a shape of `size`.
pub open spec fn center_distance_squared(size: int, x: int, y: int) -> int {
    (size / 2 - x) * (size / 2 - x) + (size / 2 - y) * (size / 2 - y)
}

/// The cell `(x, y)` lies in the disk of a circle brush: its distance from
/// the centre cell is at most `(size - 0.1) / 2`.
pub open spec fn in_disk(size: int, x: int, y: int) -> bool {
    20 * center_distance_squared(size, x, y) <= 5 * size * size - size
}

/// The cell `(x, y)` lies in the rim of a circle brush: in the disk, and
/// at least `size / 2 - 2` from the centre cell.
pub open spec fn in_rim(size: int, x: int, y: int) -> bool {
    in_disk(size, x, y) && (size <= 4 || 4 * center_distance_squared(size, x, y) >= (size - 4) * (
    size - 4))
}

/// The brush of the given kind covers the cell `(x, y)`.
pub open spec fn covers(shape_type: ShapeType, size: int, filled: bool, x: int, y: int) -> bool {
    match shape_type {
        ShapeType::Circle => if filled {
            in_disk(size, x, y)
        } else {
            in_rim(size, x, y)
        },
        ShapeType::Square => filled || x == 0 || y == 0 || x == size - 1 || y == size - 1,
    }
}

/// The bytes of the shape of the given kind.
pub open spec fn shape_data(shape_type: ShapeType, size: int, filled: bool) -> Seq<u8> {
    Seq::new(
        (size * size) as nat,
        |i: int|
            if covers(shape_type, size, filled, i % size, i / size) {
                1u8
            } else {
                0u8
            },
    )
}

/// The covered cells of a shape from cell number `from` on, row by row.
pub open spec fn cells_from(data: Seq<u8>, size: int, from: int) -> Seq<BrushShapeIterCell>
    decreases size * size - from,
{
    if from < 0 || from >= size * size || size <= 0 || size > 255 {
        Seq::empty()
    } else if data[from] == 1 {
        seq![BrushShapeIterCell { local_x: (from % size) as u8, local_y: (from / size) as u8 }]
            + cells_from(data, size, from + 1)
    } else {
        cells_from(data, size, from + 1)
    }
}

/// A shape has no more covered cells than cells.
pub proof fn lemma_cells_from_len(data: Seq<u8>, size: int, from: int)
    requires
        0 <= from,
        0 <= size <= 255,
    ensures
        cells_from(data, size, from).len() <= 65025,
        from <= size * size ==> cells_from(data, size, from).len() <= size * size - from,
    decreases size * size - from,
{
    assert(size * size <= 65025) by (nonlinear_arith)
        requires
            0 <= size <= 255,
    ;
    if from < size * size && size > 0 {
        lemma_cells_from_len(data, size, from + 1);
    }
}

impl BrushShape {
    /// The shape holds a byte for each of its cells.
    pub open spec fn wf(&self) -> bool {
        self.data@.len() == self.size as int * self.size as int
    }

    /// The covered cells, row by row.
    pub open spec fn cells(&self) -> Seq<BrushShapeIterCell> {
        cells_from(self.data@, self.size as int, 0)
    }

    /// The shape of a brush of the given kind: the disk or the rim of a
    /// circle, the whole or the border of a square.
    pub fn new(shape_type: &ShapeType, size: u8, filled: bool) -> (shape: Self)
        ensures
            shape.wf(),
            shape.size == size,
            shape.data@ == shape_data(*shape_type, size as int, filled),
    {
        assert(0 <= size as int * size as int <= 65025) by (nonlinear_arith)
            requires
                0 <= size <= 255,
        ;
        let n: usize = size as usize * size as usize;
        let mut data: Vec<u8> = Vec::with_capacity(n);
        let mut y: u8 = 0;
        while y < size
            invariant
                y <= size,
                data@.len() == y as int * size as int,
                forall|i: int|
                    0 <= i < data@.len() ==> data@[i] == shape_data(*shape_type, size as int, filled)[i],
            decreases size - y,
        {
            let mut x: u8 = 0;
            while x < size
                invariant
                    y < size,
                    x <= size,
                    data@.len() == y as int * size as int + x as int,
                    forall|i: int|
                        0 <= i < data@.len() ==> data@[i] == shape_data(
                            *shape_type,
                            size as int,
                            filled,
                        )[i],
                decreases size - x,
            {
                let covered = Self::cell_covered(shape_type, size, filled, x, y);
                proof {
                    let i = y as int * size as int + x as int;
                    assert(i % (size as int) == x && i / (size as int) == y) by (nonlinear_arith)
                        requires
                            i == y as int * size as int + x as int,
                            0 <= x < size,
                            0 <= y,
                    ;
                    assert(i < size as int * size as int) by (nonlinear_arith)
                        requires
                            i == y as int * size as int + x as int,
                            0 <= x < size,
                            0 <= y < size,
                    ;
                }
                data.push(if covered {
                    1
                } else {
                    0
                });
                x += 1;
            }
            assert((y + 1) as int * size as int == y as int * size as int + size as int)
                by (nonlinear_arith);
            y += 1;
        }
        assert(data@ =~= shape_data(*shape_type, size as int, filled));
        BrushShape { size, data }
    }

    /// Whether the brush of the given kind covers the cell `(x, y)`.
    fn cell_covered(shape_type: &ShapeType, size: u8, filled: bool, x: u8, y: u8) -> (covered: bool)
        requires
            x < size,
            y < size,
        ensures
            covered == covers(*shape_type, size as int, filled, x as int, y as int),
    {
        match shape_type {
            ShapeType::Circle => {
                let half: i32 = size as i32 / 2;
                let diff_x: i32 = half - x as i32;
                let diff_y: i32 = half - y as i32;
                assert(0 <= diff_x * diff_x <= 65025 && 0 <= diff_y * diff_y <= 65025)
                    by (nonlinear_arith)
                    requires
                        -255 <= diff_x <= 255,
                        -255 <= diff_y <= 255,
                ;
                let d2: i32 = diff_x * diff_x + diff_y * diff_y;
                let s: i32 = size as i32;
                assert(0 <= s * s <= 65025) by (nonlinear_arith)
                    requires
                        0 <= s <= 255,
                ;
                let in_disk = 20 * d2 <= 5 * (s * s) - s;
                assert(5 * (s * s) == 5 * s * s) by (nonlinear_arith);
                if filled {
                    in_disk
                } else {
                    assert(0 <= (s - 4) * (s - 4) <= 65025) by (nonlinear_arith)
                        requires
                            0 <= s <= 255,
                    ;
                    in_disk && (s <= 4 || 4 * d2 >= (s - 4) * (s - 4))
                }
            },
            ShapeType::Square => filled || x == 0 || y == 0 || x == size - 1 || y == size - 1,
        }
    }

    /// An iterator over the covered cells, row by row.
    pub fn iterate(&self) -> (iter: BrushShapeIter<'_>)
        requires
            self.wf(),
        ensures
            iter.wf(),
            iter.shape == self,
            iter@ == self.cells(),
    {
        BrushShapeIter { shape: self, cur_x: 0, cur_y: 0 }
    }

    /// A second shape with the same cells.
    pub fn duplicate(&self) -> (copy: BrushShape)
        ensures
            copy.size == self.size,
            copy.data@ == self.data@,
    {
        BrushShape { size: self.size, data: crate::chunk::chunk::clone_bytes(&self.data) }
    }
}

impl<'a> View for BrushShapeIter<'a> {
    type V = Seq<BrushShapeIterCell>;

    /// The covered cells still to come.
    open spec fn view(&self) -> Seq<BrushShapeIterCell> {
        cells_from(self.shape.data@, self.shape.size as int, self.index())
    }
}

impl<'a> BrushShapeIter<'a> {
    /// The number of the cell that the iterator stands on.
    pub open spec fn index(&self) -> int {
        self.cur_y as int * self.shape.size as int + self.cur_x as int
    }

    /// The iterator stands on a cell of its shape, or behind the last.
    pub open spec fn wf(&self) -> bool {
        &&& self.shape.wf()
        &&& self.cur_y <= self.shape.size
        &&& (self.cur_x < self.shape.size || self.cur_x == 0)
        &&& self.cur_y == self.shape.size ==> self.cur_x == 0
    }

    /// Steps to the next cell, row by row.
    fn go_next(&mut self)
        requires
            old(self).wf(),
            old(self).cur_y < old(self).shape.size,
        ensures
            final(self).wf(),
            final(self).shape == old(self).shape,
            final(self).index() == old(self).index() + 1,
    {
        let ghost size = self.shape.size as int;
        let ghost x0 = self.cur_x as int;
        let ghost y0 = self.cur_y as int;
        self.cur_x += 1;
        if self.cur_x >= self.shape.size {
            self.cur_x = 0;
            self.cur_y += 1;
        }
        let ghost x1 = self.cur_x as int;
        let ghost y1 = self.cur_y as int;
        assert(y1 * size + x1 == y0 * size + x0 + 1) by (nonlinear_arith)
            requires
                (x1 == x0 + 1 && y1 == y0) || (x1 == 0 && x0 + 1 == size && y1 == y0 + 1),
        ;
    }

    /// The next covered cell, if any is left.
    pub fn next(&mut self) -> (cell: Option<BrushShapeIterCell>)
        requires
            old(self).wf(),
        ensures
            final(self).wf(),
            final(self).shape == old(self).shape,
            old(self)@.len() == 0 ==> cell is None && final(self)@.len() == 0,
            old(self)@.len() > 0 ==> cell == Some(old(self)@[0]) && final(self)@ == old(self)@.skip(1),
    {
        loop
            invariant
                self.wf(),
                self.shape == old(self).shape,
                self@ == old(self)@,
            decreases self.shape.size as int * self.shape.size as int - self.index(),
        {
            let ghost size = self.shape.size as int;
            if self.cur_y >= self.shape.size {
                proof {
                    assert(self.index() == size * size);
                }
                return None;
            }
            assert(0 <= self.cur_y as int * size <= 65025) by (nonlinear_arith)
                requires
                    0 <= self.cur_y as int <= 255,
                    0 <= size <= 255,
            ;
            let at: usize = self.cur_y as usize * self.shape.size as usize + self.cur_x as usize;
            proof {
                let i = self.index();
                assert(i < size * size && i % size == self.cur_x && i / size == self.cur_y)
                    by (nonlinear_arith)
                    requires
                        i == self.cur_y as int * size + self.cur_x as int,
                        0 <= self.cur_x < size,
                        0 <= self.cur_y < size,
                        size <= 255,
                ;
                assert(size * size <= 65025) by (nonlinear_arith)
                    requires
                        0 <= size <= 255,
                ;
            }
            if self.shape.data[at] == 1 {
                let cell = BrushShapeIterCell { local_x: self.cur_x, local_y: self.cur_y };
                let ghost before = self@;
                self.go_next();
                proof {
                    assert(before =~= seq![cell] + self@);
                    assert(self@ =~= before.skip(1));
                }
                return Some(cell);
            }
            self.go_next();
        }
    }
}

/// The shapes of `map` are the shapes of the given kind, each under its
/// size.
pub open spec fn holds_shapes(map: Map<u8, BrushShape>, shape_type: ShapeType, filled: bool) -> bool {
    forall|size: u8| #[trigger]
        map.contains_key(size) ==> map[size].size == size && map[size].data@ == shape_data(
            shape_type,
            size as int,
            filled,
        )
}

/// What asking for the shape of `size` does to the shapes held: the shape
/// of that size is held from now on, and every shape that was held is held
/// as before.
pub open spec fn shape_kept(before: Map<u8, BrushShape>, after: Map<u8, BrushShape>, size: u8) -> bool {
    &&& after.dom() == before.dom().insert(size)
    &&& forall|k: u8| #[trigger] before.contains_key(k) ==> after[k] == before[k]
}

impl BrushShapes {
    /// Every shape held is the shape of its kind and size.
    pub open spec fn wf(&self) -> bool {
        &&& holds_shapes(self.circle_filled@, ShapeType::Circle, true)
        &&& holds_shapes(self.circle_outline@, ShapeType::Circle, false)
        &&& holds_shapes(self.square_filled@, ShapeType::Square, true)
        &&& holds_shapes(self.square_outline@, ShapeType::Square, false)
    }

    /// No shapes yet.
    pub fn new() -> (shapes: Self)
        ensures
            shapes.wf(),
    {
        BrushShapes {
            circle_filled: HashMap::new(),
            circle_outline: HashMap::new(),
            square_filled: HashMap::new(),
            square_outline: HashMap::new(),
        }
    }

    /// The shape of the given kind and size: the one held, or a new one that
    /// is held from now on.
    fn get(shape_type: &ShapeType, filled: bool, map: &mut HashMap<u8, BrushShape>, size: u8) -> (shape:
        BrushShape)
        requires
            holds_shapes(old(map)@, *shape_type, filled),
        ensures
            holds_shapes(final(map)@, *shape_type, filled),
            shape.wf(),
            shape.size == size,
            shape.data@ == shape_data(*shape_type, size as int, filled),
            shape_kept(old(map)@, final(map)@, size),
    {
        let held = match map.get(&size) {
            Some(shape) => Some(shape.duplicate()),
            None => None,
        };
        match held {
            Some(shape) => {
                assert(shape.wf()) by {
                    assert(shape.data@.len() == size as int * size as int);
                }
                assert(map@.dom() =~= old(map)@.dom().insert(size));
                shape
            },
            None => {
                let shape = BrushShape::new(shape_type, size, filled);
                map.insert(size, shape.duplicate());
                assert(map@.dom() =~= old(map)@.dom().insert(size));
                shape
            },
        }
    }

    /// The whole square of `size`.
    pub fn get_square_filled(&mut self, size: u8) -> (shape: BrushShape)
        requires
            old(self).wf(),
        ensures
            final(self).wf(),
            shape.wf(),
            shape.size == size,
            shape.data@ == shape_data(ShapeType::Square, size as int, true),
            shape_kept(old(self).square_filled@, final(self).square_filled@, size),
            final(self).square_outline == old(self).square_outline,
            final(self).circle_filled == old(self).circle_filled,
            final(self).circle_outline == old(self).circle_outline,
    {
        Self::get(&ShapeType::Square, true, &mut self.square_filled, size)
    }

    /// The border of the square of `size`.
    pub fn get_square_outline(&mut self, size: u8) -> (shape: BrushShape)
        requires
            old(self).wf(),
        ensures
            final(self).wf(),
            shape.wf(),
            shape.size == size,
            shape.data@ == shape_data(ShapeType::Square, size as int, false),
            shape_kept(old(self).square_outline@, final(self).square_outline@, size),
            final(self).square_filled == old(self).square_filled,
            final(self).circle_filled == old(self).circle_filled,
            final(self).circle_outline == old(self).circle_outline,
    {
        Self::get(&ShapeType::Square, false, &mut self.square_outline, size)
    }

    /// The disk of `size`.
    pub fn get_circle_filled(&mut self, size: u8) -> (shape: BrushShape)
        requires
            old(self).wf(),
        ensures
            final(self).wf(),
            shape.wf(),
            shape.size == size,
            shape.data@ == shape_data(ShapeType::Circle, size as int, true),
            shape_kept(old(self).circle_filled@, final(self).circle_filled@, size),
            final(self).circle_outline == old(self).circle_outline,
            final(self).square_filled == old(self).square_filled,
            final(self).square_outline == old(self).square_outline,
    {
        Self::get(&ShapeType::Circle, true, &mut self.circle_filled, size)
    }

    /// The rim of the disk of `size`.
    pub fn get_circle_outline(&mut self, size: u8) -> (shape: BrushShape)
        requires
            old(self).wf(),
        ensures
            final(self).wf(),
            shape.wf(),
            shape.size == size,
            shape.data@ == shape_data(ShapeType::Circle, size as int, false),
            shape_kept(old(self).circle_outline@, final(self).circle_outline@, size),
            final(self).circle_filled == old(self).circle_filled,
            final(self).square_filled == old(self).square_filled,
            final(self).square_outline == old(self).square_outline,
    {
        Self::get(&ShapeType::Circle, false, &mut self.circle_outline, size)
    }
}

} // verus!

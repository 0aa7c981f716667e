use canvas_engine::canvas::set_pixels_main;
use canvas_engine::chunk::chunk::Delivery;
use canvas_engine::chunk::compositor::LayerID;
use canvas_engine::chunk::system::ChunkSystem;
use canvas_engine::history::History;
use canvas_engine::id::SessionHandle;
use canvas_engine::pixel::{ColorRGB, ColorRGBA, GlobalPixelRGBA};
use canvas_engine::random::draw_rolls;
use canvas_engine::tool::blend::{blur_pixels, smooth_brush_pixels, smudge_pixels};
use canvas_engine::tool::brush::{BrushShape, BrushShapeIterCell, BrushShapes, ShapeType};
use canvas_engine::tool::fill::fill_pixels;
use canvas_engine::tool::iter::LineMoveIter;
use canvas_engine::tool::iter_triangle::{is_in_triangle, max3, min3, TriangleRasterizerIter};
use canvas_engine::tool::paint::{brush_pixels, spray_pixels};
use canvas_engine::tool::reach::Reach;
use canvas_engine::tool::state::ToolStateLine;
use canvas_engine::vector::IVec2;

const RED: ColorRGB = ColorRGB { r: 255, g: 0, b: 0 };
const WHITE: ColorRGB = ColorRGB { r: 255, g: 255, b: 255 };
const BLACK: ColorRGB = ColorRGB { r: 0, g: 0, b: 0 };

fn cells_of(shape: &BrushShape) -> Vec<BrushShapeIterCell> {
    let mut cells = Vec::new();
    let mut iter = shape.iterate();
    while let Some(cell) = iter.next() {
        cells.push(cell);
    }
    cells
}

fn line(from: IVec2, to: IVec2) -> Vec<IVec2> {
    let mut points = Vec::new();
    let mut iter = LineMoveIter::iterate(from, to);
    while let Some(item) = iter.next() {
        points.push(item.pos);
    }
    points
}

fn system_around_origin() -> ChunkSystem {
    let mut system = ChunkSystem::new_at(1000, 0);
    for y in -2..=1 {
        for x in -2..=1 {
            system.load_chunk(IVec2::new(x, y), None);
        }
    }
    system
}

fn paint(system: &mut ChunkSystem, pixels: &[GlobalPixelRGBA]) {
    let mut history = History::new();
    let mut outbox: Vec<Delivery> = Vec::new();
    set_pixels_main(system, &mut history, pixels, false, &mut outbox);
}

fn at(x: i32, y: i32, color: ColorRGB) -> GlobalPixelRGBA {
    GlobalPixelRGBA { pos: IVec2::new(x, y), color: color.rgba(255) }
}

#[test]
fn square_shapes() {
    let filled = BrushShape::new(&ShapeType::Square, 3, true);
    assert_eq!(filled.size, 3);
    assert_eq!(filled.data, vec![1u8; 9]);
    let outline = BrushShape::new(&ShapeType::Square, 3, false);
    assert_eq!(outline.data, vec![1, 1, 1, 1, 0, 1, 1, 1, 1]);
    assert_eq!(cells_of(&outline).len(), 8);
    assert_eq!(cells_of(&filled)[5], BrushShapeIterCell { local_x: 2, local_y: 1 });
}

#[test]
fn circle_shapes() {
    assert_eq!(cells_of(&BrushShape::new(&ShapeType::Circle, 0, true)).len(), 0);
    assert_eq!(
        cells_of(&BrushShape::new(&ShapeType::Circle, 1, true)),
        vec![BrushShapeIterCell { local_x: 0, local_y: 0 }]
    );
    assert_eq!(cells_of(&BrushShape::new(&ShapeType::Circle, 3, true)).len(), 9);
    let disk = BrushShape::new(&ShapeType::Circle, 5, true);
    assert_eq!(
        disk.data,
        vec![0, 1, 1, 1, 0, 1, 1, 1, 1, 1, 1, 1, 1, 1, 1, 1, 1, 1, 1, 1, 0, 1, 1, 1, 0]
    );
    let rim = BrushShape::new(&ShapeType::Circle, 5, false);
    assert_eq!(
        rim.data,
        vec![0, 1, 1, 1, 0, 1, 1, 1, 1, 1, 1, 1, 0, 1, 1, 1, 1, 1, 1, 1, 0, 1, 1, 1, 0]
    );
}

#[test]
fn shapes_are_kept_by_size() {
    let mut shapes = BrushShapes::new();
    let a = shapes.get_circle_filled(5);
    let b = shapes.get_circle_filled(5);
    assert_eq!(a.data, b.data);
    assert_eq!(a.data, BrushShape::new(&ShapeType::Circle, 5, true).data);
    assert_eq!(shapes.get_circle_outline(5).data, BrushShape::new(&ShapeType::Circle, 5, false).data);
    assert_eq!(shapes.get_square_filled(4).data, vec![1u8; 16]);
    assert_eq!(shapes.get_square_outline(3).data, vec![1, 1, 1, 1, 0, 1, 1, 1, 1]);
    assert_eq!(a.duplicate().data, a.data);
}

#[test]
fn a_line_runs_from_end_to_end() {
    assert_eq!(
        line(IVec2::new(0, 0), IVec2::new(3, 1)),
        vec![IVec2::new(0, 0), IVec2::new(1, 0), IVec2::new(2, 0), IVec2::new(3, 1)]
    );
    assert_eq!(
        line(IVec2::new(0, 0), IVec2::new(-2, 0)),
        vec![IVec2::new(0, 0), IVec2::new(-1, 0), IVec2::new(-2, 0)]
    );
    assert_eq!(
        line(IVec2::new(1, 1), IVec2::new(-1, -3)),
        vec![
            IVec2::new(1, 1),
            IVec2::new(1, 0),
            IVec2::new(0, -1),
            IVec2::new(0, -2),
            IVec2::new(-1, -3)
        ]
    );
    assert_eq!(line(IVec2::new(7, -7), IVec2::new(7, -7)), vec![IVec2::new(7, -7)]);
    let long = line(IVec2::new(i32::MIN, 0), IVec2::new(i32::MIN + 1000, 500));
    assert_eq!(long.len(), 1001);
    assert_eq!(long[1000], IVec2::new(i32::MIN + 1000, 500));
}

#[test]
fn a_triangle_holds_its_inner_points() {
    let a = IVec2::new(0, 0);
    let b = IVec2::new(2, 0);
    let c = IVec2::new(0, 2);
    let mut points = Vec::new();
    let mut iter = TriangleRasterizerIter::iterate(a, b, c);
    while let Some(item) = iter.next() {
        points.push(item.pos);
    }
    // the right and the lower edge of the rectangle around it are left out
    assert_eq!(
        points,
        vec![IVec2::new(0, 0), IVec2::new(1, 0), IVec2::new(0, 1), IVec2::new(1, 1)]
    );
    assert!(is_in_triangle(1, 1, a, b, c));
    assert!(!is_in_triangle(2, 1, a, b, c));
    assert_eq!(min3(3, -1, 2), -1);
    assert_eq!(max3(3, -1, 2), 3);
}

#[test]
fn the_brush_of_one_pixel_paints_the_way() {
    let filled = BrushShape::new(&ShapeType::Circle, 1, true);
    let outline = BrushShape::new(&ShapeType::Circle, 1, false);
    let pixels = brush_pixels(IVec2::new(0, 0), IVec2::new(2, 0), 1, &filled, &outline, RED.rgba(255));
    assert_eq!(pixels, vec![at(0, 0, RED), at(1, 0, RED), at(2, 0, RED)]);
}

#[test]
fn the_brush_of_two_pixels_paints_a_cross() {
    let filled = BrushShape::new(&ShapeType::Circle, 2, true);
    let outline = BrushShape::new(&ShapeType::Circle, 2, false);
    let pixels = brush_pixels(IVec2::new(5, 5), IVec2::new(5, 5), 2, &filled, &outline, RED.rgba(255));
    assert_eq!(
        pixels,
        vec![at(5, 5, RED), at(4, 5, RED), at(6, 5, RED), at(5, 4, RED), at(5, 6, RED)]
    );
}

#[test]
fn the_brush_stays_on_the_canvas() {
    let filled = BrushShape::new(&ShapeType::Square, 3, true);
    let outline = BrushShape::new(&ShapeType::Square, 3, false);
    let corner = IVec2::new(i32::MAX, i32::MIN);
    let pixels = brush_pixels(corner, corner, 3, &filled, &outline, RED.rgba(255));
    assert_eq!(pixels.len(), 4);
    assert!(pixels.contains(&at(i32::MAX, i32::MIN, RED)));
    assert!(pixels.contains(&at(i32::MAX - 1, i32::MIN + 1, RED)));
}

#[test]
fn a_wide_brush_stamps_every_few_pixels() {
    let filled = BrushShape::new(&ShapeType::Square, 6, true);
    let outline = BrushShape::new(&ShapeType::Square, 6, false);
    // step 1 + 6 / 6 = 2: the filled square at the first pixel, outlines at the third and fifth
    let pixels = brush_pixels(IVec2::new(0, 0), IVec2::new(4, 0), 6, &filled, &outline, RED.rgba(255));
    assert_eq!(pixels.len(), 36 + 20 + 20);
    assert_eq!(pixels[0], at(-3, -3, RED));
    assert_eq!(pixels[36], at(-1, -3, RED));
}

#[test]
fn the_spray_paints_where_the_roll_is_low() {
    let shape = BrushShape::new(&ShapeType::Circle, 3, true);
    let all = spray_pixels(
        IVec2::new(0, 0),
        IVec2::new(1, 0),
        &shape,
        RED.rgba(255),
        0,
        &vec![0u32; 18],
    );
    assert_eq!(all.len(), 18);
    let none = spray_pixels(
        IVec2::new(0, 0),
        IVec2::new(1, 0),
        &shape,
        RED.rgba(255),
        0,
        &vec![512u32; 18],
    );
    assert!(none.is_empty());
    let mut rolls = vec![u32::MAX; 18];
    rolls[4] = 511;
    let one = spray_pixels(IVec2::new(0, 0), IVec2::new(1, 0), &shape, RED.rgba(255), 0, &rolls);
    assert_eq!(one, vec![at(0, 0, RED)]);
    let at_the_limit = spray_pixels(
        IVec2::new(0, 0),
        IVec2::new(1, 0),
        &shape,
        RED.rgba(255),
        8388607,
        &vec![u32::MAX; 18],
    );
    assert_eq!(at_the_limit.len(), 18);
}

#[test]
fn rolls_are_drawn_as_many_as_asked() {
    assert_eq!(draw_rolls(0).len(), 0);
    let rolls = draw_rolls(64);
    assert_eq!(rolls.len(), 64);
    assert!(rolls.iter().any(|r| *r != rolls[0]));
}

#[test]
fn a_reach_names_a_chunk_that_is_missing() {
    let reach = Reach::around(IVec2::new(0, 0), IVec2::new(10, 0), 302);
    assert_eq!(reach.lo, IVec2::new(-302, -302));
    assert_eq!(reach.hi, IVec2::new(312, 302));
    let edge = Reach::around(IVec2::new(i32::MAX, i32::MIN), IVec2::new(i32::MAX, i32::MIN), 5);
    assert_eq!(edge.lo, IVec2::new(i32::MAX - 5, i32::MIN));
    assert_eq!(edge.hi, IVec2::new(i32::MAX, i32::MIN + 5));
    let mut system = ChunkSystem::new_at(1000, 0);
    let mut loaded = 0;
    while let Some(chunk) = reach.missing_chunk(&system) {
        assert!(-2 <= chunk.x && chunk.x <= 1 && -2 <= chunk.y && chunk.y <= 1);
        system.load_chunk(chunk, None);
        loaded += 1;
    }
    assert_eq!(loaded, 16);
}

#[test]
fn the_fill_repaints_a_closed_region() {
    let mut system = system_around_origin();
    let mut wall = Vec::new();
    for i in -3..=3 {
        wall.push(at(i, -3, BLACK));
        wall.push(at(i, 3, BLACK));
        wall.push(at(-3, i, BLACK));
        wall.push(at(3, i, BLACK));
    }
    paint(&mut system, &wall);
    let pixels = fill_pixels(&system, IVec2::new(0, 0), WHITE, RED);
    assert_eq!(pixels.len(), 25);
    for p in &pixels {
        assert!(p.pos.x.abs() <= 2 && p.pos.y.abs() <= 2);
        assert_eq!(p.color, RED.rgba(255));
    }
    let mut seen: Vec<IVec2> = pixels.iter().map(|p| p.pos).collect();
    seen.sort_by_key(|p| (p.y, p.x));
    seen.dedup();
    assert_eq!(seen.len(), 25);
}

#[test]
fn the_fill_paints_nothing_from_another_colour() {
    let system = system_around_origin();
    assert!(fill_pixels(&system, IVec2::new(0, 0), BLACK, RED).is_empty());
}

#[test]
fn the_fill_stops_300_pixels_from_the_seed() {
    let system = system_around_origin();
    let seed = IVec2::new(-20, 7);
    let pixels = fill_pixels(&system, seed, WHITE, RED);
    // the pixels no further than 300 steps away: 2 * 300 * 301 + 1
    assert_eq!(pixels.len(), 180601);
    let mut farthest = 0;
    for p in &pixels {
        let d = (p.pos.x - seed.x).abs() + (p.pos.y - seed.y).abs();
        assert!(d <= 300);
        if d > farthest {
            farthest = d;
        }
    }
    assert_eq!(farthest, 300);
}

#[test]
fn the_fill_stays_inside_a_wall_at_300_pixels() {
    let mut system = system_around_origin();
    let mut wall = Vec::new();
    for i in 0..=300 {
        wall.push(at(i, 300 - i, BLACK));
        wall.push(at(-i, 300 - i, BLACK));
        wall.push(at(i, i - 300, BLACK));
        wall.push(at(-i, i - 300, BLACK));
    }
    paint(&mut system, &wall);
    let pixels = fill_pixels(&system, IVec2::new(0, 0), WHITE, RED);
    // the pixels no further than 299 steps away: 2 * 299 * 300 + 1
    assert_eq!(pixels.len(), 179401);
    assert!(pixels.iter().all(|p| p.pos.x.abs() + p.pos.y.abs() <= 299));
}

#[test]
fn the_blur_takes_the_mean_of_the_neighbours() {
    let mut system = system_around_origin();
    paint(&mut system, &[at(10, 10, BLACK)]);
    let shape = BrushShape::new(&ShapeType::Circle, 3, true);
    let pixels = match blur_pixels(&system, IVec2::new(10, 10), &shape, 255) {
        Ok(p) => p,
        Err(_) => panic!("a chunk is missing"),
    };
    assert_eq!(pixels.len(), 9);
    assert!(pixels.contains(&at(10, 10, WHITE)));
    let grey = ColorRGB { r: 220, g: 220, b: 220 };
    assert!(pixels.contains(&at(11, 10, grey)));
    assert!(pixels.contains(&at(10, 9, grey)));
    assert!(pixels.contains(&at(9, 9, WHITE)));
    let none = match blur_pixels(&system, IVec2::new(10, 10), &shape, 0) {
        Ok(p) => p,
        Err(_) => panic!("a chunk is missing"),
    };
    assert!(none.contains(&at(10, 10, BLACK)));
    assert!(none.contains(&at(11, 10, WHITE)));
}

#[test]
fn the_blur_names_a_chunk_that_is_missing() {
    let system = ChunkSystem::new_at(1000, 0);
    let shape = BrushShape::new(&ShapeType::Circle, 3, true);
    assert!(blur_pixels(&system, IVec2::new(10, 10), &shape, 255).is_err());
}

#[test]
fn the_smooth_brush_blends_by_its_kernel() {
    let system = system_around_origin();
    let strong = smooth_brush_pixels(
        &system,
        IVec2::new(0, 0),
        IVec2::new(0, 0),
        4,
        &vec![255u8; 16],
        RED.rgba(255),
    );
    assert_eq!(strong.len(), 16);
    assert!(strong.iter().all(|p| p.color == RED.rgba(255)));
    assert_eq!(strong[0].pos, IVec2::new(-2, -2));
    let weak = smooth_brush_pixels(
        &system,
        IVec2::new(0, 0),
        IVec2::new(0, 0),
        4,
        &vec![0u8; 16],
        RED.rgba(255),
    );
    assert!(weak.iter().all(|p| p.color == WHITE.rgba(255)));
}

#[test]
fn the_smudge_drags_the_colour_along() {
    let mut system = system_around_origin();
    paint(&mut system, &[at(0, 0, BLACK)]);
    let shape = BrushShape::new(&ShapeType::Circle, 1, true);
    let pixels = smudge_pixels(&system, IVec2::new(0, 0), IVec2::new(2, 0), &shape, 255);
    assert_eq!(pixels, vec![at(1, 0, BLACK), at(2, 0, BLACK)]);
    let still = smudge_pixels(&system, IVec2::new(0, 0), IVec2::new(0, 0), &shape, 255);
    assert!(still.is_empty());
}

#[test]
fn a_line_in_progress_says_what_to_show() {
    let id = LayerID::Session(0, SessionHandle::new(1, 0));
    let mut state = ToolStateLine::new(IVec2::new(0, 0), id);
    let none = IVec2::new(0, 0);
    let first = state.process(IVec2::new(2, 0), RED, 1, none).unwrap();
    assert_eq!(first, vec![at(0, 0, RED), at(1, 0, RED), at(2, 0, RED)]);
    assert!(state.process(IVec2::new(2, 0), RED, 1, none).is_none());
    let second = state.process(IVec2::new(0, 2), RED, 1, none).unwrap();
    let clear = |x: i32, y: i32| GlobalPixelRGBA { pos: IVec2::new(x, y), color: ColorRGBA::zero() };
    assert_eq!(second, vec![at(0, 0, RED), clear(1, 0), clear(2, 0), at(0, 1, RED), at(0, 2, RED)]);
    assert!(state.process(IVec2::new(2001, 0), RED, 1, none).is_none());
    assert_eq!(
        state.gen_global_pixel_vec_rgba(RED.rgba(255)),
        vec![at(0, 0, RED), at(0, 1, RED), at(0, 2, RED)]
    );
}

#[test]
fn a_thick_line_covers_its_caps_and_its_body() {
    let id = LayerID::Session(0, SessionHandle::new(1, 0));
    let mut state = ToolStateLine::new(IVec2::new(0, 0), id);
    let update = state.process(IVec2::new(10, 0), RED, 4, IVec2::new(0, 2)).unwrap();
    let covered: Vec<IVec2> = update.iter().map(|p| p.pos).collect();
    assert!(covered.contains(&IVec2::new(0, 0)));
    assert!(covered.contains(&IVec2::new(10, 0)));
    assert!(covered.contains(&IVec2::new(5, 2)));
    assert!(covered.contains(&IVec2::new(5, -2)));
    assert!(!covered.contains(&IVec2::new(5, 3)));
    let mut once = covered.clone();
    once.sort_by_key(|p| (p.y, p.x));
    once.dedup();
    assert_eq!(once.len(), covered.len());
}

#[test]
fn asking_for_a_shape_leaves_the_other_shapes_alone() {
    let mut shapes = BrushShapes::new();
    shapes.get_circle_filled(5);
    assert_eq!(shapes.circle_filled.len(), 1);
    assert!(shapes.circle_outline.is_empty());
    assert!(shapes.square_filled.is_empty());
    assert!(shapes.square_outline.is_empty());
    shapes.get_circle_filled(5);
    shapes.get_circle_filled(3);
    shapes.get_square_outline(4);
    assert_eq!(shapes.circle_filled.len(), 2);
    assert_eq!(shapes.circle_filled[&5].data, BrushShape::new(&ShapeType::Circle, 5, true).data);
    assert_eq!(shapes.square_outline.len(), 1);
    assert!(shapes.circle_outline.is_empty());
}

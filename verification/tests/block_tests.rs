use piet_interp::color_block::ColorBlock;
use piet_interp::command::{exec_cmd, Command};
use piet_interp::raster::Raster;
use piet_interp::state::{CodelChooser, Direction, Position, State};

const RED: (u8, u8, u8) = (255, 0, 0);
const BLACK: (u8, u8, u8) = (0, 0, 0);

fn raster_from_rows(rows: &[&[(u8, u8, u8)]]) -> Raster {
    let h = rows.len() as u32;
    let w = rows[0].len() as u32;
    let mut pixels = Vec::new();
    for row in rows {
        assert_eq!(row.len() as u32, w);
        for px in *row {
            pixels.push(*px);
        }
    }
    Raster::new(w, h, pixels).unwrap()
}

/// A raster that is black except for a red rectangle spanning columns two
/// through five and rows three through seven.
fn rectangle_raster() -> Raster {
    let w: u32 = 8;
    let h: u32 = 10;
    let mut pixels = Vec::new();
    for y in 0..h {
        for x in 0..w {
            if (2..=5).contains(&x) && (3..=7).contains(&y) {
                pixels.push(RED);
            } else {
                pixels.push(BLACK);
            }
        }
    }
    Raster::new(w, h, pixels).unwrap()
}

#[test]
fn rectangle_boundary_codels_for_all_eight_combinations() {
    let img = rectangle_raster();
    let blk = ColorBlock::from_position_in_img(&img, &Position { left: 3, top: 5 });
    assert_eq!(blk.color, RED);
    let cases = [
        (Direction::Right, CodelChooser::Left, (5, 3)),
        (Direction::Right, CodelChooser::Right, (5, 7)),
        (Direction::Down, CodelChooser::Left, (5, 7)),
        (Direction::Down, CodelChooser::Right, (2, 7)),
        (Direction::Left, CodelChooser::Left, (2, 7)),
        (Direction::Left, CodelChooser::Right, (2, 3)),
        (Direction::Up, CodelChooser::Left, (2, 3)),
        (Direction::Up, CodelChooser::Right, (5, 3)),
    ];
    for (dp, cc, expected) in cases {
        let p = blk.boundary_codel_position(&dp, &cc);
        assert_eq!((p.left, p.top), expected, "dp {:?} cc {:?}", dp, cc);
    }
}

#[test]
fn flood_fill_finds_only_the_connected_region() {
    // two red regions separated by black: only the seeded one is found
    let rows: &[&[(u8, u8, u8)]] = &[
        &[RED, RED, BLACK, RED],
        &[BLACK, RED, BLACK, RED],
        &[RED, RED, BLACK, BLACK],
    ];
    let img = raster_from_rows(rows);
    let blk = ColorBlock::from_position_in_img(&img, &Position { left: 0, top: 0 });
    assert_eq!(blk.value(), 5);
    let other = ColorBlock::from_position_in_img(&img, &Position { left: 3, top: 0 });
    assert_eq!(other.value(), 2);
}

#[test]
fn push_puts_the_independently_counted_region_size_on_the_stack() {
    let img = rectangle_raster();
    let seed = Position { left: 2, top: 3 };
    let blk = ColorBlock::from_position_in_img(&img, &seed);

    // count the region by exhaustive scan: the red pixels form one region
    let mut expected: i32 = 0;
    for y in 0..img.height() {
        for x in 0..img.width() {
            if piet_interp::raster::get_px(&img, &Position { left: x, top: y }) == RED {
                expected += 1;
            }
        }
    }
    assert_eq!(expected, 20);

    let mut state = State::new();
    let out = exec_cmd(Command::Push, blk.value(), None, &mut state);
    assert!(out.is_none());
    assert_eq!(state.stack, vec![expected]);
}

#[test]
fn single_codel_block_has_value_one() {
    let rows: &[&[(u8, u8, u8)]] = &[&[RED]];
    let img = raster_from_rows(rows);
    let blk = ColorBlock::from_position_in_img(&img, &Position { left: 0, top: 0 });
    assert_eq!(blk.value(), 1);
}

#[test]
fn boundary_selection_on_an_irregular_block() {
    // an L-shape: ties on the facing edge fall to the composed direction
    let rows: &[&[(u8, u8, u8)]] = &[
        &[RED, RED],
        &[BLACK, RED],
    ];
    let img = raster_from_rows(rows);
    let blk = ColorBlock::from_position_in_img(&img, &Position { left: 0, top: 0 });
    assert_eq!(blk.value(), 3);
    let p = blk.boundary_codel_position(&Direction::Down, &CodelChooser::Left);
    assert_eq!((p.left, p.top), (1, 1));
    let p = blk.boundary_codel_position(&Direction::Up, &CodelChooser::Left);
    assert_eq!((p.left, p.top), (0, 0));
    let p = blk.boundary_codel_position(&Direction::Up, &CodelChooser::Right);
    assert_eq!((p.left, p.top), (1, 0));
    let p = blk.boundary_codel_position(&Direction::Left, &CodelChooser::Left);
    assert_eq!((p.left, p.top), (0, 0));
}

#[test]
fn raster_construction_requires_matching_dimensions() {
    let pixels = vec![RED, BLACK, RED];
    assert!(Raster::new(3, 1, pixels.clone()).is_some());
    assert!(Raster::new(2, 2, pixels).is_none());
}

use piet_interp::command::{exec_cmd, Command, Output};
use piet_interp::interp::{interpreter_step, would_hit_restriction, StepResult};
use piet_interp::raster::Raster;
use piet_interp::state::{CodelChooser, Direction, Position, State};

const RED: (u8, u8, u8) = (255, 0, 0);
const DARK_RED: (u8, u8, u8) = (192, 0, 0);
const WHITE: (u8, u8, u8) = (255, 255, 255);
const BLACK: (u8, u8, u8) = (0, 0, 0);
const LIGHT_MAGENTA: (u8, u8, u8) = (255, 192, 255);

fn raster_from_rows(rows: &[&[(u8, u8, u8)]]) -> Raster {
    let h = rows.len() as u32;
    let w = rows[0].len() as u32;
    let mut pixels = Vec::new();
    for row in rows {
        for px in *row {
            pixels.push(*px);
        }
    }
    Raster::new(w, h, pixels).unwrap()
}

#[test]
fn isolated_codel_halts_without_executing_any_command() {
    let img = raster_from_rows(&[&[RED]]);
    let mut state = State::new();
    let r = interpreter_step(&img, &mut state);
    assert!(matches!(r, StepResult::Halted));
    assert_eq!(state.stack, Vec::<i32>::new());
    assert_eq!(state.dp, Direction::Right);
    assert_eq!(state.cc, CodelChooser::Left);
}

#[test]
fn codel_surrounded_by_black_halts() {
    let img = raster_from_rows(&[
        &[BLACK, BLACK, BLACK],
        &[BLACK, RED, BLACK],
        &[BLACK, BLACK, BLACK],
    ]);
    let mut state = State::new();
    state.pos = Position { left: 1, top: 1 };
    let r = interpreter_step(&img, &mut state);
    assert!(matches!(r, StepResult::Halted));
    assert_eq!(state.stack, Vec::<i32>::new());
}

#[test]
fn lightness_step_decodes_to_push_with_the_block_size() {
    let img = raster_from_rows(&[&[RED, RED, DARK_RED]]);
    let mut state = State::new();
    let r = interpreter_step(&img, &mut state);
    match r {
        StepResult::Execute(cmd, value) => {
            assert_eq!(cmd, Command::Push);
            assert_eq!(value, 2);
            let out = exec_cmd(cmd, value, None, &mut state);
            assert!(out.is_none());
        },
        other => panic!("expected a command, got {:?}", other),
    }
    assert_eq!(state.stack, vec![2]);
    assert_eq!((state.pos.left, state.pos.top), (2, 0));
}

#[test]
fn push_then_pop_program_round_trip() {
    // crossing right decodes Push, the forced return crossing decodes Pop
    let img = raster_from_rows(&[&[RED, DARK_RED]]);
    let mut state = State::new();

    let r = interpreter_step(&img, &mut state);
    match r {
        StepResult::Execute(cmd, value) => {
            assert_eq!(cmd, Command::Push);
            assert_eq!(value, 1);
            exec_cmd(cmd, value, None, &mut state);
        },
        other => panic!("expected Push, got {:?}", other),
    }
    assert_eq!(state.stack, vec![1]);

    let r = interpreter_step(&img, &mut state);
    match r {
        StepResult::Execute(cmd, value) => {
            // dark red back to normal red lightens by two levels: Pop
            assert_eq!(cmd, Command::Pop);
            exec_cmd(cmd, value, None, &mut state);
        },
        other => panic!("expected Pop, got {:?}", other),
    }
    assert_eq!(state.stack, Vec::<i32>::new());
}

#[test]
fn crossing_out_of_white_executes_no_command() {
    let img = raster_from_rows(&[&[WHITE, RED]]);
    let mut state = State::new();
    let r = interpreter_step(&img, &mut state);
    assert!(matches!(r, StepResult::NoCommand));
    assert_eq!((state.pos.left, state.pos.top), (1, 0));
    assert_eq!(state.stack, Vec::<i32>::new());
}

#[test]
fn crossing_into_white_executes_no_command() {
    let img = raster_from_rows(&[&[RED, WHITE]]);
    let mut state = State::new();
    let r = interpreter_step(&img, &mut state);
    assert!(matches!(r, StepResult::NoCommand));
    assert_eq!((state.pos.left, state.pos.top), (1, 0));
}

#[test]
fn crossing_into_an_unclassifiable_pixel_reports_it() {
    let img = raster_from_rows(&[&[RED, (1, 2, 3)]]);
    let mut state = State::new();
    let r = interpreter_step(&img, &mut state);
    match r {
        StepResult::BadColor(px) => assert_eq!(px, (1, 2, 3)),
        other => panic!("expected a classification error, got {:?}", other),
    }
}

#[test]
fn blocked_exits_rotate_until_a_free_side_is_found() {
    // black to the right: the resolver toggles and rotates until it can
    // move down into the dark red block
    let img = raster_from_rows(&[&[RED, BLACK], &[DARK_RED, BLACK]]);
    let mut state = State::new();
    let r = interpreter_step(&img, &mut state);
    match r {
        StepResult::Execute(cmd, value) => {
            assert_eq!(cmd, Command::Push);
            assert_eq!(value, 1);
        },
        other => panic!("expected Push, got {:?}", other),
    }
    assert_eq!((state.pos.left, state.pos.top), (0, 1));
    assert_eq!(state.dp, Direction::Down);
}

#[test]
fn restriction_is_hit_at_edges_and_black_codels() {
    let img = raster_from_rows(&[&[RED, BLACK, RED]]);
    let mut state = State::new();
    // moving right from the first codel lands on black
    assert!(would_hit_restriction(&img, &state));
    // moving down leaves the raster
    state.dp = Direction::Down;
    assert!(would_hit_restriction(&img, &state));
    state.dp = Direction::Left;
    assert!(would_hit_restriction(&img, &state));
    state.dp = Direction::Up;
    assert!(would_hit_restriction(&img, &state));
    // from the last codel, moving left lands on black
    state.pos = Position { left: 2, top: 0 };
    state.dp = Direction::Left;
    assert!(would_hit_restriction(&img, &state));
}

#[test]
fn full_program_emits_the_block_size() {
    // two red codels push their count; the next transition writes it out
    let img = raster_from_rows(&[&[RED, RED, DARK_RED, LIGHT_MAGENTA]]);
    let mut state = State::new();
    let mut printed: Vec<Output> = Vec::new();
    for _ in 0..2 {
        match interpreter_step(&img, &mut state) {
            StepResult::Execute(cmd, value) => {
                if let Some(out) = exec_cmd(cmd, value, None, &mut state) {
                    printed.push(out);
                }
            },
            other => panic!("expected a command, got {:?}", other),
        }
    }
    assert_eq!(printed, vec![Output::Number(2)]);
    assert_eq!(state.stack, Vec::<i32>::new());
}

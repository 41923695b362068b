//! One step of the interpretation cycle: locate the current block, pick
//! its exit codel, resolve blocked exits or halt, cross into the next
//! block, and decode the transition.

use vstd::prelude::*;
use crate::color::{spec_classify, Color};
use crate::color_block::{connected, is_codel_path, is_exit_codel, lemma_connected_trans, lemma_exit_codel_unique, lemma_region_of_member, spec_exit_codel, spec_region, ColorBlock};
use crate::command::{decode_transition, spec_decode, Command};
use crate::raster::{get_px, is_black, is_white, spec_black, spec_white, Raster};
use crate::state::{CodelChooser, Direction, Position, State};

verus! {

/// Whether a one-codel step from `p` along `d` is blocked: it would leave
/// the raster or land on the blocking sentinel color.
pub open spec fn spec_blocked_at(img: Raster, p: Position, d: Direction) -> bool {
    if d == Direction::Left && p.left == 0 {
        true
    } else if d == Direction::Up && p.top == 0 {
        true
    } else {
        let next = State::spec_stepped(p, d);
        !img.in_bounds(next) || img.px(next.left as int, next.top as int) == spec_black()
    }
}

/// Whether the cursor's next step along the direction pointer is blocked.
pub fn would_hit_restriction(img: &Raster, state: &State) -> (r: bool)
    requires
        img.in_bounds(state.pos),
        !state.choosing_codel,
    ensures
        r == spec_blocked_at(*img, state.pos, state.dp),
{
    if matches!(state.dp(), Direction::Left) && state.pos.left == 0 || matches!(
        state.dp(),
        Direction::Up,
    ) && state.pos.top == 0 {
        return true;
    }
    let nextpos = state.peek_pos();
    if !(nextpos.left < img.width() && nextpos.top < img.height()) {
        return true;
    }
    let px = get_px(img, &nextpos);
    is_black(&px)
}

/// The (direction pointer, codel chooser) pair after `k` steps of the
/// alternating toggle/rotate search, a toggle first.
pub open spec fn spec_combo(dp: Direction, cc: CodelChooser, k: int) -> (Direction, CodelChooser)
    decreases k,
{
    if k <= 0 {
        (dp, cc)
    } else {
        let prev = spec_combo(dp, cc, k - 1);
        if (k - 1) % 2 == 0 {
            (prev.0, prev.1.spec_toggled())
        } else {
            (prev.0.spec_add(Direction::Right), prev.1)
        }
    }
}

/// Eight alternating steps return to the starting pair: four toggles
/// cancel out and four clockwise quarter turns make a full turn.
pub proof fn lemma_combo_cycle(dp: Direction, cc: CodelChooser)
    ensures
        spec_combo(dp, cc, 8) == (dp, cc),
{
    assert(spec_combo(dp, cc, 0) == (dp, cc));
    assert(spec_combo(dp, cc, 1) == (dp, cc.spec_toggled()));
    assert(spec_combo(dp, cc, 2) == (dp.spec_add(Direction::Right), cc.spec_toggled()));
    assert(spec_combo(dp, cc, 3) == (dp.spec_add(Direction::Right), cc));
    assert(spec_combo(dp, cc, 4) == (
        dp.spec_add(Direction::Right).spec_add(Direction::Right),
        cc,
    ));
    assert(spec_combo(dp, cc, 5) == (
        dp.spec_add(Direction::Right).spec_add(Direction::Right),
        cc.spec_toggled(),
    ));
    assert(spec_combo(dp, cc, 6) == (
        dp.spec_add(Direction::Right).spec_add(Direction::Right).spec_add(Direction::Right),
        cc.spec_toggled(),
    ));
    assert(spec_combo(dp, cc, 7) == (
        dp.spec_add(Direction::Right).spec_add(Direction::Right).spec_add(Direction::Right),
        cc,
    ));
    assert(spec_combo(dp, cc, 8) == (
        dp.spec_add(Direction::Right).spec_add(Direction::Right).spec_add(Direction::Right)
            .spec_add(Direction::Right),
        cc,
    ));
    crate::state::lemma_rotation_round_trip(dp);
}

/// No earlier step of the search returns to the starting pair: the first
/// seven combinations are all distinct from it.
pub proof fn lemma_combo_no_early_return(dp: Direction, cc: CodelChooser, j: int)
    requires
        1 <= j < 8,
    ensures
        spec_combo(dp, cc, j) != (dp, cc),
{
    assert(spec_combo(dp, cc, 0) == (dp, cc));
    assert(spec_combo(dp, cc, 1) == (dp, cc.spec_toggled()));
    assert(spec_combo(dp, cc, 2) == (dp.spec_add(Direction::Right), cc.spec_toggled()));
    assert(spec_combo(dp, cc, 3) == (dp.spec_add(Direction::Right), cc));
    assert(spec_combo(dp, cc, 4) == (
        dp.spec_add(Direction::Right).spec_add(Direction::Right),
        cc,
    ));
    assert(spec_combo(dp, cc, 5) == (
        dp.spec_add(Direction::Right).spec_add(Direction::Right),
        cc.spec_toggled(),
    ));
    assert(spec_combo(dp, cc, 6) == (
        dp.spec_add(Direction::Right).spec_add(Direction::Right).spec_add(Direction::Right),
        cc.spec_toggled(),
    ));
    assert(spec_combo(dp, cc, 7) == (
        dp.spec_add(Direction::Right).spec_add(Direction::Right).spec_add(Direction::Right),
        cc,
    ));
}

/// Whether the `j`-th combination of the search, taken from the starting
/// pair, finds its exit codel of `region` blocked.
pub open spec fn spec_combo_blocked(
    img: Raster,
    region: Set<Position>,
    dp0: Direction,
    cc0: CodelChooser,
    j: int,
) -> bool {
    let combo = spec_combo(dp0, cc0, j);
    spec_blocked_at(img, spec_exit_codel(region, combo.0, combo.1), combo.0)
}

/// The codel the cursor stood on before its last step along `d`.
pub open spec fn spec_back_step(p: Position, d: Direction) -> Position {
    State::spec_stepped(p, d.spec_add(Direction::Down))
}

/// What one interpretation step asks of its driver.
#[derive(Debug, Clone, Copy)]
pub enum StepResult {
    /// The eight-combination search found every exit blocked: the program
    /// has terminated normally.
    Halted,
    /// The crossing touched the pass-through sentinel color: no command.
    NoCommand,
    /// A decoded command to run, with the size of the exited block.
    Execute(Command, i32),
    /// A pixel on the crossing lies outside the palette: a fatal
    /// classification error.
    BadColor((u8, u8, u8)),
}

/// Advances the cursor through one interpretation step. The stack is never
/// touched here: a returned command is executed by the caller, which hands
/// any needed input line to `exec_cmd` and writes its output.
#[verifier::rlimit(60)]
pub fn interpreter_step(img: &Raster, state: &mut State) -> (r: StepResult)
    requires
        img.in_bounds(old(state).pos),
        !old(state).choosing_codel,
    ensures
        final(state).stack@ == old(state).stack@,
        !final(state).choosing_codel,
        img.in_bounds(final(state).pos),
        r is Halted ==> final(state).dp == old(state).dp && final(state).cc == old(state).cc
            && spec_blocked_at(*img, final(state).pos, final(state).dp) && spec_region(
            *img,
            img.px(old(state).pos.left as int, old(state).pos.top as int),
            old(state).pos,
        ).contains(final(state).pos),
        r is Halted ==> forall|j: int|
            0 <= j < 8 ==> spec_combo_blocked(
                *img,
                spec_region(
                    *img,
                    img.px(old(state).pos.left as int, old(state).pos.top as int),
                    old(state).pos,
                ),
                old(state).dp,
                old(state).cc,
                j,
            ),
        !(r is Halted) ==> {
            let last = spec_back_step(final(state).pos, final(state).dp);
            let from = img.px(old(state).pos.left as int, old(state).pos.top as int);
            let to = img.px(final(state).pos.left as int, final(state).pos.top as int);
            &&& img.in_bounds(last)
            &&& !spec_blocked_at(*img, last, final(state).dp)
            &&& final(state).pos == State::spec_stepped(last, final(state).dp)
            &&& spec_region(*img, from, old(state).pos).contains(last)
            &&& (r is NoCommand <==> (from == spec_white() || to == spec_white()))
            &&& (r matches StepResult::Execute(cmd, v) ==> cmd == spec_decode(from, to)
                && spec_classify(from) is Some && spec_classify(to) is Some && (spec_region(
                *img,
                from,
                old(state).pos,
            ).len() <= i32::MAX ==> v == spec_region(*img, from, old(state).pos).len() as i32))
            &&& (r matches StepResult::BadColor(p) ==> spec_classify(p) is None && (p == from || p
                == to) && from != spec_white() && to != spec_white())
        },
{
    let ghost start_color = img.px(old(state).pos.left as int, old(state).pos.top as int);
    let ghost start_pos = old(state).pos;
    let ghost region0 = spec_region(*img, start_color, start_pos);
    let blk = ColorBlock::from_position_in_img(img, &state.pos);
    let bpos = blk.boundary_codel_position(&state.dp(), &state.cc());
    proof {
        let i = choose|i: int| 0 <= i < blk.codel_seq().len() && blk.codel_seq()[i] == bpos;
        assert(img.in_bounds(bpos));
        assert(connected(*img, start_color, start_pos, bpos));
        assert(spec_region(*img, start_color, start_pos).contains(bpos));
        assert(is_exit_codel(region0, state.dp, state.cc, bpos));
    }
    state.pos = bpos;

    let seen_white = is_white(&blk.color());
    if seen_white {
        // Slide through the pass-through block: the continuation test asks
        // for a blocking next codel, which the blocking test has already
        // ruled out, so the cursor stays on the exit codel.
        while !would_hit_restriction(img, state) && is_black(&get_px(img, &state.peek_pos()))
            invariant
                img.in_bounds(state.pos),
                !state.choosing_codel,
                state.stack@ == old(state).stack@,
                state.dp == old(state).dp,
                state.cc == old(state).cc,
                spec_region(*img, start_color, start_pos).contains(state.pos),
                is_exit_codel(region0, state.dp, state.cc, state.pos),
            decreases 0int,
        {
            proof {
                assert(false);
            }
            state.advance();
        }
    }
    let orig_dp = state.dp();
    let orig_cc = state.cc();
    let mut toggle_cc_next = true;
    let mut first_restriction_check = true;
    let ghost mut k: int = 0;
    while would_hit_restriction(img, state)
        invariant
            img.in_bounds(state.pos),
            !state.choosing_codel,
            state.stack@ == old(state).stack@,
            orig_dp == old(state).dp,
            orig_cc == old(state).cc,
            start_color == img.px(start_pos.left as int, start_pos.top as int),
            start_pos == old(state).pos,
            spec_region(*img, start_color, start_pos).contains(state.pos),
            region0 == spec_region(*img, start_color, start_pos),
            is_exit_codel(region0, state.dp, state.cc, state.pos),
            forall|j: int| 0 <= j < k ==> spec_combo_blocked(*img, region0, orig_dp, orig_cc, j),
            0 <= k <= 8,
            (state.dp, state.cc) == spec_combo(orig_dp, orig_cc, k),
            first_restriction_check == (k == 0),
            toggle_cc_next == (k % 2 == 0),
        decreases 8 - k,
    {
        let is_end_of_program = !first_restriction_check && state.dp() == orig_dp && state.cc()
            == orig_cc;
        if is_end_of_program {
            proof {
                if k < 8 {
                    lemma_combo_no_early_return(orig_dp, orig_cc, k);
                }
            }
            return StepResult::Halted;
        }
        proof {
            lemma_combo_cycle(orig_dp, orig_cc);
            assert(k < 8);
            // the current combination's exit codel is blocked: record it
            assert(is_exit_codel(region0, state.dp, state.cc, spec_exit_codel(
                region0,
                state.dp,
                state.cc,
            )));
            lemma_exit_codel_unique(
                region0,
                state.dp,
                state.cc,
                spec_exit_codel(region0, state.dp, state.cc),
                state.pos,
            );
            assert(spec_combo_blocked(*img, region0, orig_dp, orig_cc, k as int));
        }
        first_restriction_check = false;
        if toggle_cc_next {
            state.toggle_cc();
            toggle_cc_next = false;
        } else {
            state.rot_clockwise();
            toggle_cc_next = true;
        }
        proof {
            k = k + 1;
        }
        let nblk = ColorBlock::from_position_in_img(img, &state.pos);
        let npos = nblk.boundary_codel_position(&state.dp(), &state.cc());
        proof {
            let i = choose|i: int| 0 <= i < nblk.codel_seq().len() && nblk.codel_seq()[i] == npos;
            assert(img.in_bounds(npos));
            // the new exit codel stays within the starting region
            let path = choose|path: Seq<Position>|
                is_codel_path(*img, start_color, path) && path.first() == start_pos && path.last()
                    == state.pos;
            assert(img.px(state.pos.left as int, state.pos.top as int) == start_color);
            assert(connected(*img, start_color, state.pos, npos));
            lemma_connected_trans(*img, start_color, start_pos, state.pos, npos);
            assert(spec_region(*img, start_color, start_pos).contains(npos));
            lemma_region_of_member(*img, start_color, start_pos, state.pos);
            assert(nblk.codel_seq().to_set() == region0);
            assert(is_exit_codel(region0, state.dp, state.cc, npos));
        }
        state.pos = npos;
    }

    let last_pos = state.pos();
    state.advance();
    proof {
        assert(img.in_bounds(state.pos));
        assert(spec_back_step(state.pos, state.dp) == last_pos);
    }
    let nextcolor = get_px(img, &state.pos());
    let seen_white = seen_white || is_white(&nextcolor);

    if !seen_white {
        let from_px_val = blk.color();
        match decode_transition(&from_px_val, &nextcolor) {
            Ok(cmd) => StepResult::Execute(cmd, blk.value()),
            Err(_) => {
                match Color::from_px(&from_px_val) {
                    Err(_) => StepResult::BadColor(from_px_val),
                    Ok(_) => StepResult::BadColor(nextcolor),
                }
            },
        }
    } else {
        StepResult::NoCommand
    }
}

} // verus!

//! The eighteen stack-machine commands: how a color transition decodes into
//! one, and what each does to the interpreter state.

use vstd::prelude::*;
use crate::color::{hue_index, lightness_index, spec_classify, Color, Hue, Lightness};
use crate::state::{CodelChooser, Direction, State};

verus! {

#[derive(Debug, Clone, Copy, PartialEq, Eq, Structural)]
pub enum DataType {
    Number,
    Char,
}

#[derive(Debug, Clone, Copy, PartialEq, Eq, Structural)]
pub enum Command {
    Nop,
    Push,
    Pop,
    Add,
    Subtract,
    Multiply,
    Divide,
    Mod,
    Not,
    Greater,
    Pointer,
    Switch,
    Duplicate,
    Roll,
    In(DataType),
    Out(DataType),
}

/// A value the machine emits: a number to print in decimal, or a validated
/// character code point.
#[derive(Debug, Clone, Copy, PartialEq, Eq, Structural)]
pub enum Output {
    Number(i32),
    Character(u32),
}

/// The cyclic distance from one hue to another.
pub open spec fn spec_hue_delta(from: Hue, to: Hue) -> int {
    (hue_index(to) - hue_index(from)) % 6
}

/// The cyclic distance from one lightness level to another.
pub open spec fn spec_lightness_delta(from: Lightness, to: Lightness) -> int {
    (lightness_index(to) - lightness_index(from)) % 3
}

pub fn hue_delta(from: Hue, to: Hue) -> (r: u8)
    requires
        from != Hue::NoHue,
        to != Hue::NoHue,
    ensures
        r == spec_hue_delta(from, to),
        r < 6,
{
    let fi = from.index();
    let ti = to.index();
    if ti < fi {
        6 - (fi - ti)
    } else {
        ti - fi
    }
}

pub fn lightness_delta(from: Lightness, to: Lightness) -> (r: u8)
    requires
        from != Lightness::NoLightness,
        to != Lightness::NoLightness,
    ensures
        r == spec_lightness_delta(from, to),
        r < 3,
{
    let fi = from.index();
    let ti = to.index();
    if ti < fi {
        3 - (fi - ti)
    } else {
        ti - fi
    }
}

/// The fixed dispatch matrix: every (hue delta, lightness delta) pair in
/// range maps to exactly one command.
pub open spec fn spec_command_matrix(hd: int, ld: int) -> Command {
    if hd == 0 {
        if ld == 0 {
            Command::Nop
        } else if ld == 1 {
            Command::Push
        } else {
            Command::Pop
        }
    } else if hd == 1 {
        if ld == 0 {
            Command::Add
        } else if ld == 1 {
            Command::Subtract
        } else {
            Command::Multiply
        }
    } else if hd == 2 {
        if ld == 0 {
            Command::Divide
        } else if ld == 1 {
            Command::Mod
        } else {
            Command::Not
        }
    } else if hd == 3 {
        if ld == 0 {
            Command::Greater
        } else if ld == 1 {
            Command::Pointer
        } else {
            Command::Switch
        }
    } else if hd == 4 {
        if ld == 0 {
            Command::Duplicate
        } else if ld == 1 {
            Command::Roll
        } else {
            Command::In(DataType::Number)
        }
    } else {
        if ld == 0 {
            Command::In(DataType::Char)
        } else if ld == 1 {
            Command::Out(DataType::Number)
        } else {
            Command::Out(DataType::Char)
        }
    }
}

/// The decoder is total over the whole delta domain: this function accepts
/// every pair with hue delta below six and lightness delta below three, and
/// returns the one command the matrix assigns.
pub fn command_from_deltas(hd: u8, ld: u8) -> (c: Command)
    requires
        hd < 6,
        ld < 3,
    ensures
        c == spec_command_matrix(hd as int, ld as int),
{
    if hd == 0 {
        if ld == 0 {
            Command::Nop
        } else if ld == 1 {
            Command::Push
        } else {
            Command::Pop
        }
    } else if hd == 1 {
        if ld == 0 {
            Command::Add
        } else if ld == 1 {
            Command::Subtract
        } else {
            Command::Multiply
        }
    } else if hd == 2 {
        if ld == 0 {
            Command::Divide
        } else if ld == 1 {
            Command::Mod
        } else {
            Command::Not
        }
    } else if hd == 3 {
        if ld == 0 {
            Command::Greater
        } else if ld == 1 {
            Command::Pointer
        } else {
            Command::Switch
        }
    } else if hd == 4 {
        if ld == 0 {
            Command::Duplicate
        } else if ld == 1 {
            Command::Roll
        } else {
            Command::In(DataType::Number)
        }
    } else {
        if ld == 0 {
            Command::In(DataType::Char)
        } else if ld == 1 {
            Command::Out(DataType::Number)
        } else {
            Command::Out(DataType::Char)
        }
    }
}

/// The command a transition between two classifiable pixels decodes to.
pub open spec fn spec_decode(fp: (u8, u8, u8), tp: (u8, u8, u8)) -> Command {
    spec_command_matrix(
        spec_hue_delta(spec_classify(fp)->Some_0.0, spec_classify(tp)->Some_0.0),
        spec_lightness_delta(spec_classify(fp)->Some_0.1, spec_classify(tp)->Some_0.1),
    )
}

/// Decodes the transition from the pixel of the exited block to the pixel
/// of the entered block; either pixel outside the palette is a
/// classification error.
pub fn decode_transition(from_px: &(u8, u8, u8), to_px: &(u8, u8, u8)) -> (r: Result<
    Command,
    String,
>)
    ensures
        spec_classify(*from_px) is Some && spec_classify(*to_px) is Some ==> r is Ok && r->Ok_0
            == spec_decode(*from_px, *to_px),
        spec_classify(*from_px) is None || spec_classify(*to_px) is None ==> r is Err,
{
    let from_color = Color::from_px(from_px)?;
    let to_color = Color::from_px(to_px)?;
    let hd = hue_delta(from_color.hue, to_color.hue);
    let ld = lightness_delta(from_color.lightness, to_color.lightness);
    Ok(command_from_deltas(hd, ld))
}

/// Whether a popped value, reinterpreted as unsigned, is a valid character
/// code point: below the surrogate range or between it and the code-point
/// ceiling.
pub open spec fn spec_valid_codepoint(u: u32) -> bool {
    u < 0xD800 || (0xE000 <= u && u <= 0x10FFFF)
}

pub fn valid_codepoint(u: u32) -> (r: bool)
    ensures
        r == spec_valid_codepoint(u),
{
    u < 0xD800 || (0xE000 <= u && u <= 0x10FFFF)
}

/// The direction pointer after `k` clockwise quarter turns.
pub open spec fn spec_rot_cw_n(d: Direction, k: int) -> Direction
    decreases k,
{
    if k <= 0 {
        d
    } else {
        spec_rot_cw_n(d, k - 1).spec_add(Direction::Right)
    }
}

/// The direction pointer after `k` counterclockwise quarter turns.
pub open spec fn spec_rot_ccw_n(d: Direction, k: int) -> Direction
    decreases k,
{
    if k <= 0 {
        d
    } else {
        spec_rot_ccw_n(d, k - 1).spec_add(Direction::Left)
    }
}

/// The remainder of `n` by four with the dividend's sign, as the machine's
/// narrowing of a pointer operand.
pub open spec fn spec_pointer_turns(n: int) -> int {
    if n >= 0 {
        n % 4
    } else {
        -((-n) % 4)
    }
}

/// One rotation of the top `depth + 1` stack entries: the top entry is
/// buried `depth` places down and the entries above it move up by one.
pub open spec fn spec_roll_once(s: Seq<i32>, depth: int) -> Seq<i32> {
    if 0 < depth < s.len() {
        s.subrange(0, s.len() - depth - 1) + seq![s.last()] + s.subrange(
            s.len() - depth - 1,
            s.len() - 1,
        )
    } else {
        s
    }
}

/// `k` such rotations in order.
pub open spec fn spec_roll_n(s: Seq<i32>, depth: int, k: int) -> Seq<i32>
    decreases k,
{
    if k <= 0 {
        s
    } else {
        spec_roll_once(spec_roll_n(s, depth, k - 1), depth)
    }
}

/// What the stack machine leaves on the stack, and emits, for one command.
/// Every malformed-operand case is a defined no-op for the remainder of the
/// step; operands already popped are not restored.
pub fn exec_cmd(
    cmd: Command,
    block_value: i32,
    input: Option<&Vec<u8>>,
    state: &mut State,
) -> (r: Option<Output>)
    ensures
        final(state).pos == old(state).pos,
        final(state).choosing_codel == old(state).choosing_codel,
        !(cmd is Pointer) ==> final(state).dp == old(state).dp,
        !(cmd is Switch) ==> final(state).cc == old(state).cc,
        cmd is Nop ==> final(state).stack@ == old(state).stack@ && r is None,
        cmd is Push ==> final(state).stack@ == old(state).stack@.push(block_value) && r is None,
        cmd is Pop ==> final(state).stack@ == (if old(state).stack@.len() == 0 {
            old(state).stack@
        } else {
            old(state).stack@.drop_last()
        }) && r is None,
        cmd is Add ==> final(state).stack@ == spec_binop_stack(old(state).stack@, cmd) && r is None,
        cmd is Subtract ==> final(state).stack@ == spec_binop_stack(old(state).stack@, cmd) && r
            is None,
        cmd is Multiply ==> final(state).stack@ == spec_binop_stack(old(state).stack@, cmd) && r
            is None,
        cmd is Divide ==> final(state).stack@ == spec_divmod_stack(old(state).stack@, true) && r
            is None,
        cmd is Mod ==> final(state).stack@ == spec_divmod_stack(old(state).stack@, false) && r
            is None,
        cmd is Not ==> final(state).stack@ == (if old(state).stack@.len() == 0 {
            old(state).stack@
        } else {
            old(state).stack@.drop_last().push(
                if old(state).stack@.last() == 0 {
                    1i32
                } else {
                    0i32
                },
            )
        }) && r is None,
        cmd is Greater ==> final(state).stack@ == (if old(state).stack@.len() < 2 {
            old(state).stack@
        } else {
            old(state).stack@.drop_last().drop_last().push(
                if old(state).stack@[old(state).stack@.len() - 2] > old(state).stack@.last() {
                    1i32
                } else {
                    0i32
                },
            )
        }) && r is None,
        cmd is Pointer ==> r is None && (if old(state).stack@.len() == 0 {
            final(state).stack@ == old(state).stack@ && final(state).dp == old(state).dp
        } else {
            final(state).stack@ == old(state).stack@.drop_last() && final(state).dp == (
            if spec_pointer_turns(old(state).stack@.last() as int) >= 0 {
                spec_rot_cw_n(old(state).dp, spec_pointer_turns(old(state).stack@.last() as int))
            } else {
                spec_rot_ccw_n(old(state).dp, -spec_pointer_turns(old(state).stack@.last() as int))
            })
        }),
        cmd is Switch ==> r is None && (if old(state).stack@.len() == 0 {
            final(state).stack@ == old(state).stack@ && final(state).cc == old(state).cc
        } else {
            final(state).stack@ == old(state).stack@.drop_last() && final(state).cc == (
            if old(state).stack@.last() > 0 && (old(state).stack@.last() as int) % 2 == 1 {
                old(state).cc.spec_toggled()
            } else {
                old(state).cc
            })
        }),
        cmd is Duplicate ==> final(state).stack@ == (if old(state).stack@.len() == 0 {
            old(state).stack@
        } else {
            old(state).stack@.push(old(state).stack@.last())
        }) && r is None,
        cmd is Roll ==> final(state).stack@ == spec_roll_stack(old(state).stack@) && r is None,
        cmd matches Command::In(dt) ==> r is None && final(state).stack@ == (
        if input is Some && spec_parse_i32(input->Some_0@) is Some && (dt is Number
            || spec_valid_codepoint(spec_parse_i32(input->Some_0@)->Some_0 as u32)) {
            old(state).stack@.push(spec_parse_i32(input->Some_0@)->Some_0)
        } else {
            old(state).stack@
        }),
        cmd matches Command::Out(dt) ==> (if old(state).stack@.len() == 0 {
            final(state).stack@ == old(state).stack@ && r is None
        } else {
            final(state).stack@ == old(state).stack@.drop_last() && r == (
            if dt is Number {
                Some(Output::Number(old(state).stack@.last()))
            } else if spec_valid_codepoint(old(state).stack@.last() as u32) {
                Some(Output::Character(old(state).stack@.last() as u32))
            } else {
                None::<Output>
            })
        }),
{
    match cmd {
        Command::Nop => None,
        Command::Push => {
            state.stack.push(block_value);
            None
        },
        Command::Pop => {
            if state.stack.len() > 0 {
                state.stack.pop();
            }
            None
        },
        Command::Add | Command::Subtract | Command::Multiply => {
            if state.stack.len() >= 2 {
                let b = state.stack.pop().unwrap();
                let a = state.stack.pop().unwrap();
                let res = match cmd {
                    Command::Add => a.wrapping_add(b),
                    Command::Subtract => a.wrapping_sub(b),
                    _ => a.wrapping_mul(b),
                };
                state.stack.push(res);
            }
            None
        },
        Command::Divide | Command::Mod => {
            if state.stack.len() >= 2 {
                let divisor = state.stack.pop().unwrap();
                let dividend = state.stack.pop().unwrap();
                if divisor != 0 {
                    let res = if matches!(cmd, Command::Divide) {
                        match dividend.checked_div(divisor) {
                            Some(v) => v,
                            None => i32::MIN,
                        }
                    } else {
                        match dividend.checked_rem(divisor) {
                            Some(v) => v,
                            None => 0,
                        }
                    };
                    state.stack.push(res);
                }
            }
            None
        },
        Command::Not => {
            if state.stack.len() > 0 {
                let top = state.stack.pop().unwrap();
                state.stack.push(if top == 0 {
                    1
                } else {
                    0
                });
            }
            None
        },
        Command::Greater => {
            if state.stack.len() >= 2 {
                let first = state.stack.pop().unwrap();
                let second = state.stack.pop().unwrap();
                state.stack.push(
                    if second > first {
                        1
                    } else {
                        0
                    },
                );
            }
            None
        },
        Command::Pointer => {
            if state.stack.len() > 0 {
                let n = state.stack.pop().unwrap();
                if n >= 0 {
                    let t: u32 = (n as u32) % 4;
                    let mut i: u32 = 0;
                    while i < t
                        invariant
                            i <= t,
                            t == spec_pointer_turns(n as int),
                            state.dp == spec_rot_cw_n(old(state).dp, i as int),
                            state.stack@ == old(state).stack@.drop_last(),
                            state.cc == old(state).cc,
                            state.pos == old(state).pos,
                            state.choosing_codel == old(state).choosing_codel,
                        decreases t - i,
                    {
                        state.rot_clockwise();
                        i = i + 1;
                    }
                } else {
                    let t: u32 = ((-(n as i64)) as u32) % 4;
                    proof {
                        assert(t == (-(n as int)) % 4);
                    }
                    let mut i: u32 = 0;
                    while i < t
                        invariant
                            i <= t,
                            t == -spec_pointer_turns(n as int),
                            state.dp == spec_rot_ccw_n(old(state).dp, i as int),
                            state.stack@ == old(state).stack@.drop_last(),
                            state.cc == old(state).cc,
                            state.pos == old(state).pos,
                            state.choosing_codel == old(state).choosing_codel,
                        decreases t - i,
                    {
                        state.rot_counterclockwise();
                        i = i + 1;
                    }
                }
            }
            None
        },
        Command::Switch => {
            if state.stack.len() > 0 {
                let n = state.stack.pop().unwrap();
                if n > 0 && (n as u32) % 2 == 1 {
                    state.toggle_cc();
                }
            }
            None
        },
        Command::Duplicate => {
            if state.stack.len() > 0 {
                let last = state.stack.pop().unwrap();
                state.stack.push(last);
                state.stack.push(last);
                proof {
                    assert(state.stack@ =~= old(state).stack@.push(old(state).stack@.last()));
                }
            }
            None
        },
        Command::Roll => {
            exec_roll(state);
            None
        },
        Command::In(dtype) => {
            match input {
                None => {},
                Some(bytes) => {
                    match parse_i32_bytes(bytes) {
                        None => {},
                        Some(n) => {
                            let ok = match dtype {
                                DataType::Number => true,
                                DataType::Char => valid_codepoint(n as u32),
                            };
                            if ok {
                                state.stack.push(n);
                            }
                        },
                    }
                },
            }
            None
        },
        Command::Out(dtype) => {
            if state.stack.len() > 0 {
                let output = state.stack.pop().unwrap();
                match dtype {
                    DataType::Number => Some(Output::Number(output)),
                    DataType::Char => {
                        if valid_codepoint(output as u32) {
                            Some(Output::Character(output as u32))
                        } else {
                            None
                        }
                    },
                }
            } else {
                None
            }
        },
    }
}

/// The stack after a wrapping binary arithmetic command: the two top
/// entries are replaced by their combination, the deeper operand first.
pub open spec fn spec_binop_stack(s: Seq<i32>, cmd: Command) -> Seq<i32> {
    if s.len() < 2 {
        s
    } else {
        let b = s.last();
        let a = s[s.len() - 2];
        let res = match cmd {
            Command::Add => a.wrapping_add(b),
            Command::Subtract => a.wrapping_sub(b),
            _ => a.wrapping_mul(b),
        };
        s.drop_last().drop_last().push(res)
    }
}

/// The stack after a division or remainder command: a zero divisor
/// discards both operands and pushes nothing; otherwise the truncating
/// quotient or the dividend-signed remainder is pushed, the one
/// overflowing quotient wrapping back to the smallest value.
pub open spec fn spec_divmod_stack(s: Seq<i32>, is_div: bool) -> Seq<i32> {
    if s.len() < 2 {
        s
    } else {
        let divisor = s.last();
        let dividend = s[s.len() - 2];
        let rest = s.drop_last().drop_last();
        if divisor == 0 {
            rest
        } else if is_div {
            rest.push(
                match dividend.checked_div(divisor) {
                    Some(v) => v,
                    None => i32::MIN,
                },
            )
        } else {
            rest.push(
                match dividend.checked_rem(divisor) {
                    Some(v) => v,
                    None => 0i32,
                },
            )
        }
    }
}

/// The stack after a roll command: the two top entries give the roll count
/// and the depth; out-of-range depths discard them and do nothing more; a
/// negative count is replaced by its magnitude with the depth re-derived
/// from the remaining length.
pub open spec fn spec_roll_stack(s: Seq<i32>) -> Seq<i32> {
    if s.len() < 2 {
        s
    } else {
        let num_rolls = s.last() as int;
        let depth = s[s.len() - 2] as int - 1;
        let rest = s.drop_last().drop_last();
        if depth < 0 || depth >= rest.len() {
            rest
        } else if num_rolls < 0 {
            spec_roll_n(rest, rest.len() - (-num_rolls), -num_rolls)
        } else {
            spec_roll_n(rest, depth, num_rolls)
        }
    }
}

/// Performs the roll command on the stack.
fn exec_roll(state: &mut State)
    ensures
        final(state).stack@ == spec_roll_stack(old(state).stack@),
        final(state).pos == old(state).pos,
        final(state).dp == old(state).dp,
        final(state).cc == old(state).cc,
        final(state).choosing_codel == old(state).choosing_codel,
{
    if state.stack.len() < 2 {
        return ;
    }
    let num_rolls_raw = state.stack.pop().unwrap();
    let depth_raw = state.stack.pop().unwrap();
    let len: usize = state.stack.len();
    if depth_raw <= 0 {
        return ;
    }
    let depth0: u64 = (depth_raw as u64) - 1;
    if depth0 >= (len as u64) {
        return ;
    }
    let ghost rest = state.stack@;
    let k: u64;
    let depth: u64;
    if num_rolls_raw < 0 {
        let m: u64 = (-(num_rolls_raw as i64)) as u64;
        if m > (len as u64) {
            proof {
                lemma_roll_n_identity(rest, len as int - m as int, m as int);
            }
            return ;
        }
        k = m;
        depth = (len as u64) - m;
    } else {
        k = num_rolls_raw as u64;
        depth = depth0;
    }
    let mut it: u64 = 0;
    while it < k
        invariant
            0 <= it <= k,
            state.stack@ == spec_roll_n(rest, depth as int, it as int),
            state.stack@.len() == rest.len(),
            rest.len() == len,
            (depth as int) <= len as int - 1,
            len >= 1,
            state.pos == old(state).pos,
            state.dp == old(state).dp,
            state.cc == old(state).cc,
            state.choosing_codel == old(state).choosing_codel,
        decreases k - it,
    {
        let ghost entry = state.stack@;
        let mut d: u64 = 0;
        while d < depth
            invariant
                0 <= d <= depth,
                (depth as int) <= len as int - 1,
                len >= 1,
                entry.len() == len,
                state.stack@.len() == len,
                forall|j: int| 0 <= j < len as int - 1 - d as int ==> state.stack@[j] == entry[j],
                state.stack@[len as int - 1 - d as int] == entry[len as int - 1],
                forall|j: int|
                    len as int - d as int <= j < len as int ==> state.stack@[j] == entry[j - 1],
                state.pos == old(state).pos,
                state.dp == old(state).dp,
                state.cc == old(state).cc,
                state.choosing_codel == old(state).choosing_codel,
            decreases depth - d,
        {
            let offset: usize = len - (d as usize) - 1;
            let upper = state.stack[offset];
            let lower = state.stack[offset - 1];
            state.stack.set(offset, lower);
            state.stack.set(offset - 1, upper);
            d = d + 1;
        }
        proof {
            if depth > 0 {
                assert(state.stack@ =~= spec_roll_once(entry, depth as int));
            } else {
                assert(state.stack@ =~= entry);
            }
            assert(spec_roll_once(spec_roll_n(rest, depth as int, it as int), depth as int)
                == spec_roll_n(rest, depth as int, it as int + 1));
        }
        it = it + 1;
    }
}

/// Rotations at a nonpositive depth leave the stack as it is.
proof fn lemma_roll_n_identity(s: Seq<i32>, depth: int, k: int)
    requires
        depth <= 0,
    ensures
        spec_roll_n(s, depth, k) == s,
    decreases k,
{
    if k > 0 {
        lemma_roll_n_identity(s, depth, k - 1);
    }
}

/// Whether a byte is ASCII whitespace, the class trimmed from numeric
/// input lines.
pub open spec fn spec_is_space(b: u8) -> bool {
    b == 32 || b == 9 || b == 10 || b == 13 || b == 11 || b == 12
}

fn is_space(b: u8) -> (r: bool)
    ensures
        r == spec_is_space(b),
{
    b == 32 || b == 9 || b == 10 || b == 13 || b == 11 || b == 12
}

pub open spec fn spec_trim_front(s: Seq<u8>) -> Seq<u8>
    decreases s.len(),
{
    if s.len() > 0 && spec_is_space(s[0]) {
        spec_trim_front(s.drop_first())
    } else {
        s
    }
}

pub open spec fn spec_trim_back(s: Seq<u8>) -> Seq<u8>
    decreases s.len(),
{
    if s.len() > 0 && spec_is_space(s.last()) {
        spec_trim_back(s.drop_last())
    } else {
        s
    }
}

/// The input line with ASCII whitespace removed from both ends.
pub open spec fn spec_trim(s: Seq<u8>) -> Seq<u8> {
    spec_trim_back(spec_trim_front(s))
}

pub open spec fn spec_is_digit(b: u8) -> bool {
    48 <= b && b <= 57
}

/// The value of a digit string read in base ten.
pub open spec fn spec_digits_val(s: Seq<u8>) -> int
    decreases s.len(),
{
    if s.len() == 0 {
        0
    } else {
        spec_digits_val(s.drop_last()) * 10 + (s.last() - 48)
    }
}

/// Trimmed base-ten integer parsing: an optional sign, then digits only,
/// and a value within the signed 32-bit range; anything else fails.
/// The digit run of a trimmed numeric literal: everything after one
/// optional leading sign.
pub open spec fn spec_sign_digits(t: Seq<u8>) -> Seq<u8> {
    if t.len() > 0 && (t[0] == 45 || t[0] == 43) {
        t.drop_first()
    } else {
        t
    }
}

pub open spec fn spec_parse_i32(s: Seq<u8>) -> Option<i32> {
    let t = spec_trim(s);
    if t.len() == 0 {
        None
    } else {
        let neg = t[0] == 45;
        let ds = spec_sign_digits(t);
        if ds.len() == 0 || exists|i: int| 0 <= i < ds.len() && !spec_is_digit(#[trigger] ds[i]) {
            None
        } else {
            let v = if neg {
                -spec_digits_val(ds)
            } else {
                spec_digits_val(ds)
            };
            if i32::MIN <= v <= i32::MAX {
                Some(v as i32)
            } else {
                None
            }
        }
    }
}

/// Parses a numeric input line as the machine reads it.
pub fn parse_i32_bytes(s: &Vec<u8>) -> (r: Option<i32>)
    ensures
        r == spec_parse_i32(s@),
{
    let n = s.len();
    let mut lo: usize = 0;
    proof {
        assert(s@.skip(0) =~= s@);
    }
    while lo < n && is_space(s[lo])
        invariant
            lo <= n,
            n == s@.len(),
            spec_trim_front(s@) == spec_trim_front(s@.skip(lo as int)),
        decreases n - lo,
    {
        proof {
            assert(s@.skip(lo as int).drop_first() =~= s@.skip(lo as int + 1));
        }
        lo = lo + 1;
    }
    proof {
        if lo < n {
            assert(spec_trim_front(s@.skip(lo as int)) == s@.skip(lo as int));
        } else {
            assert(s@.skip(lo as int) =~= Seq::<u8>::empty());
        }
        assert(spec_trim_front(s@) == s@.skip(lo as int));
    }
    let mut hi: usize = n;
    while hi > lo && is_space(s[hi - 1])
        invariant
            lo <= hi <= n,
            n == s@.len(),
            spec_trim_front(s@) == s@.skip(lo as int),
            spec_trim_back(s@.skip(lo as int)) == spec_trim_back(
                s@.subrange(lo as int, hi as int),
            ),
        decreases hi,
    {
        proof {
            assert(s@.subrange(lo as int, hi as int).drop_last() =~= s@.subrange(
                lo as int,
                hi as int - 1,
            ));
            assert(s@.subrange(lo as int, hi as int).last() == s@[hi as int - 1]);
        }
        hi = hi - 1;
    }
    proof {
        assert(s@.skip(lo as int) =~= s@.subrange(lo as int, n as int));
        if hi > lo {
            assert(s@.subrange(lo as int, hi as int).last() == s@[hi as int - 1]);
            assert(spec_trim_back(s@.subrange(lo as int, hi as int)) == s@.subrange(
                lo as int,
                hi as int,
            ));
        } else {
            assert(s@.subrange(lo as int, hi as int) =~= Seq::<u8>::empty());
        }
        assert(spec_trim(s@) == s@.subrange(lo as int, hi as int));
    }
    if lo == hi {
        return None;
    }
    let ghost t = s@.subrange(lo as int, hi as int);
    let first = s[lo];
    let neg = first == 45;
    let ds_start: usize = if first == 45 || first == 43 {
        lo + 1
    } else {
        lo
    };
    proof {
        if first == 45 || first == 43 {
            assert(t.drop_first() =~= s@.subrange(ds_start as int, hi as int));
        }
    }
    let ghost ds = s@.subrange(ds_start as int, hi as int);
    proof {
        if !(first == 45 || first == 43) {
            assert(ds == t);
        }
        assert(ds == spec_sign_digits(spec_trim(s@)));
    }
    if ds_start == hi {
        return None;
    }
    let mut j: usize = ds_start;
    let mut acc: i64 = 0;
    while j < hi
        invariant
            lo < hi,
            lo <= ds_start < hi,
            ds_start <= j <= hi,
            hi <= n,
            n == s@.len(),
            spec_trim(s@) == s@.subrange(lo as int, hi as int),
            neg == (s@[lo as int] == 45),
            ds_start as int == if s@[lo as int] == 45 || s@[lo as int] == 43 {
                lo as int + 1
            } else {
                lo as int
            },
            ds == s@.subrange(ds_start as int, hi as int),
            ds == spec_sign_digits(spec_trim(s@)),
            forall|k: int| ds_start <= k < j ==> spec_is_digit(#[trigger] s@[k]),
            0 <= spec_digits_val(s@.subrange(ds_start as int, j as int)),
            acc == if spec_digits_val(s@.subrange(ds_start as int, j as int)) <= 0x8000_0000 {
                spec_digits_val(s@.subrange(ds_start as int, j as int))
            } else {
                0x1_0000_0000 as int
            },
        decreases hi - j,
    {
        let b = s[j];
        if b < 48 || b > 57 {
            proof {
                assert(ds[j as int - ds_start as int] == s@[j as int]);
                assert(!spec_is_digit(ds[j as int - ds_start as int]));
            }
            return None;
        }
        let d: i64 = (b - 48) as i64;
        proof {
            assert(s@.subrange(ds_start as int, j as int + 1).drop_last() =~= s@.subrange(
                ds_start as int,
                j as int,
            ));
            assert(s@.subrange(ds_start as int, j as int + 1).last() == s@[j as int]);
        }
        acc = if acc <= 0x8000_0000 {
            let next = acc * 10 + d;
            if next > 0x8000_0000 {
                0x1_0000_0000
            } else {
                next
            }
        } else {
            acc
        };
        j = j + 1;
    }
    proof {
        assert(ds =~= s@.subrange(ds_start as int, j as int));
        assert forall|k: int| 0 <= k < ds.len() implies spec_is_digit(#[trigger] ds[k]) by {
            assert(ds[k] == s@[ds_start as int + k]);
            assert(spec_is_digit(s@[ds_start as int + k]));
        }
    }
    if acc > 0x8000_0000 {
        proof {
            assert(spec_digits_val(ds) > 0x8000_0000);
        }
        return None;
    }
    if neg {
        let v64: i64 = -acc;
        proof {
            assert(v64 == -spec_digits_val(ds));
            assert((i32::MIN as i64) <= v64 <= (i32::MAX as i64));
        }
        Some(v64 as i32)
    } else {
        if acc > (i32::MAX as i64) {
            return None;
        }
        Some(acc as i32)
    }
}

} // verus!

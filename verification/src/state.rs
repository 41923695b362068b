//! The mutable state of a running program: cursor position, direction
//! pointer, codel chooser, and the value stack.

use vstd::prelude::*;

verus! {

/// A codel coordinate: zero-indexed column (`left`) and row (`top`).
#[derive(Debug, Clone, Copy, PartialEq, Eq, Structural)]
pub struct Position {
    pub left: u32,
    pub top: u32,
}

/// The four cursor directions, with a rotation algebra: `a.add(b)` rotates
/// `a` by the quarter turns that `b` stands for.
#[derive(Debug, Clone, Copy, PartialEq, Eq, Structural)]
pub enum Direction {
    Right,
    Down,
    Left,
    Up,
}

impl Direction {
    /// Rotation composition: `Right` turns a quarter clockwise, `Down` a
    /// half turn, `Left` a quarter counterclockwise, `Up` is the identity.
    pub open spec fn spec_add(self, rhs: Direction) -> Direction {
        match rhs {
            Direction::Right => match self {
                Direction::Right => Direction::Down,
                Direction::Down => Direction::Left,
                Direction::Left => Direction::Up,
                Direction::Up => Direction::Right,
            },
            Direction::Down => match self {
                Direction::Right => Direction::Left,
                Direction::Down => Direction::Up,
                Direction::Left => Direction::Right,
                Direction::Up => Direction::Down,
            },
            Direction::Left => match self {
                Direction::Right => Direction::Up,
                Direction::Down => Direction::Right,
                Direction::Left => Direction::Down,
                Direction::Up => Direction::Left,
            },
            Direction::Up => self,
        }
    }

    /// Rotates `self` by the quarter turns that `rhs` stands for.
    pub fn add(self, rhs: Direction) -> (r: Direction)
        ensures
            r == self.spec_add(rhs),
    {
        match rhs {
            Direction::Right => match self {
                Direction::Right => Direction::Down,
                Direction::Down => Direction::Left,
                Direction::Left => Direction::Up,
                Direction::Up => Direction::Right,
            },
            Direction::Down => match self {
                Direction::Right => Direction::Left,
                Direction::Down => Direction::Up,
                Direction::Left => Direction::Right,
                Direction::Up => Direction::Down,
            },
            Direction::Left => match self {
                Direction::Right => Direction::Up,
                Direction::Down => Direction::Right,
                Direction::Left => Direction::Down,
                Direction::Up => Direction::Left,
            },
            Direction::Up => self,
        }
    }
}

/// Rotating clockwise and then counterclockwise returns every direction to
/// its original value, and so do four consecutive clockwise rotations.
pub proof fn lemma_rotation_round_trip(d: Direction)
    ensures
        d.spec_add(Direction::Right).spec_add(Direction::Left) == d,
        d.spec_add(Direction::Left).spec_add(Direction::Right) == d,
        d.spec_add(Direction::Right).spec_add(Direction::Right).spec_add(Direction::Right).spec_add(
            Direction::Right,
        ) == d,
{
}

/// The codel chooser: a strict two-valued state, so that no invalid chooser
/// value is representable.
#[derive(Debug, Clone, Copy, PartialEq, Eq, Structural)]
pub enum CodelChooser {
    Left,
    Right,
}

impl CodelChooser {
    pub open spec fn spec_toggled(self) -> CodelChooser {
        match self {
            CodelChooser::Left => CodelChooser::Right,
            CodelChooser::Right => CodelChooser::Left,
        }
    }

    /// The direction the chooser leans toward, as a rotation operand.
    pub open spec fn spec_direction(self) -> Direction {
        match self {
            CodelChooser::Left => Direction::Left,
            CodelChooser::Right => Direction::Right,
        }
    }

    pub fn direction(self) -> (r: Direction)
        ensures
            r == self.spec_direction(),
    {
        match self {
            CodelChooser::Left => Direction::Left,
            CodelChooser::Right => Direction::Right,
        }
    }
}

/// The whole interpreter state: the value stack, the cursor position, the
/// direction pointer `dp`, the codel chooser `cc`, and a flag selecting
/// whether the cursor steps along `dp` or along the composed direction.
#[derive(Debug)]
pub struct State {
    pub stack: Vec<i32>,
    pub pos: Position,
    pub choosing_codel: bool,
    pub dp: Direction,
    pub cc: CodelChooser,
}

impl State {
    /// The direction used to break ties on a block's facing edge: the codel
    /// chooser's side rotated by the direction pointer.
    pub open spec fn spec_codel_direction(self) -> Direction {
        self.cc.spec_direction().spec_add(self.dp)
    }

    /// The direction a cursor step would take right now.
    pub open spec fn spec_shift_direction(self) -> Direction {
        if self.choosing_codel {
            self.spec_codel_direction()
        } else {
            self.dp
        }
    }

    /// Whether a one-codel step in the current shift direction stays within
    /// the coordinate space.
    pub open spec fn can_step(self) -> bool {
        match self.spec_shift_direction() {
            Direction::Left => self.pos.left > 0,
            Direction::Right => self.pos.left < u32::MAX,
            Direction::Up => self.pos.top > 0,
            Direction::Down => self.pos.top < u32::MAX,
        }
    }

    /// The position one codel away from `p` in direction `d`.
    pub open spec fn spec_stepped(p: Position, d: Direction) -> Position {
        match d {
            Direction::Left => Position { left: (p.left - 1) as u32, top: p.top },
            Direction::Right => Position { left: (p.left + 1) as u32, top: p.top },
            Direction::Up => Position { left: p.left, top: (p.top - 1) as u32 },
            Direction::Down => Position { left: p.left, top: (p.top + 1) as u32 },
        }
    }

    pub open spec fn spec_peek(self) -> Position {
        Self::spec_stepped(self.pos, self.spec_shift_direction())
    }

    /// The initial state: cursor at the origin, pointing right, chooser
    /// left, empty stack.
    pub fn new() -> (s: State)
        ensures
            s.dp == Direction::Right,
            s.cc == CodelChooser::Left,
            s.stack@ == Seq::<i32>::empty(),
            s.pos == (Position { left: 0, top: 0 }),
            !s.choosing_codel,
    {
        State {
            dp: Direction::Right,
            cc: CodelChooser::Left,
            stack: Vec::new(),
            pos: Position { left: 0, top: 0 },
            choosing_codel: false,
        }
    }

    pub fn dp(&self) -> (r: Direction)
        ensures
            r == self.dp,
    {
        self.dp
    }

    pub fn cc(&self) -> (r: CodelChooser)
        ensures
            r == self.cc,
    {
        self.cc
    }

    pub fn codel_direction(&self) -> (r: Direction)
        ensures
            r == self.spec_codel_direction(),
    {
        self.cc.direction().add(self.dp)
    }

    pub fn pos(&self) -> (r: Position)
        ensures
            r == self.pos,
    {
        self.pos
    }

    /// The position one step ahead of the cursor, without moving it.
    pub fn peek_pos(&self) -> (r: Position)
        requires
            self.can_step(),
        ensures
            r == self.spec_peek(),
    {
        let mut newpos = self.pos;
        let shift_dir = if self.choosing_codel {
            self.codel_direction()
        } else {
            self.dp
        };
        match shift_dir {
            Direction::Left => {
                newpos.left = newpos.left - 1;
            },
            Direction::Right => {
                newpos.left = newpos.left + 1;
            },
            Direction::Up => {
                newpos.top = newpos.top - 1;
            },
            Direction::Down => {
                newpos.top = newpos.top + 1;
            },
        }
        newpos
    }

    /// Commits the step that `peek_pos` describes.
    pub fn advance(&mut self)
        requires
            old(self).can_step(),
        ensures
            final(self).pos == old(self).spec_peek(),
            final(self).stack == old(self).stack,
            final(self).dp == old(self).dp,
            final(self).cc == old(self).cc,
            final(self).choosing_codel == old(self).choosing_codel,
    {
        self.pos = self.peek_pos();
    }

    pub fn rot_clockwise(&mut self)
        ensures
            final(self).dp == old(self).dp.spec_add(Direction::Right),
            final(self).stack == old(self).stack,
            final(self).pos == old(self).pos,
            final(self).cc == old(self).cc,
            final(self).choosing_codel == old(self).choosing_codel,
    {
        self.dp = self.dp.add(Direction::Right);
    }

    pub fn rot_counterclockwise(&mut self)
        ensures
            final(self).dp == old(self).dp.spec_add(Direction::Left),
            final(self).stack == old(self).stack,
            final(self).pos == old(self).pos,
            final(self).cc == old(self).cc,
            final(self).choosing_codel == old(self).choosing_codel,
    {
        self.dp = self.dp.add(Direction::Left);
    }

    pub fn toggle_cc(&mut self)
        ensures
            final(self).cc == old(self).cc.spec_toggled(),
            final(self).stack == old(self).stack,
            final(self).pos == old(self).pos,
            final(self).dp == old(self).dp,
            final(self).choosing_codel == old(self).choosing_codel,
    {
        self.cc = match self.cc {
            CodelChooser::Left => CodelChooser::Right,
            CodelChooser::Right => CodelChooser::Left,
        };
    }
}

} // verus!

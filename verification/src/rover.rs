//! The simulation engine: directions, instructions, the rover state, and
//! the step-by-step interpreter with boundary-collision detection.

use vstd::prelude::*;
use crate::grid::Grid;
use crate::grid::Point;
use crate::grid::xy_in_bounds;

verus! {

/// One atomic command applied to the rover.
#[derive(Debug, Copy, Clone, PartialEq, Eq, Structural)]
pub enum Instr {
    Left,
    Right,
    Forward,
    Noop,
}

/// A cardinal facing direction.
#[derive(Debug, Copy, Clone, PartialEq, Eq, Structural)]
pub enum Dir {
    North,
    East,
    South,
    West,
}

/// The canonical index of a direction in the cyclic order
/// North, East, South, West.
pub open spec fn dir_index(d: Dir) -> int {
    match d {
        Dir::North => 0,
        Dir::East => 1,
        Dir::South => 2,
        Dir::West => 3,
    }
}

/// The direction whose canonical index is `i` modulo 4.
pub open spec fn dir_of_index(i: int) -> Dir {
    let r = i % 4;
    if r == 0 {
        Dir::North
    } else if r == 1 {
        Dir::East
    } else if r == 2 {
        Dir::South
    } else {
        Dir::West
    }
}

/// The next direction in the cyclic order (a quarter turn to the right).
pub open spec fn turn_right_dir(d: Dir) -> Dir {
    match d {
        Dir::North => Dir::East,
        Dir::East => Dir::South,
        Dir::South => Dir::West,
        Dir::West => Dir::North,
    }
}

/// The previous direction in the cyclic order (a quarter turn to the left).
pub open spec fn turn_left_dir(d: Dir) -> Dir {
    match d {
        Dir::North => Dir::West,
        Dir::West => Dir::South,
        Dir::South => Dir::East,
        Dir::East => Dir::North,
    }
}

/// The direction opposite to `d`: two quarter turns.
pub open spec fn opposite_dir(d: Dir) -> Dir {
    turn_right_dir(turn_right_dir(d))
}

/// The x displacement of one forward move while facing `d`.
pub open spec fn delta_x(d: Dir) -> int {
    match d {
        Dir::North => 0,
        Dir::East => 1,
        Dir::South => 0,
        Dir::West => -1,
    }
}

/// The y displacement of one forward move while facing `d`.
pub open spec fn delta_y(d: Dir) -> int {
    match d {
        Dir::North => 1,
        Dir::East => 0,
        Dir::South => -1,
        Dir::West => 0,
    }
}

impl Dir {
    /// The direction whose canonical index is `v` modulo 4
    /// (Euclidean remainder, so negative `v` wraps around).
    pub fn from_i8(v: i8) -> (r: Dir)
        ensures
            r == dir_of_index(v as int),
    {
        let rem = v.checked_rem_euclid(4).unwrap();
        if rem == 0 {
            Dir::North
        } else if rem == 1 {
            Dir::East
        } else if rem == 2 {
            Dir::South
        } else {
            Dir::West
        }
    }

    /// The canonical index of this direction.
    pub fn index(&self) -> (r: i8)
        ensures
            r as int == dir_index(*self),
    {
        match self {
            Dir::North => 0,
            Dir::East => 1,
            Dir::South => 2,
            Dir::West => 3,
        }
    }
}

/// The simulated agent: one position and one facing direction.
#[derive(Debug, Copy, Clone, PartialEq, Eq, Structural)]
pub struct Rover {
    pub pos: Point,
    pub facing: Dir,
}

/// The destination of one forward move from `r`'s position in `r`'s facing
/// direction, as a pair of unbounded integers (so the candidate position is
/// exact even when it lies outside the grid).
pub open spec fn forward_dest(r: Rover) -> (int, int) {
    (r.pos.x + delta_x(r.facing), r.pos.y + delta_y(r.facing))
}

/// Both coordinates of `r`'s position are strictly inside the `i32` range,
/// so a one-step candidate position is always representable.
pub open spec fn rover_fits(r: Rover) -> bool {
    i32::MIN < r.pos.x < i32::MAX && i32::MIN < r.pos.y < i32::MAX
}

/// The effect of a single instruction on the rover state: either the next
/// state, or the out-of-bounds destination (as exact integers) of a forward
/// move that is refused and not committed.
pub open spec fn step_spec(r: Rover, i: Instr, g: Grid) -> Result<Rover, (int, int)> {
    match i {
        Instr::Left => Ok(Rover { facing: turn_left_dir(r.facing), ..r }),
        Instr::Right => Ok(Rover { facing: turn_right_dir(r.facing), ..r }),
        Instr::Noop => Ok(r),
        Instr::Forward => (if xy_in_bounds(forward_dest(r).0, forward_dest(r).1, g) {
            Ok(
                Rover {
                    pos: Point { x: forward_dest(r).0 as i32, y: forward_dest(r).1 as i32 },
                    ..r
                },
            )
        } else {
            Err(forward_dest(r))
        }),
    }
}

/// The rover state after applying `instrs` in order, stopping (with the
/// state unchanged by the failing instruction) at the first forward move
/// that would leave the grid.
pub open spec fn run_spec(r: Rover, instrs: Seq<Instr>, g: Grid) -> Rover
    decreases instrs.len(),
{
    if instrs.len() == 0 {
        r
    } else {
        match step_spec(r, instrs[0], g) {
            Ok(r2) => run_spec(r2, instrs.drop_first(), g),
            Err(_) => r,
        }
    }
}

/// The outcome of applying `instrs` in order: the final position on
/// success, or the first out-of-bounds destination (as exact integers)
/// reached by a forward move; instructions after that point play no part.
pub open spec fn sim_spec(r: Rover, instrs: Seq<Instr>, g: Grid) -> Result<Point, (int, int)>
    decreases instrs.len(),
{
    if instrs.len() == 0 {
        Ok(r.pos)
    } else {
        match step_spec(r, instrs[0], g) {
            Ok(r2) => sim_spec(r2, instrs.drop_first(), g),
            Err(q) => Err(q),
        }
    }
}

impl Rover {
    /// One forward move: commits the destination when it is inside `grid`,
    /// otherwise leaves the state unchanged and reports the destination.
    pub fn move_forward(&mut self, grid: &Grid) -> (r: Result<(), Point>)
        requires
            rover_fits(*old(self)),
        ensures
            rover_fits(*final(self)),
            match r {
                Ok(u) => step_spec(*old(self), Instr::Forward, *grid) == Ok::<Rover, (int, int)>(
                    *final(self),
                ),
                Err(p) => *final(self) == *old(self) && step_spec(
                    *old(self),
                    Instr::Forward,
                    *grid,
                ) == Err::<Rover, (int, int)>((p.x as int, p.y as int)),
            },
    {
        let d: (i32, i32) = match &self.facing {
            Dir::North => (0, 1),
            Dir::East => (1, 0),
            Dir::South => (0, -1),
            Dir::West => (-1, 0),
        };
        let next_p = self.pos.add(d);
        if next_p.is_out_of_bounds(grid) {
            return Err(next_p);
        }
        self.pos = next_p;
        Ok(())
    }

    /// Advances the facing direction by `d` quarter turns to the right
    /// (negative `d` turns left), leaving the position unchanged.
    pub fn rotate(&mut self, d: i8)
        ensures
            final(self).pos == old(self).pos,
            final(self).facing == dir_of_index(dir_index(old(self).facing) + d as int),
    {
        let idx: i32 = self.facing.index() as i32;
        let t: i32 = idx + d as i32;
        let rem = t.checked_rem_euclid(4).unwrap();
        self.facing = Dir::from_i8(rem as i8);
    }

    /// A quarter turn to the left; never fails.
    pub fn rotate_left(&mut self) -> (r: Result<(), Point>)
        ensures
            r is Ok,
            final(self).pos == old(self).pos,
            final(self).facing == turn_left_dir(old(self).facing),
    {
        self.rotate(-1);
        Ok(())
    }

    /// A quarter turn to the right; never fails.
    pub fn rotate_right(&mut self) -> (r: Result<(), Point>)
        ensures
            r is Ok,
            final(self).pos == old(self).pos,
            final(self).facing == turn_right_dir(old(self).facing),
    {
        self.rotate(1);
        Ok(())
    }

    /// Applies one instruction: turns and no-ops always succeed, a forward
    /// move succeeds exactly when its destination is inside `grid`, and a
    /// refused move reports the destination without committing it.
    pub fn act_if_possible(&mut self, instr: &Instr, grid: &Grid) -> (r: Result<(), Point>)
        requires
            rover_fits(*old(self)),
        ensures
            rover_fits(*final(self)),
            match r {
                Ok(u) => step_spec(*old(self), *instr, *grid) == Ok::<Rover, (int, int)>(
                    *final(self),
                ),
                Err(p) => *final(self) == *old(self) && step_spec(*old(self), *instr, *grid)
                    == Err::<Rover, (int, int)>((p.x as int, p.y as int)),
            },
    {
        match instr {
            Instr::Left => self.rotate_left(),
            Instr::Right => self.rotate_right(),
            Instr::Forward => self.move_forward(grid),
            Instr::Noop => Ok(()),
        }
    }
}

/// Runs the whole instruction sequence on the rover held in `input`,
/// mutating it in place. Returns the final position when every instruction
/// succeeds, and otherwise the first out-of-bounds destination, which is
/// never committed to the rover; instructions after a collision are not
/// applied.
pub fn solve(input: &mut (Rover, Vec<Instr>), grid: &Grid) -> (r: Result<Point, Point>)
    requires
        rover_fits(old(input).0),
    ensures
        final(input).1@ == old(input).1@,
        final(input).0 == run_spec(old(input).0, old(input).1@, *grid),
        match r {
            Ok(p) => sim_spec(old(input).0, old(input).1@, *grid) == Ok::<Point, (int, int)>(p),
            Err(p) => sim_spec(old(input).0, old(input).1@, *grid) == Err::<Point, (int, int)>(
                (p.x as int, p.y as int),
            ),
        },
{
    let ghost r0 = input.0;
    let ghost is0 = input.1@;
    let n = input.1.len();
    let mut idx: usize = 0;
    proof {
        assert(is0.skip(0) =~= is0);
    }
    while idx < n
        invariant
            idx <= n,
            n == is0.len(),
            r0 == old(input).0,
            is0 == old(input).1@,
            input.1@ == is0,
            rover_fits(input.0),
            run_spec(r0, is0, *grid) == run_spec(input.0, is0.skip(idx as int), *grid),
            sim_spec(r0, is0, *grid) == sim_spec(input.0, is0.skip(idx as int), *grid),
        decreases n - idx,
    {
        let ins: Instr = input.1[idx];
        let ghost before = input.0;
        let step = input.0.act_if_possible(&ins, grid);
        proof {
            assert(is0.skip(idx as int)[0] == is0[idx as int]);
            assert(is0.skip(idx as int).drop_first() =~= is0.skip(idx as int + 1));
        }
        if let Err(p) = step {
            return Err(p);
        }
        idx = idx + 1;
    }
    proof {
        assert(is0.skip(n as int) =~= Seq::<Instr>::empty());
    }
    Ok(input.0.pos)
}

} // verus!

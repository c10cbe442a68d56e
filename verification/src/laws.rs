//! General properties of the simulation, stated and proved once for all
//! inputs.

use vstd::prelude::*;
use crate::grid::Grid;
use crate::grid::Point;
use crate::rover::Dir;
use crate::rover::Instr;
use crate::rover::Rover;
use crate::rover::opposite_dir;
use crate::rover::run_spec;
use crate::rover::sim_spec;
use crate::rover::step_spec;
use crate::rover::turn_left_dir;
use crate::rover::turn_right_dir;

verus! {

/// Turning left and then right, or right and then left, returns to the
/// starting direction: the two turns are inverses.
pub proof fn lemma_turn_inverse(d: Dir)
    ensures
        turn_right_dir(turn_left_dir(d)) == d,
        turn_left_dir(turn_right_dir(d)) == d,
{
}

/// Rotation is cyclic of order four: four quarter turns in the same sense
/// return to the starting direction.
pub proof fn lemma_rotation_cycle(d: Dir)
    ensures
        turn_right_dir(turn_right_dir(turn_right_dir(turn_right_dir(d)))) == d,
        turn_left_dir(turn_left_dir(turn_left_dir(turn_left_dir(d)))) == d,
{
}

/// From a position strictly inside the grid on all four sides, a forward
/// move in any direction succeeds, and a forward move in the opposite
/// direction from there returns to the starting position.
pub proof fn lemma_forward_round_trip(r: Rover, g: Grid)
    requires
        0 < r.pos.x,
        r.pos.x + 1 < g.width,
        0 < r.pos.y,
        r.pos.y + 1 < g.height,
    ensures
        step_spec(r, Instr::Forward, g) is Ok,
        ({
            let r1 = step_spec(r, Instr::Forward, g)->Ok_0;
            let back = Rover { pos: r1.pos, facing: opposite_dir(r.facing) };
            step_spec(back, Instr::Forward, g) == Ok::<Rover, (int, int)>(
                Rover { pos: r.pos, facing: opposite_dir(r.facing) },
            )
        }),
{
}

/// Inserting a no-op anywhere in the instruction sequence changes neither
/// the outcome nor the final rover state; by induction the same holds for
/// any number of inserted no-ops.
pub proof fn lemma_noop_insert(r: Rover, instrs: Seq<Instr>, k: int, g: Grid)
    requires
        0 <= k <= instrs.len(),
    ensures
        sim_spec(r, instrs.insert(k, Instr::Noop), g) == sim_spec(r, instrs, g),
        run_spec(r, instrs.insert(k, Instr::Noop), g) == run_spec(r, instrs, g),
    decreases k,
{
    let s2 = instrs.insert(k, Instr::Noop);
    if k == 0 {
        assert(s2[0] == Instr::Noop);
        assert(s2.drop_first() =~= instrs);
    } else {
        assert(s2[0] == instrs[0]);
        assert(s2.drop_first() =~= instrs.drop_first().insert(k - 1, Instr::Noop));
        match step_spec(r, instrs[0], g) {
            Ok(r2) => {
                lemma_noop_insert(r2, instrs.drop_first(), k - 1, g);
            },
            Err(q) => {},
        }
    }
}

/// `s` with every no-op removed.
pub open spec fn strip_noops(s: Seq<Instr>) -> Seq<Instr>
    decreases s.len(),
{
    if s.len() == 0 {
        Seq::empty()
    } else if s[0] == Instr::Noop {
        strip_noops(s.drop_first())
    } else {
        seq![s[0]] + strip_noops(s.drop_first())
    }
}

/// No-ops are irrelevant: a sequence and the same sequence with every
/// no-op removed have the same outcome and leave the rover in the same
/// state.
pub proof fn lemma_noops_irrelevant(r: Rover, instrs: Seq<Instr>, g: Grid)
    ensures
        sim_spec(r, instrs, g) == sim_spec(r, strip_noops(instrs), g),
        run_spec(r, instrs, g) == run_spec(r, strip_noops(instrs), g),
    decreases instrs.len(),
{
    if instrs.len() == 0 {
    } else if instrs[0] == Instr::Noop {
        lemma_noops_irrelevant(r, instrs.drop_first(), g);
    } else {
        let t = seq![instrs[0]] + strip_noops(instrs.drop_first());
        assert(t[0] == instrs[0]);
        assert(t.drop_first() =~= strip_noops(instrs.drop_first()));
        match step_spec(r, instrs[0], g) {
            Ok(r2) => {
                lemma_noops_irrelevant(r2, instrs.drop_first(), g);
            },
            Err(q) => {},
        }
    }
}

/// Two instruction sequences that differ only in inserted no-ops — they
/// strip to the same sequence — have the same outcome and leave the rover
/// in the same state, whatever the number and places of the no-ops.
pub proof fn lemma_noop_padding_irrelevant(r: Rover, s1: Seq<Instr>, s2: Seq<Instr>, g: Grid)
    requires
        strip_noops(s1) == strip_noops(s2),
    ensures
        sim_spec(r, s1, g) == sim_spec(r, s2, g),
        run_spec(r, s1, g) == run_spec(r, s2, g),
{
    lemma_noops_irrelevant(r, s1, g);
    lemma_noops_irrelevant(r, s2, g);
}

/// Decomposition of a run at any cut: a concatenation has the collision
/// of its first part if there is one, and otherwise runs the second part
/// from the state the first part reaches.
pub proof fn lemma_sim_append(r: Rover, s1: Seq<Instr>, s2: Seq<Instr>, g: Grid)
    ensures
        sim_spec(r, s1 + s2, g) == (if sim_spec(r, s1, g) is Err {
            sim_spec(r, s1, g)
        } else {
            sim_spec(run_spec(r, s1, g), s2, g)
        }),
        run_spec(r, s1 + s2, g) == (if sim_spec(r, s1, g) is Err {
            run_spec(r, s1, g)
        } else {
            run_spec(run_spec(r, s1, g), s2, g)
        }),
    decreases s1.len(),
{
    if s1.len() == 0 {
        assert(s1 + s2 =~= s2);
    } else {
        assert((s1 + s2)[0] == s1[0]);
        assert((s1 + s2).drop_first() =~= s1.drop_first() + s2);
        match step_spec(r, s1[0], g) {
            Ok(r2) => {
                lemma_sim_append(r2, s1.drop_first(), s2, g);
            },
            Err(q) => {},
        }
    }
}

/// Once a collision has happened, it is final: whatever instructions
/// follow the colliding one, the outcome is the collision found in the
/// prefix, so instructions after the first failing move play no part.
pub proof fn lemma_collision_is_first(r: Rover, instrs: Seq<Instr>, more: Seq<Instr>, g: Grid)
    requires
        sim_spec(r, instrs, g) is Err,
    ensures
        sim_spec(r, instrs + more, g) == sim_spec(r, instrs, g),
        run_spec(r, instrs + more, g) == run_spec(r, instrs, g),
{
    lemma_sim_append(r, instrs, more, g);
}

} // verus!

use vstd::prelude::*;
use vstd::arithmetic::div_mod::lemma_fundamental_div_mod_converse;
use crate::interpolate::{between, first_after, holds_still, lemma_exact_at_keyframe, lemma_first_after_sorted, sorted, timeline_wf};
use crate::script::{Instruction, ScriptError};
use crate::state::{fits, initial_pose, Pose, TurtleState, Vec2};

verus! {

/// The number of entries of a direction table: one per whole degree.
pub const DEGREES: usize = 360;

pub open spec fn abs(v: int) -> int {
    if v < 0 { -v } else { v }
}

/// The direction table's entry for a heading: headings that differ by whole
/// turns share one entry.
pub open spec fn dir_index(rot: int) -> int {
    rot % 360
}

/// The pose after one instruction. Time is in ticks: a move by `d` takes
/// `|d| * rotate_speed` ticks and a turn by `a` degrees takes
/// `|a| * move_speed` ticks, so one second is `move_speed * rotate_speed`
/// ticks. A move goes along `table[dir_index(heading)]`.
pub open spec fn step(p: Pose, ins: Instruction, table: Seq<Vec2>, move_speed: int, rotate_speed: int) -> Pose {
    match ins {
        Instruction::PenUp => Pose { pen: false, ..p },
        Instruction::PenDown => Pose { pen: true, ..p },
        Instruction::Forward(d) => {
            let dir = table[dir_index(p.rot)];
            Pose {
                time: p.time + abs(d as int) * rotate_speed,
                x: p.x + dir.x * d,
                y: p.y + dir.y * d,
                ..p
            }
        },
        Instruction::Turn(a) => Pose { time: p.time + abs(a as int) * move_speed, rot: p.rot + a, ..p },
    }
}

/// The keyframe after the first `k` instructions.
pub open spec fn pose_at(instrs: Seq<Instruction>, table: Seq<Vec2>, move_speed: int, rotate_speed: int, k: int) -> Pose
    decreases k,
{
    if k <= 0 {
        initial_pose()
    } else {
        step(pose_at(instrs, table, move_speed, rotate_speed, k - 1), instrs[k - 1], table, move_speed, rotate_speed)
    }
}

/// Every keyframe of the script fits its integer types.
pub open spec fn all_fit(instrs: Seq<Instruction>, table: Seq<Vec2>, move_speed: int, rotate_speed: int) -> bool {
    forall|k: int| 0 <= k <= instrs.len() ==> fits(#[trigger] pose_at(instrs, table, move_speed, rotate_speed, k))
}

fn direction_index(rot: i64) -> (r: usize)
    ensures
        r as int == dir_index(rot as int),
        r < DEGREES,
{
    let m = (rot as i128) % 360;
    if rot >= 0 {
        m as usize
    } else {
        let n = ((-(rot as i128)) as u128 % 360) as usize;
        proof {
            let v = rot as int;
            let q = (-v) / 360;
            vstd::arithmetic::div_mod::lemma_fundamental_div_mod(-v, 360);
            if n == 0 {
                lemma_fundamental_div_mod_converse(v, 360, -q, 0);
            } else {
                lemma_fundamental_div_mod_converse(v, 360, -q - 1, 360 - n);
            }
        }
        if n == 0 { 0 } else { DEGREES - n }
    }
}

/// Compiles instructions into a timeline. `table[h]` is the direction of a
/// move at heading `h` degrees, scaled to the fixed-point unit of positions.
/// The speeds must be positive; the timeline starts with the initial pose and
/// has one more keyframe per instruction.
pub fn compile(instrs: &Vec<Instruction>, table: &Vec<Vec2>, move_speed: u64, rotate_speed: u64) -> (r: Result<Vec<TurtleState>, ScriptError>)
    requires
        table.len() == DEGREES,
    ensures
        move_speed == 0 || rotate_speed == 0 ==> r == Err::<Vec<TurtleState>, ScriptError>(ScriptError::InvalidConfiguration),
        move_speed > 0 && rotate_speed > 0 ==> {
            &&& r is Ok <==> all_fit(instrs@, table@, move_speed as int, rotate_speed as int)
            &&& r is Err ==> r == Err::<Vec<TurtleState>, ScriptError>(ScriptError::OutOfRange)
        },
        r matches Ok(v) ==> {
            &&& v.len() == instrs.len() + 1
            &&& forall|k: int| 0 <= k < v.len() ==> (#[trigger] v@[k])@ == pose_at(instrs@, table@, move_speed as int, rotate_speed as int, k)
            &&& timeline_wf(v@)
        },
{
    if move_speed == 0 || rotate_speed == 0 {
        return Err(ScriptError::InvalidConfiguration);
    }
    let ghost ms = move_speed as int;
    let ghost rs = rotate_speed as int;
    let mut states: Vec<TurtleState> = Vec::new();
    states.push(TurtleState::initial());
    let mut i: usize = 0;
    while i < instrs.len()
        invariant
            table.len() == DEGREES,
            ms == move_speed as int,
            rs == rotate_speed as int,
            ms > 0,
            rs > 0,
            i <= instrs.len(),
            states.len() == i + 1,
            forall|k: int| 0 <= k <= i ==> (#[trigger] states@[k])@ == pose_at(instrs@, table@, ms, rs, k),
            forall|k: int| 0 <= k <= i ==> fits(#[trigger] pose_at(instrs@, table@, ms, rs, k)),
            timeline_wf(states@),
        decreases instrs.len() - i,
    {
        let p = states[i];
        assert(p@ == pose_at(instrs@, table@, ms, rs, i as int));
        let next = match instrs[i] {
            Instruction::PenUp => TurtleState { is_drawing: false, ..p },
            Instruction::PenDown => TurtleState { is_drawing: true, ..p },
            Instruction::Forward(d) => {
                let dir = table[direction_index(p.rot)];
                let ad: u128 = if d < 0 { (-(d as i128)) as u128 } else { d as u128 };
                proof {
                    assert(ad * (rotate_speed as u128) <= 0x8000_0000_0000_0000u128 * 0xffff_ffff_ffff_ffffu128) by (nonlinear_arith)
                        requires ad <= 0x8000_0000_0000_0000u128, rotate_speed <= 0xffff_ffff_ffff_ffffu64;
                    assert(-0x8000_0000_0000_0000i128 * 0x8000_0000_0000_0000i128 <= (dir.x as i128) * (d as i128) <= 0x8000_0000_0000_0000i128 * 0x8000_0000_0000_0000i128) by (nonlinear_arith)
                        requires -0x8000_0000_0000_0000i128 <= dir.x <= 0x7fff_ffff_ffff_ffffi128, -0x8000_0000_0000_0000i128 <= d <= 0x7fff_ffff_ffff_ffffi128;
                    assert(-0x8000_0000_0000_0000i128 * 0x8000_0000_0000_0000i128 <= (dir.y as i128) * (d as i128) <= 0x8000_0000_0000_0000i128 * 0x8000_0000_0000_0000i128) by (nonlinear_arith)
                        requires -0x8000_0000_0000_0000i128 <= dir.y <= 0x7fff_ffff_ffff_ffffi128, -0x8000_0000_0000_0000i128 <= d <= 0x7fff_ffff_ffff_ffffi128;
                }
                let t = (p.time as u128) + ad * (rotate_speed as u128);
                let x = (p.pos.x as i128) + (dir.x as i128) * (d as i128);
                let y = (p.pos.y as i128) + (dir.y as i128) * (d as i128);
                if t > u64::MAX as u128 || x < i64::MIN as i128 || x > i64::MAX as i128 || y < i64::MIN as i128 || y > i64::MAX as i128 {
                    proof {
                        let q = pose_at(instrs@, table@, ms, rs, i + 1);
                        assert(q.time == t && q.x == x && q.y == y);
                        assert(!fits(q));
                    }
                    return Err(ScriptError::OutOfRange);
                }
                proof {
                    if ad * rotate_speed == 0 {
                        assert(ad == 0) by (nonlinear_arith)
                            requires ad * rotate_speed == 0, rotate_speed > 0;
                    }
                }
                proof {
                    if ad == 0 {
                        assert(d == 0);
                        assert((dir.x as i128) * (d as i128) == 0) by (nonlinear_arith)
                            requires d == 0;
                        assert((dir.y as i128) * (d as i128) == 0) by (nonlinear_arith)
                            requires d == 0;
                    }
                }
                TurtleState { time: t as u64, pos: Vec2 { x: x as i64, y: y as i64 }, ..p }
            },
            Instruction::Turn(a) => {
                let aa: u128 = if a < 0 { (-(a as i128)) as u128 } else { a as u128 };
                proof {
                    assert(aa * (move_speed as u128) <= 0x8000_0000_0000_0000u128 * 0xffff_ffff_ffff_ffffu128) by (nonlinear_arith)
                        requires aa <= 0x8000_0000_0000_0000u128, move_speed <= 0xffff_ffff_ffff_ffffu64;
                }
                let t = (p.time as u128) + aa * (move_speed as u128);
                let rot = (p.rot as i128) + (a as i128);
                if t > u64::MAX as u128 || rot < i64::MIN as i128 || rot > i64::MAX as i128 {
                    proof {
                        let q = pose_at(instrs@, table@, ms, rs, i + 1);
                        assert(q.time == t && q.rot == rot);
                        assert(!fits(q));
                    }
                    return Err(ScriptError::OutOfRange);
                }
                proof {
                    if aa * move_speed == 0 {
                        assert(aa == 0) by (nonlinear_arith)
                            requires aa * move_speed == 0, move_speed > 0;
                    }
                }
                TurtleState { time: t as u64, rot: rot as i64, ..p }
            },
        };
        let ghost old_states = states@;
        states.push(next);
        proof {
            assert(next@ == pose_at(instrs@, table@, ms, rs, i + 1));
            assert forall|a: int, b: int| 0 <= a <= b < states@.len() implies states@[a].time <= states@[b].time by {
                if b == i + 1 && a < b {
                    assert(old_states[a].time <= old_states[i as int].time);
                }
            }
            assert(sorted(states@));
            assert forall|j: int| 0 <= j < states@.len() - 1 implies #[trigger] holds_still(states@, j) by {
                if j < i {
                    assert(holds_still(old_states, j));
                    assert(states@[j] == old_states[j] && states@[j + 1] == old_states[j + 1]);
                } else {
                    assert(states@[j] == p && states@[j + 1] == next);
                }
            }
        }
        i += 1;
    }
    Ok(states)
}

} // verus!

verus! {

/// Querying a compiled timeline whose duration is positive at time 0 finds
/// the turtle at the origin with heading 0; if the first instruction takes
/// time, the pose there is exactly the initial pose.
pub proof fn lemma_start_pose(instrs: Seq<Instruction>, table: Seq<Vec2>, move_speed: int, rotate_speed: int, s: Seq<TurtleState>)
    requires
        s.len() == instrs.len() + 1,
        forall|k: int| 0 <= k < s.len() ==> (#[trigger] s[k])@ == pose_at(instrs, table, move_speed, rotate_speed, k),
        timeline_wf(s),
        s[s.len() - 1].time > 0,
    ensures
        ({
            let k = first_after(s, 0);
            let p = between(s[k - 1]@, s[k]@, 0);
            &&& 0 < k < s.len()
            &&& p.time == 0 && p.x == 0 && p.y == 0 && p.rot == 0
            &&& s[1].time > 0 ==> p == initial_pose()
        }),
{
    assert(s[0]@ == pose_at(instrs, table, move_speed, rotate_speed, 0));
    lemma_exact_at_keyframe(s, 0);
    if s[1].time > 0 {
        lemma_first_after_sorted(s, 0, 0);
        let k = first_after(s, 0);
        assert((s[1]@.x - s[0]@.x) * 0 / (s[1]@.time - s[0]@.time) == 0);
    }
}

} // verus!

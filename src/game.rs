use vstd::prelude::*;
use crate::compile::{all_fit, compile, pose_at, DEGREES};
use crate::interpolate::timeline_wf;
use crate::script::{line_spec, lines, parse_script, Instruction, ScriptError};
use crate::state::{TurtleState, Vec2};

verus! {

/// The configuration of a run and its compiled timeline.
pub struct GameState {
    /// Ticks between two spawns.
    pub spawn_interval: u64,
    /// Distance units per second.
    pub move_speed: u64,
    /// Degrees per second.
    pub rotate_speed: u64,
    /// The compiled timeline.
    pub turtles: Vec<TurtleState>,
    pub running: bool,
}

/// Every line of the script holds an instruction.
pub open spec fn script_ok(t: Seq<u8>) -> bool {
    forall|k: int| 0 <= k < lines(t).len() ==> (#[trigger] line_spec(lines(t)[k], k as usize)) is Ok
}

/// The instructions of a script whose lines all parse.
pub open spec fn script_instrs(t: Seq<u8>) -> Seq<Instruction> {
    Seq::new(
        lines(t).len(),
        |k: int|
            match line_spec(lines(t)[k], k as usize) {
                Ok(i) => i,
                Err(_) => Instruction::PenUp,
            },
    )
}

/// `e` is the error of the first line of the script that does not parse.
pub open spec fn first_line_error(t: Seq<u8>, e: ScriptError) -> bool {
    let ls = lines(t);
    exists|k: int| 0 <= k < ls.len()
        && (#[trigger] line_spec(ls[k], k as usize)) == Err::<Instruction, ScriptError>(e)
        && forall|j: int| 0 <= j < k ==> (#[trigger] line_spec(ls[j], j as usize)) is Ok
}

impl GameState {
    pub open spec fn config_ok(&self) -> bool {
        self.move_speed > 0 && self.rotate_speed > 0 && self.spawn_interval > 0
    }
}

/// Checks the configuration, parses the script and compiles it into
/// `game_state.turtles`. `table[h]` is the direction of a move at heading `h`
/// degrees. Blank lines at the end of the script are ignored. On an error
/// nothing is changed.
pub fn load_states(text: &Vec<u8>, table: &Vec<Vec2>, game_state: &mut GameState) -> (r: Result<(), ScriptError>)
    requires
        table.len() == DEGREES,
    ensures
        final(game_state).spawn_interval == old(game_state).spawn_interval,
        final(game_state).move_speed == old(game_state).move_speed,
        final(game_state).rotate_speed == old(game_state).rotate_speed,
        final(game_state).running == old(game_state).running,
        !old(game_state).config_ok() ==> r == Err::<(), ScriptError>(ScriptError::InvalidConfiguration),
        old(game_state).config_ok() && !script_ok(text@) ==> (r matches Err(e) && first_line_error(text@, e)),
        old(game_state).config_ok() && script_ok(text@) ==> {
            ||| r is Ok && all_fit(script_instrs(text@), table@, old(game_state).move_speed as int, old(game_state).rotate_speed as int)
            ||| r == Err::<(), ScriptError>(ScriptError::OutOfRange)
                && !all_fit(script_instrs(text@), table@, old(game_state).move_speed as int, old(game_state).rotate_speed as int)
        },
        r is Err ==> final(game_state).turtles@ == old(game_state).turtles@,
        r is Ok ==> {
            &&& timeline_wf(final(game_state).turtles@)
            &&& final(game_state).turtles.len() == script_instrs(text@).len() + 1
            &&& forall|k: int| 0 <= k < final(game_state).turtles.len() ==> (#[trigger] final(game_state).turtles@[k])@
                == pose_at(script_instrs(text@), table@, old(game_state).move_speed as int, old(game_state).rotate_speed as int, k)
        },
{
    if game_state.move_speed == 0 || game_state.rotate_speed == 0 || game_state.spawn_interval == 0 {
        return Err(ScriptError::InvalidConfiguration);
    }
    let instrs = match parse_script(text) {
        Ok(v) => v,
        Err(e) => {
            return Err(e);
        },
    };
    assert(instrs@ =~= script_instrs(text@)) by {
        assert forall|k: int| 0 <= k < instrs.len() implies instrs@[k] == script_instrs(text@)[k] by {
            assert(Ok::<Instruction, ScriptError>(instrs@[k]) == line_spec(lines(text@)[k], k as usize));
        }
    }
    match compile(&instrs, table, game_state.move_speed, game_state.rotate_speed) {
        Ok(v) => {
            game_state.turtles = v;
            Ok(())
        },
        Err(e) => Err(e),
    }
}

} // verus!

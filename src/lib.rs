//! Motion timelines for turtle-graphics scripts: a script is compiled into
//! time-stamped keyframes, poses are interpolated between them, and a
//! scheduler plays staggered copies of the timeline.
//!
//! Everything is exact integer arithmetic. Time is counted in ticks, where one
//! second is `move_speed * rotate_speed` ticks, so that every duration a script
//! produces is a whole number of ticks. Headings are whole degrees, and
//! positions are fixed-point values in whatever scale the caller gives the
//! heading directions in.

pub mod compile;
pub mod game;
pub mod interpolate;
pub mod lerp;
pub mod scheduler;
pub mod script;
pub mod state;

pub use compile::{compile, DEGREES};
pub use game::{load_states, GameState};
pub use interpolate::{interpolate_state, Sample};
pub use lerp::interp;
pub use scheduler::Scheduler;
pub use script::{parse_line, parse_script, Instruction, ScriptError};
pub use state::{TurtleState, Vec2};

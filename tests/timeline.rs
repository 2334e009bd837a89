use turtle_timeline::{
    compile, interp, interpolate_state, load_states, parse_line, parse_script, GameState, Instruction, Sample,
    ScriptError, TurtleState, Vec2, DEGREES,
};

const SCALE: f64 = 65536.0;

fn table() -> Vec<Vec2> {
    (0..DEGREES)
        .map(|h| {
            let a = (h as f64).to_radians();
            Vec2::new((a.cos() * SCALE).round() as i64, (a.sin() * SCALE).round() as i64)
        })
        .collect()
}

fn timeline(script: &str, move_speed: u64, rotate_speed: u64) -> Vec<TurtleState> {
    let instrs = parse_script(&script.as_bytes().to_vec()).unwrap();
    compile(&instrs, &table(), move_speed, rotate_speed).unwrap()
}

fn state(time: u64, x: i64, y: i64, rot: i64, is_drawing: bool) -> TurtleState {
    TurtleState { time, pos: Vec2::new(x, y), rot, is_drawing }
}

fn pose(s: Sample) -> TurtleState {
    match s {
        Sample::At(p) => p,
        other => panic!("expected a pose, got {:?}", other),
    }
}

#[test]
fn forward_script_has_two_keyframes() {
    let s = timeline("fd 80", 80, 10000);
    let second = 80 * 10000;
    assert_eq!(s, vec![state(0, 0, 0, 0, true), state(second, 80 * 65536, 0, 0, true)]);
    let half = pose(interpolate_state(&s, second / 2));
    assert_eq!(half.pos, Vec2::new(40 * 65536, 0));
    assert_eq!(half.rot, 0);
}

#[test]
fn turn_then_forward_keyframes() {
    let s = timeline("rt 90\nfd 10", 80, 10000);
    let ticks_per_second = 80.0 * 10000.0;
    assert_eq!(s.len(), 3);
    assert_eq!(s[1], state(7200, 0, 0, 90, true));
    assert!(((s[1].time as f64) / ticks_per_second - 0.009).abs() < 1e-9);
    assert_eq!(s[2], state(107200, 0, 10 * 65536, 90, true));
    assert!(((s[2].time as f64) / ticks_per_second - 0.134).abs() < 1e-9);
}

#[test]
fn exact_at_every_keyframe_but_the_last() {
    let s = timeline("fd 10\npu\nrt 45\nfd -7\npd\nrt -30\nfd 3", 80, 10000);
    let last = s[s.len() - 1].time;
    for k in &s {
        if k.time < last {
            let p = pose(interpolate_state(&s, k.time));
            assert_eq!(p.pos, k.pos);
            assert_eq!(p.rot, k.rot);
            assert_eq!(p.time, k.time);
        }
    }
}

#[test]
fn between_keyframes_lies_on_segment() {
    let s = timeline("rt 45\nfd 100", 10, 10);
    let (t0, t1) = (s[1].time, s[2].time);
    let t = t0 + (t1 - t0) / 4;
    let p = pose(interpolate_state(&s, t));
    let expect = |a: i64, b: i64| a + (((b - a) as i128 * (t - t0) as i128).div_euclid((t1 - t0) as i128)) as i64;
    assert_eq!(p.pos.x, expect(s[1].pos.x, s[2].pos.x));
    assert_eq!(p.pos.y, expect(s[1].pos.y, s[2].pos.y));
    assert_eq!(p.pos.x, s[2].pos.x / 4);
}

#[test]
fn pen_comes_from_preceding_keyframe() {
    let s = timeline("fd 10\npu\nfd 10\npd\nfd 10", 1, 1);
    // keyframes: 0 down, 10 down, 10 up, 20 up, 20 down, 30 down
    assert!(pose(interpolate_state(&s, 5)).is_drawing);
    assert!(!pose(interpolate_state(&s, 10)).is_drawing);
    assert!(!pose(interpolate_state(&s, 19)).is_drawing);
    assert!(pose(interpolate_state(&s, 20)).is_drawing);
    assert!(pose(interpolate_state(&s, 29)).is_drawing);
}

#[test]
fn start_pose_at_time_zero() {
    let s = timeline("fd 10", 80, 10000);
    assert_eq!(interpolate_state(&s, 0), Sample::At(state(0, 0, 0, 0, true)));
    let s = timeline("rt 30\nfd 5", 80, 10000);
    assert_eq!(interpolate_state(&s, 0), Sample::At(state(0, 0, 0, 0, true)));
}

#[test]
fn empty_script_is_the_initial_pose_and_finished() {
    let s = timeline("", 80, 10000);
    assert_eq!(s, vec![state(0, 0, 0, 0, true)]);
    assert_eq!(interpolate_state(&s, 0), Sample::Finished);
}

#[test]
fn finished_at_and_past_the_end() {
    let s = timeline("fd 10\nrt 90", 2, 3);
    let last = s[s.len() - 1].time;
    assert_eq!(interpolate_state(&s, last), Sample::Finished);
    assert_eq!(interpolate_state(&s, last + 1), Sample::Finished);
    assert_eq!(interpolate_state(&s, u64::MAX), Sample::Finished);
    assert!(matches!(interpolate_state(&s, last - 1), Sample::At(_)));
}

#[test]
fn not_started_before_first_keyframe() {
    let s = vec![state(5, 0, 0, 0, true), state(9, 1, 1, 0, true)];
    assert_eq!(interpolate_state(&s, 4), Sample::NotStarted);
    assert_eq!(interpolate_state(&Vec::new(), 4), Sample::Finished);
}

#[test]
fn heading_accumulates_without_wrapping() {
    let s = timeline("rt 300\nrt 300\nrt -1000", 1, 1);
    assert_eq!(s[2].rot, 600);
    assert_eq!(s[3].rot, -400);
    let s = timeline("rt 450\nfd 2", 1, 1);
    assert_eq!(s[2].pos, Vec2::new(0, 2 * 65536));
}

#[test]
fn interp_rounds_down() {
    assert_eq!(interp(0, 10, 1, 3), 3);
    assert_eq!(interp(10, 0, 1, 3), 6);
    assert_eq!(interp(-5, 5, 1, 2), 0);
    assert_eq!(interp(7, 100, 0, 9), 7);
    assert_eq!(interp(7, 100, 9, 9), 100);
    assert_eq!(interp(i64::MIN, i64::MAX, 1, 2), -1);
    assert_eq!(interp(i64::MAX, i64::MIN, u64::MAX, u64::MAX), i64::MIN);
}

#[test]
fn parse_lines() {
    let l = |s: &str| parse_line(&s.as_bytes().to_vec(), 4);
    assert_eq!(l("pu"), Ok(Instruction::PenUp));
    assert_eq!(l("pd"), Ok(Instruction::PenDown));
    assert_eq!(l("fd 80"), Ok(Instruction::Forward(80)));
    assert_eq!(l("fd -12 extra"), Ok(Instruction::Forward(-12)));
    assert_eq!(l("rt +90"), Ok(Instruction::Turn(90)));
    assert_eq!(l("rt 9223372036854775807"), Ok(Instruction::Turn(i64::MAX)));
    assert_eq!(l("xy 3"), Err(ScriptError::InvalidInstruction { line: 4 }));
    assert_eq!(l(""), Err(ScriptError::InvalidInstruction { line: 4 }));
    assert_eq!(l("pux"), Err(ScriptError::InvalidInstruction { line: 4 }));
    assert_eq!(l("fd"), Err(ScriptError::MalformedArgument { line: 4 }));
    assert_eq!(l("fd "), Err(ScriptError::MalformedArgument { line: 4 }));
    assert_eq!(l("fd abc"), Err(ScriptError::MalformedArgument { line: 4 }));
    assert_eq!(l("fd 1.5"), Err(ScriptError::MalformedArgument { line: 4 }));
    assert_eq!(l("rt -"), Err(ScriptError::MalformedArgument { line: 4 }));
    assert_eq!(l("rt 9223372036854775808"), Err(ScriptError::MalformedArgument { line: 4 }));
}

#[test]
fn parse_scripts() {
    let p = |s: &str| parse_script(&s.as_bytes().to_vec());
    assert_eq!(p(""), Ok(vec![]));
    assert_eq!(p("pu\n"), Ok(vec![Instruction::PenUp]));
    assert_eq!(p("pu\nfd 3\n"), Ok(vec![Instruction::PenUp, Instruction::Forward(3)]));
    assert_eq!(p("pu\n\npd"), Err(ScriptError::InvalidInstruction { line: 1 }));
    assert_eq!(p("pu\n  \npd"), Err(ScriptError::InvalidInstruction { line: 1 }));
    assert_eq!(p("pu\n\n"), Ok(vec![Instruction::PenUp]));
    assert_eq!(p("pu\n \n  \n\n"), Ok(vec![Instruction::PenUp]));
    assert_eq!(p("fd 3  \n"), Ok(vec![Instruction::Forward(3)]));
    assert_eq!(p("\n"), Ok(vec![]));
    assert_eq!(p("  "), Ok(vec![]));
    assert_eq!(p("pu\nfd x\nzz"), Err(ScriptError::MalformedArgument { line: 1 }));
    assert_eq!(p("pu\npd\nzz"), Err(ScriptError::InvalidInstruction { line: 2 }));
}

#[test]
fn compile_refuses_bad_configuration_and_overflow() {
    let t = table();
    assert_eq!(compile(&vec![], &t, 0, 1), Err(ScriptError::InvalidConfiguration));
    assert_eq!(compile(&vec![], &t, 1, 0), Err(ScriptError::InvalidConfiguration));
    assert_eq!(compile(&vec![Instruction::Forward(i64::MAX)], &t, 1, 1), Err(ScriptError::OutOfRange));
    assert_eq!(compile(&vec![Instruction::Turn(i64::MAX), Instruction::Turn(1)], &t, 1, 1), Err(ScriptError::OutOfRange));
    assert_eq!(compile(&vec![Instruction::Turn(-1)], &t, u64::MAX, 2), Ok(vec![state(0, 0, 0, 0, true), state(u64::MAX, 0, 0, -1, true)]));
}

fn game(move_speed: u64, rotate_speed: u64, spawn_interval: u64) -> GameState {
    GameState { spawn_interval, move_speed, rotate_speed, turtles: Vec::new(), running: true }
}

#[test]
fn load_states_compiles_the_script() {
    let mut g = game(80, 10000, 3);
    assert_eq!(load_states(&b"fd 80\npu\n".to_vec(), &table(), &mut g), Ok(()));
    assert_eq!(g.turtles, vec![state(0, 0, 0, 0, true), state(800000, 80 * 65536, 0, 0, true), state(800000, 80 * 65536, 0, 0, false)]);
}

#[test]
fn load_states_ignores_trailing_blank_lines() {
    let mut g = game(80, 10000, 3);
    assert_eq!(load_states(&b"pu\n\n".to_vec(), &table(), &mut g), Ok(()));
    assert_eq!(g.turtles, vec![state(0, 0, 0, 0, true), state(0, 0, 0, 0, false)]);
    let mut g = game(80, 10000, 3);
    assert_eq!(load_states(&b"\n".to_vec(), &table(), &mut g), Ok(()));
    assert_eq!(g.turtles, vec![state(0, 0, 0, 0, true)]);
}

#[test]
fn load_states_errors_leave_state_alone() {
    let mut g = game(80, 10000, 0);
    assert_eq!(load_states(&b"fd 80".to_vec(), &table(), &mut g), Err(ScriptError::InvalidConfiguration));
    assert!(g.turtles.is_empty());
    let mut g = game(80, 10000, 3);
    assert_eq!(load_states(&b"fd 80\nbk 3".to_vec(), &table(), &mut g), Err(ScriptError::InvalidInstruction { line: 1 }));
    assert!(g.turtles.is_empty());
    assert_eq!(load_states(&b"fd 9223372036854775807".to_vec(), &table(), &mut g), Err(ScriptError::OutOfRange));
    assert!(g.turtles.is_empty());
}

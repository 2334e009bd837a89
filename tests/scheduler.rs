use turtle_timeline::{compile, Instruction, Scheduler, ScriptError, TurtleState, Vec2, DEGREES};

fn table() -> Vec<Vec2> {
    vec![Vec2::new(1, 0); DEGREES]
}

/// A timeline of `seconds` seconds at one tick per millisecond.
fn timeline(seconds: i64) -> Vec<TurtleState> {
    compile(&vec![Instruction::Forward(seconds * 1000)], &table(), 1, 1).unwrap()
}

#[test]
fn new_refuses_bad_interval() {
    let s = timeline(5);
    assert!(matches!(Scheduler::new(&s, 0), Err(ScriptError::InvalidConfiguration)));
    assert!(matches!(Scheduler::new(&s, u64::MAX), Err(ScriptError::OutOfRange)));
}

#[test]
fn new_primes_running_playbacks() {
    let s = timeline(5);
    let sch = Scheduler::new(&s, 3000).ok().unwrap();
    assert_eq!(sch.time_offsets, vec![3000]);
    assert_eq!(sch.time_until_next_spawn, 0);
    let sch = Scheduler::new(&s, 1000).ok().unwrap();
    assert_eq!(sch.time_offsets, vec![1000, 2000, 3000, 4000]);
    let sch = Scheduler::new(&timeline(0), 1000).ok().unwrap();
    assert!(sch.time_offsets.is_empty());
}

#[test]
fn spawns_every_interval_and_retires_at_the_end() {
    let s = timeline(5);
    let mut sch = Scheduler::new(&s, 3000).ok().unwrap();
    sch.time_offsets.clear();
    let dt = 10;
    let mut spawns = 0;
    let mut spawn_times = vec![];
    let mut now = 0;
    while now < 9000 {
        let due = sch.time_until_next_spawn <= 0;
        let before = sch.time_offsets.len();
        let drawn = sch.tick(&s, dt);
        if due {
            spawns += 1;
            spawn_times.push(now);
        }
        // each kept playback was drawn once and is still inside the timeline
        assert_eq!(drawn.len(), sch.time_offsets.len());
        assert!(drawn.len() <= before + 1);
        for e in &sch.time_offsets {
            assert!(*e - dt < 5000);
        }
        now += dt;
    }
    assert!(spawns >= 3);
    assert_eq!(&spawn_times[..3], &[0, 3000, 6000]);
    // the playbacks spawned at 0 and 3000 have passed the end; the one
    // spawned at 6000 remains
    assert_eq!(sch.time_offsets, vec![3000]);
}

#[test]
fn tick_draws_then_advances() {
    let s = timeline(5);
    let mut sch = Scheduler { spawn_interval: 3000, time_until_next_spawn: 10, time_offsets: vec![4990, 5000, 20] };
    let drawn = sch.tick(&s, 10);
    assert_eq!(drawn.iter().map(|p| p.time).collect::<Vec<_>>(), vec![4990, 20]);
    assert_eq!(drawn[0].pos, Vec2::new(4990, 0));
    assert_eq!(sch.time_offsets, vec![5000, 30]);
    assert_eq!(sch.time_until_next_spawn, 0);
    let drawn = sch.tick(&s, 10);
    assert_eq!(drawn.len(), 2);
    assert_eq!(drawn[1].time, 0);
    assert_eq!(sch.time_offsets, vec![40, 10]);
    assert_eq!(sch.time_until_next_spawn, 2990);
}

#[test]
fn countdown_and_elapsed_saturate() {
    let s = vec![TurtleState { time: 0, pos: Vec2::zero(), rot: 0, is_drawing: true },
                 TurtleState { time: u64::MAX, pos: Vec2::zero(), rot: 0, is_drawing: true }];
    let mut sch = Scheduler { spawn_interval: 1, time_until_next_spawn: 5, time_offsets: vec![7] };
    let drawn = sch.tick(&s, u64::MAX);
    assert_eq!(drawn.len(), 1);
    assert_eq!(sch.time_offsets, vec![u64::MAX]);
    assert_eq!(sch.time_until_next_spawn, i64::MIN);
}

#[test]
fn spawn_m_at_first_frame_past_m_intervals() {
    let s = timeline(50);
    let mut sch = Scheduler { spawn_interval: 300, time_until_next_spawn: 0, time_offsets: vec![] };
    let dts = [70u64, 300, 1, 229, 0, 300, 150, 150, 299, 2];
    let mut tau = 0;
    let mut spawned = 0;
    for dt in dts {
        let due = sch.time_until_next_spawn <= 0;
        let first_past = tau >= spawned * 300;
        assert_eq!(due, first_past);
        sch.tick(&s, dt);
        if due {
            spawned += 1;
        }
        tau += dt;
        assert!(tau < (spawned + 1) * 300);
    }
    assert_eq!(tau, 1501);
    assert_eq!(spawned, 5);
}

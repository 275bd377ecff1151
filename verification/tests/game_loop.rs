use std::collections::HashSet;
use untitled_th::game_loop::{loop_once, take_tick, Cycle, CycleError, StateData, TimeSource};
use untitled_th::input::BakedInputs;
use untitled_th::keys;
use untitled_th::loop_state::{ControlFlow, LoopState};
use untitled_th::shell::TickClock;
use untitled_th::states::{GameState, StateEvent, StateStack, Trans};

type Data = StateData<Vec<String>>;

/// A state that writes into the data which hooks it got, and what the
/// input was.
struct Recorder {
    name: &'static str,
    vote: LoopState,
    shadow_vote: LoopState,
    on_update: Vec<Trans<Recorder>>,
    on_tick: Vec<Trans<Recorder>>,
}

impl Recorder {
    fn named(name: &'static str) -> Recorder {
        Recorder {
            name,
            vote: LoopState::wait_all(),
            shadow_vote: LoopState::wait_all(),
            on_update: Vec::new(),
            on_tick: Vec::new(),
        }
    }
}

fn next(list: &mut Vec<Trans<Recorder>>) -> Trans<Recorder> {
    if list.is_empty() {
        Trans::Nothing
    } else {
        list.remove(0)
    }
}

impl GameState<Data> for Recorder {
    fn start(&mut self, data: &mut Data) {
        data.extra.push(format!("start {}", self.name));
    }

    fn stop(&mut self, data: &mut Data) {
        data.extra.push(format!("stop {}", self.name));
    }

    fn update(&mut self, data: &mut Data) -> (Trans<Recorder>, LoopState) {
        data.extra.push(format!(
            "update {} frame-shoot {} tick-shoot {}",
            self.name, data.inputs.cur_frame_game_input.shoot, data.inputs.cur_game_input.shoot
        ));
        (next(&mut self.on_update), self.vote)
    }

    fn game_tick(&mut self, data: &mut Data) -> Trans<Recorder> {
        data.extra.push(format!("tick {} tick-shoot {}", self.name, data.inputs.cur_game_input.shoot));
        next(&mut self.on_tick)
    }

    fn render(&mut self, _data: &mut Data) -> Trans<Recorder> {
        Trans::Nothing
    }

    fn shadow_tick(&mut self, _data: &Data) {}

    fn shadow_update(&mut self) -> LoopState {
        self.shadow_vote
    }

    fn shadow_render(&mut self, _data: &Data) {}

    fn on_event(&mut self, _event: &StateEvent) {}
}

/// A clock that gives the times it was told, one after the other, and then
/// the last one again and again.
struct Times(Vec<u64>);

impl TimeSource for Times {
    fn now(&mut self) -> u64 {
        if self.0.len() > 1 {
            self.0.remove(0)
        } else {
            self.0[0]
        }
    }
}

fn keys_down(keys: &[u32]) -> HashSet<u32> {
    keys.iter().copied().collect()
}

fn fresh_data() -> Data {
    StateData { inputs: BakedInputs::default(), extra: Vec::new() }
}

#[test]
fn a_cycle_without_a_tick() {
    let mut top = Recorder::named("a");
    top.vote = LoopState::wait();
    let mut stack = StateStack::new(top);
    let mut clock = TickClock::new(1_000, 100);
    let mut data = fresh_data();
    data.inputs.process(&keys_down(&[keys::Z]), &keys_down(&[]));
    let r = loop_once(&mut stack, &mut clock, &mut data, &mut Times(vec![1_100]));
    assert!(matches!(r, Ok(Cycle { vote, screenshot: false, dump: false }) if vote == LoopState::wait()));
    assert_eq!(data.extra, vec!["update a frame-shoot 1 tick-shoot 0".to_string()]);
    assert_eq!(clock.last_tick_time, 1_000);
    assert_eq!(data.inputs.cur_frame_game_input.shoot, 1);
}

#[test]
fn a_cycle_with_a_tick_samples_the_input_and_ticks_the_top_state() {
    let mut stack = StateStack::new(Recorder::named("a"));
    let mut clock = TickClock::new(1_000, 100);
    let mut data = fresh_data();
    data.inputs.process(&keys_down(&[keys::Z]), &keys_down(&[]));
    let r = loop_once(&mut stack, &mut clock, &mut data, &mut Times(vec![1_150, 1_160]));
    assert!(r.is_ok());
    assert_eq!(
        data.extra,
        vec!["update a frame-shoot 1 tick-shoot 0".to_string(), "tick a tick-shoot 1".to_string()]
    );
    assert_eq!(clock.last_tick_time, 1_150);
    let r = loop_once(&mut stack, &mut clock, &mut data, &mut Times(vec![1_500, 1_530]));
    assert!(r.is_ok());
    assert_eq!(clock.last_tick_time, 1_530);
    assert_eq!(data.inputs.cur_frame_game_input.shoot, 2);
    assert_eq!(data.inputs.cur_game_input.shoot, 2);
}

#[test]
fn the_votes_of_all_states_are_combined() {
    let mut bottom = Recorder::named("a");
    bottom.shadow_vote = LoopState { control_flow: ControlFlow::WaitUntil(70), render: false };
    let mut top = Recorder::named("b");
    top.shadow_vote = LoopState { control_flow: ControlFlow::WaitUntil(50), render: false };
    top.vote = LoopState::wait();
    let mut stack = StateStack::new(bottom);
    let mut data = fresh_data();
    stack.process_tran(Trans::Push(top), &mut data);
    data.extra.clear();
    let mut clock = TickClock::new(0, 100);
    let r = loop_once(&mut stack, &mut clock, &mut data, &mut Times(vec![10]));
    match r {
        Ok(cycle) => {
            assert_eq!(cycle.vote, LoopState { control_flow: ControlFlow::WaitUntil(50), render: true })
        }
        Err(_) => panic!("the cycle broke off"),
    }
    assert_eq!(data.extra, vec!["update b frame-shoot 0 tick-shoot 0".to_string()]);
}

#[test]
fn a_transition_is_carried_out_before_the_next_hook() {
    let mut top = Recorder::named("a");
    top.on_update = vec![Trans::Push(Recorder::named("b"))];
    let mut stack = StateStack::new(top);
    let mut clock = TickClock::new(0, 100);
    let mut data = fresh_data();
    let r = loop_once(&mut stack, &mut clock, &mut data, &mut Times(vec![500]));
    assert!(r.is_ok());
    assert_eq!(
        data.extra,
        vec![
            "update a frame-shoot 0 tick-shoot 0".to_string(),
            "start b".to_string(),
            "tick b tick-shoot 0".to_string()
        ]
    );
    assert_eq!(stack.len(), 2);
}

#[test]
fn a_transition_that_the_stack_cannot_take_breaks_the_cycle_off() {
    let mut top = Recorder::named("a");
    top.on_update = vec![Trans::Vec(vec![Trans::Pop, Trans::Pop])];
    let mut stack = StateStack::new(top);
    let mut clock = TickClock::new(0, 100);
    let mut data = fresh_data();
    let r = loop_once(&mut stack, &mut clock, &mut data, &mut Times(vec![500]));
    assert!(matches!(r, Err(CycleError::Refused(Trans::Vec(_)))));
    assert_eq!(stack.len(), 1);
    assert_eq!(clock.last_tick_time, 0);

    let mut top = Recorder::named("a");
    top.on_tick = vec![Trans::Vec(vec![Trans::Exit, Trans::Pop])];
    let mut stack = StateStack::new(top);
    let r = loop_once(&mut stack, &mut clock, &mut data, &mut Times(vec![500]));
    assert!(matches!(r, Err(CycleError::Refused(_))));
    assert_eq!(clock.last_tick_time, 0);
}

#[test]
fn a_counter_at_its_limit_breaks_the_cycle_off() {
    let mut stack = StateStack::new(Recorder::named("a"));
    let mut clock = TickClock::new(0, 100);
    let mut data = fresh_data();
    data.inputs.process(&keys_down(&[keys::Z]), &keys_down(&[]));
    data.inputs.cur_frame_game_input.shoot = u32::MAX;
    let r = loop_once(&mut stack, &mut clock, &mut data, &mut Times(vec![500]));
    assert!(matches!(r, Err(CycleError::HeldTooLong)));
    assert!(data.extra.is_empty());
    assert!(data.inputs.cur_frame_input.pressing.is_empty());

    data.inputs.cur_frame_game_input.shoot = 5;
    data.inputs.cur_game_input.shoot = u32::MAX;
    let r = loop_once(&mut stack, &mut clock, &mut data, &mut Times(vec![50]));
    assert!(r.is_ok());
    let r = loop_once(&mut stack, &mut clock, &mut data, &mut Times(vec![500]));
    assert!(matches!(r, Err(CycleError::HeldTooLong)));
    assert_eq!(data.inputs.cur_game_input.shoot, u32::MAX);
    data.inputs.cur_game_input.shoot = u32::MAX;
    data.inputs.process(&keys_down(&[]), &keys_down(&[keys::Z]));
    data.inputs.cur_temp_game_input.pressing.clear();
    let r = loop_once(&mut stack, &mut clock, &mut data, &mut Times(vec![500]));
    assert!(r.is_ok());
    assert_eq!(data.inputs.cur_game_input.shoot, 0);
}

#[test]
fn a_fresh_f11_asks_for_a_screenshot_unless_a_frame_is_due() {
    let mut stack = StateStack::new(Recorder::named("a"));
    let mut clock = TickClock::new(0, 100);
    let mut data = fresh_data();
    data.inputs.process(&keys_down(&[keys::F11, keys::F3]), &keys_down(&[]));
    let r = loop_once(&mut stack, &mut clock, &mut data, &mut Times(vec![10]));
    assert!(matches!(r, Ok(Cycle { screenshot: true, dump: true, .. })));
    let r = loop_once(&mut stack, &mut clock, &mut data, &mut Times(vec![20]));
    assert!(matches!(r, Ok(Cycle { screenshot: false, dump: false, .. })));

    let mut top = Recorder::named("b");
    top.vote = LoopState::poll();
    let mut stack = StateStack::new(top);
    let mut data = fresh_data();
    data.inputs.process(&keys_down(&[keys::F11]), &keys_down(&[]));
    let r = loop_once(&mut stack, &mut clock, &mut data, &mut Times(vec![30]));
    assert!(matches!(r, Ok(Cycle { screenshot: false, dump: false, .. })));
}

#[test]
fn the_input_can_be_asked_whether_it_can_count() {
    let mut inputs = BakedInputs::default();
    assert!(inputs.can_swap_frame() && inputs.can_tick());
    inputs.cur_frame_game_input.up = u32::MAX;
    inputs.cur_game_input.esc = u32::MAX;
    assert!(inputs.can_swap_frame() && inputs.can_tick());
    inputs.process(&keys_down(&[keys::UP]), &keys_down(&[]));
    assert!(!inputs.can_swap_frame());
    assert!(inputs.can_tick());
    inputs.process(&keys_down(&[keys::ESCAPE]), &keys_down(&[]));
    assert!(!inputs.can_tick());
}

/// A clock that gives the times it was told, ever the last one again, and
/// counts how often it was asked.
struct Asked {
    times: Vec<u64>,
    reads: usize,
}

impl TimeSource for Asked {
    fn now(&mut self) -> u64 {
        let at = self.reads.min(self.times.len() - 1);
        self.reads += 1;
        self.times[at]
    }
}

#[test]
fn the_time_is_read_again_only_after_a_late_tick() {
    let mut stack = StateStack::new(Recorder::named("a"));
    let mut clock = TickClock::new(1_000, 100);
    let mut data = fresh_data();

    let mut time = Asked { times: vec![1_050, 7], reads: 0 };
    assert!(loop_once(&mut stack, &mut clock, &mut data, &mut time).is_ok());
    assert_eq!(time.reads, 1);
    assert_eq!(clock.last_tick_time, 1_000);

    let mut time = Asked { times: vec![1_101, 7], reads: 0 };
    assert!(loop_once(&mut stack, &mut clock, &mut data, &mut time).is_ok());
    assert_eq!(time.reads, 1);
    assert_eq!(clock.last_tick_time, 1_101);

    let mut time = Asked { times: vec![1_301, 7], reads: 0 };
    assert!(loop_once(&mut stack, &mut clock, &mut data, &mut time).is_ok());
    assert_eq!(time.reads, 1);
    assert_eq!(clock.last_tick_time, 1_301);

    let mut time = Asked { times: vec![1_502, 1_540, 7], reads: 0 };
    assert!(loop_once(&mut stack, &mut clock, &mut data, &mut time).is_ok());
    assert_eq!(time.reads, 2);
    assert_eq!(clock.last_tick_time, 1_540);
    assert_eq!(data.extra.iter().filter(|line| line.starts_with("tick")).count(), 3);
}

#[test]
fn a_tick_is_taken_at_the_time_that_is_given() {
    let mut stack = StateStack::new(Recorder::named("a"));
    let mut clock = TickClock::new(1_000, 100);
    let mut data = fresh_data();
    data.inputs.process(&keys_down(&[keys::X]), &keys_down(&[]));
    let mut time = Asked { times: vec![5_000], reads: 0 };

    assert!(take_tick(&mut stack, &mut clock, &mut data, 1_100, &mut time).is_ok());
    assert!(data.extra.is_empty());
    assert_eq!(clock.last_tick_time, 1_000);
    assert_eq!(data.inputs.cur_game_input.bomb, 0);

    assert!(take_tick(&mut stack, &mut clock, &mut data, 1_101, &mut time).is_ok());
    assert_eq!(data.extra, vec!["tick a tick-shoot 0".to_string()]);
    assert_eq!(clock.last_tick_time, 1_101);
    assert_eq!(data.inputs.cur_game_input.bomb, 1);
    assert_eq!(time.reads, 0);

    assert!(take_tick(&mut stack, &mut clock, &mut data, 1_302, &mut time).is_ok());
    assert_eq!(clock.last_tick_time, 5_000);
    assert_eq!(data.inputs.cur_game_input.bomb, 2);
    assert_eq!(time.reads, 1);

    data.inputs.cur_game_input.bomb = u32::MAX;
    let r = take_tick(&mut stack, &mut clock, &mut data, 9_000, &mut time);
    assert!(matches!(r, Err(CycleError::HeldTooLong)));
    assert_eq!(clock.last_tick_time, 5_000);
    assert_eq!(time.reads, 1);
}

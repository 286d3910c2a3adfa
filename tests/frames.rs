use fyrebird::components::{Collider, CollisionSystem, Physics2DSystem, RigidBody2D};
use fyrebird::game::GameEngine;
use fyrebird::scheduler::{FrameScheduler, StageAction, StageContext, StageOutcome};
use fyrebird::stage::{Rate, StageGraph};
use fyrebird::time::Time;
use fyrebird::vulkan::{BootstrapPhase, Platform};

struct Recorder {
    id: usize,
    outcome: StageOutcome,
}

impl StageAction<Vec<(usize, Rate)>> for Recorder {
    fn run(&mut self, world: &mut Vec<(usize, Rate)>, ctx: &StageContext) -> StageOutcome {
        world.push((self.id, ctx.phase));
        self.outcome
    }
}

fn scheduler(outcomes: [StageOutcome; 3]) -> FrameScheduler<Recorder> {
    let mut g = StageGraph::new();
    g.add_stage("physics".to_string(), vec!["input".to_string()], Rate::Fixed, Recorder { id: 0, outcome: outcomes[0] }).unwrap();
    g.add_stage("input".to_string(), vec![], Rate::Variable, Recorder { id: 1, outcome: outcomes[1] }).unwrap();
    g.add_stage("render".to_string(), vec!["physics".to_string()], Rate::Variable, Recorder { id: 2, outcome: outcomes[2] }).unwrap();
    FrameScheduler::new(g, Time::with_step(10, 100)).ok().unwrap()
}

#[test]
fn fixed_passes_then_variable_pass() {
    let mut s = scheduler([StageOutcome::Done; 3]);
    assert_eq!(s.order(), &vec![1, 0, 2]);
    let mut world = Vec::new();
    let r = s.tick_at(&mut world, 25);
    assert_eq!(r.fixed_steps, 2);
    assert!(!r.aborted);
    assert_eq!(world, vec![(0, Rate::Fixed), (0, Rate::Fixed), (1, Rate::Variable), (2, Rate::Variable)]);
    assert_eq!(r.fixed_runs.len(), 2);
    assert_eq!(r.variable_runs[1].name, "render");
    assert_eq!(s.time().accumulator_nanos(), 5);
}

#[test]
fn frame_without_full_step_runs_variable_only() {
    let mut s = scheduler([StageOutcome::Done; 3]);
    let mut world = Vec::new();
    let r = s.tick_at(&mut world, 9);
    assert_eq!(r.fixed_steps, 0);
    assert_eq!(world, vec![(1, Rate::Variable), (2, Rate::Variable)]);
}

#[test]
fn plain_failure_does_not_stop_siblings() {
    let mut s = scheduler([StageOutcome::Done, StageOutcome::Failed, StageOutcome::Done]);
    let mut world = Vec::new();
    let r = s.tick_at(&mut world, 10);
    assert!(!r.aborted);
    assert_eq!(r.variable_runs.len(), 2);
    assert_eq!(r.variable_runs[0].outcome, StageOutcome::Failed);
    assert_eq!(r.variable_runs[0].name, "input");
}

#[test]
fn fatal_failure_aborts_the_tick() {
    let mut s = scheduler([StageOutcome::Fatal, StageOutcome::Done, StageOutcome::Done]);
    let mut world = Vec::new();
    let r = s.tick_at(&mut world, 35);
    assert!(r.aborted);
    assert_eq!(r.fixed_steps, 1);
    assert_eq!(world, vec![(0, Rate::Fixed)]);
    assert!(r.variable_runs.is_empty());
    assert_eq!(s.time().accumulator_nanos(), 25);
}

#[test]
fn cyclic_graph_never_schedules() {
    let mut g = StageGraph::new();
    g.add_stage("a".to_string(), vec!["b".to_string()], Rate::Fixed, Recorder { id: 0, outcome: StageOutcome::Done }).unwrap();
    g.add_stage("b".to_string(), vec!["a".to_string()], Rate::Fixed, Recorder { id: 1, outcome: StageOutcome::Done }).unwrap();
    assert!(FrameScheduler::new(g, Time::new()).is_err());
}

#[test]
fn sampled_tick_runs_variable_stages() {
    let mut s = scheduler([StageOutcome::Done; 3]);
    let mut world = Vec::new();
    let r = s.tick(&mut world);
    assert!(!r.aborted);
    assert_eq!(r.variable_runs.len(), 2);
}

#[derive(Default)]
struct NoWorld;

enum EngineStage {
    Behaviors,
    Collisions(CollisionSystem),
    Physics(Physics2DSystem),
}

impl StageAction<NoWorld> for EngineStage {
    fn run(&mut self, world: &mut NoWorld, ctx: &StageContext) -> StageOutcome {
        match self {
            EngineStage::Behaviors => StageOutcome::Done,
            EngineStage::Collisions(c) => c.run(world, ctx),
            EngineStage::Physics(p) => p.run(world, ctx),
        }
    }
}

#[test]
fn engine_runs_its_three_stages() {
    let _markers = (Collider, RigidBody2D);
    let mut b = GameEngine::<EngineStage, u32>::builder();
    b.window_height(600);
    b.aspect_ratio(4, 3);
    b.title("demo".to_string());
    let mut e = b
        .build::<EngineStage, u32>(
            EngineStage::Behaviors,
            EngineStage::Collisions(CollisionSystem),
            EngineStage::Physics(Physics2DSystem),
        )
        .ok()
        .unwrap();
    assert_eq!(e.window().size(), (800, 600));
    assert!(e.window().attributes().fullscreen);
    assert_eq!(e.get_time().fixed_step_nanos(), 16_666_667);
    assert_eq!(e.get_time().accumulator_nanos(), 0);
    let boot = e.resumed(7, Platform::Wayland).ok().unwrap();
    assert_eq!(boot.phase(), BootstrapPhase::Start);
    assert_eq!(boot.platform(), Platform::Wayland);
    assert_eq!(e.resumed(8, Platform::Wayland).err(), Some(8));
    assert_eq!(e.window().window(), Some(&7));
    let mut w = NoWorld;
    let r = e.update(&mut w);
    assert!(!r.aborted);
    assert_eq!(r.variable_runs[0].name, "behaviors");
    assert!(e.get_time().delta_nanos() <= e.get_time().max_delta_nanos());
}

#[test]
fn aspect_ratio_sets_width_from_height() {
    let mut b = GameEngine::<EngineStage, u32>::builder();
    b.aspect_ratio(16, 9);
    let mut e = b
        .build::<EngineStage, u32>(
            EngineStage::Behaviors,
            EngineStage::Collisions(CollisionSystem),
            EngineStage::Physics(Physics2DSystem),
        )
        .ok()
        .unwrap();
    assert_eq!(e.window().size(), (1280, 720));
    b.window_width(100);
    b.window_height(u32::MAX);
    b.aspect_ratio(2, 1);
    assert_eq!(b.window_size(), (u32::MAX, u32::MAX));
    b.window_height(90);
    b.aspect_ratio(3, 2);
    assert_eq!(b.window_size(), (135, 90));
    e.on_resize(640, 480);
    assert_eq!(e.window().size(), (640, 480));
}

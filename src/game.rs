//! The engine: configuration, the stage graph it runs, its window, and the
//! start-up of the graphics context.
use crate::scheduler::{FrameScheduler, StageAction, TickReport};
use crate::order::{first_ready, is_ready, order_after, stable_order};
use crate::stage::{index_of, GraphError, Rate, StageGraph};
use crate::time::{Time, TimeView, DEFAULT_FIXED_STEP_NANOS, DEFAULT_MAX_DELTA_NANOS};
use crate::vulkan::{ContextBootstrap, Platform};
use crate::window::{BaseWindowAttr, GameWindow};
use vstd::prelude::*;

verus! {

/// Name of the stage that runs entity behaviours once per frame.
pub const BEHAVIORS_STAGE: &'static str = "behaviors";

/// Name of the fixed-rate collision stage.
pub const COLLISIONS_STAGE: &'static str = "collisions";

/// Name of the fixed-rate physics stage.
pub const PHYSICS_STAGE: &'static str = "physics";

/// A chain of three stages orders in full.
proof fn lemma_three_in_a_row(g: Seq<Seq<int>>)
    requires
        g == seq![Seq::<int>::empty(), seq![0int], seq![1int]],
    ensures
        stable_order(g) == seq![0int, 1int, 2int],
{
    let placed0 = Seq::<int>::empty();
    assert(is_ready(g, placed0, 0));
    assert(first_ready(g, placed0, 0) == 0);
    assert(order_after(g, 1) == seq![0int]) by {
        assert(order_after(g, 0) == placed0);
    }
    let placed1 = seq![0int];
    assert(!is_ready(g, placed1, 0)) by {
        assert(placed1[0] == 0);
        assert(placed1.contains(0));
    }
    assert(is_ready(g, placed1, 1)) by {
        assert(placed1[0] == 0);
        assert(!placed1.contains(1));
    }
    assert(first_ready(g, placed1, 1) == 1);
    assert(first_ready(g, placed1, 0) == 1);
    assert(order_after(g, 2) == seq![0int, 1int]) by {
        assert(placed1.push(1) =~= seq![0int, 1int]);
    }
    let placed2 = seq![0int, 1int];
    assert(!is_ready(g, placed2, 0)) by {
        assert(placed2[0] == 0);
    }
    assert(!is_ready(g, placed2, 1)) by {
        assert(placed2[1] == 1);
    }
    assert(is_ready(g, placed2, 2)) by {
        assert(placed2[1] == 1);
        assert(!placed2.contains(2));
    }
    assert(first_ready(g, placed2, 2) == 2);
    assert(first_ready(g, placed2, 1) == 2);
    assert(first_ready(g, placed2, 0) == 2);
    assert(order_after(g, 3) == seq![0int, 1int, 2int]) by {
        assert(placed2.push(2) =~= seq![0int, 1int, 2int]);
    }
}

/// Construction-time configuration of an engine.
pub struct GameEngineBuilder {
    window_title: String,
    window_height: u32,
    window_width: u32,
    debug: bool,
}

impl GameEngineBuilder {
    pub closed spec fn spec_title(&self) -> Seq<char> {
        self.window_title@
    }

    pub closed spec fn spec_size(&self) -> (u32, u32) {
        (self.window_width, self.window_height)
    }

    pub closed spec fn spec_debug(&self) -> bool {
        self.debug
    }

    /// Defaults: a 1280 by 720 window, debug layers off.
    pub fn new() -> (r: GameEngineBuilder)
        ensures
            r.spec_title() == "Fyrebird_data"@,
            r.spec_size() == (1280u32, 720u32),
            !r.spec_debug(),
    {
        GameEngineBuilder {
            window_title: String::from_str("Fyrebird_data"),
            window_height: 720,
            window_width: 1280,
            debug: false,
        }
    }

    /// Sets the window title.
    pub fn title(&mut self, name: String)
        ensures
            final(self).spec_title() == name@,
            final(self).spec_size() == old(self).spec_size(),
            final(self).spec_debug() == old(self).spec_debug(),
    {
        self.window_title = name;
    }

    /// Sets the window height.
    pub fn window_height(&mut self, h: u32)
        ensures
            final(self).spec_size() == (old(self).spec_size().0, h),
            final(self).spec_title() == old(self).spec_title(),
            final(self).spec_debug() == old(self).spec_debug(),
    {
        self.window_height = h;
    }

    /// Sets the window width.
    pub fn window_width(&mut self, w: u32)
        ensures
            final(self).spec_size() == (w, old(self).spec_size().1),
            final(self).spec_title() == old(self).spec_title(),
            final(self).spec_debug() == old(self).spec_debug(),
    {
        self.window_width = w;
    }

    /// Sets the aspect ratio `num : den`, keeping the height: the width
    /// becomes height * num / den, rounded down and capped at `u32::MAX`.
    pub fn aspect_ratio(&mut self, num: u32, den: u32)
        requires
            den > 0,
        ensures
            final(self).spec_size() == ({
                let w = old(self).spec_size().1 as int * num as int / den as int;
                (if w <= u32::MAX { w as u32 } else { u32::MAX }, old(self).spec_size().1)
            }),
            final(self).spec_title() == old(self).spec_title(),
            final(self).spec_debug() == old(self).spec_debug(),
    {
        proof {
            assert(self.window_height as u64 * num as u64 <= u64::MAX) by (nonlinear_arith)
                requires
                    self.window_height <= u32::MAX,
                    num <= u32::MAX,
            ;
        }
        let w: u64 = self.window_height as u64 * num as u64 / den as u64;
        self.window_width = if w <= u32::MAX as u64 {
            w as u32
        } else {
            u32::MAX
        };
    }

    /// Window size as (width, height).
    pub fn window_size(&self) -> (r: (u32, u32))
        ensures
            r == self.spec_size(),
    {
        (self.window_width, self.window_height)
    }

    /// Turns the validation layer and debug extension on or off.
    pub fn debug(&mut self, on: bool)
        ensures
            final(self).spec_debug() == on,
            final(self).spec_title() == old(self).spec_title(),
            final(self).spec_size() == old(self).spec_size(),
    {
        self.debug = on;
    }

    /// Builds the engine around three stages: behaviours once per frame,
    /// then collisions, then physics at the fixed rate.
    pub fn build<A, H>(&self, behaviors: A, collisions: A, physics: A) -> (r: Result<
        GameEngine<A, H>,
        GraphError,
    >)
        ensures
            match r {
                Ok(e) => {
                    &&& e.wf()
                    &&& !e.spec_started()
                    &&& e.spec_debug() == self.spec_debug()
                    &&& !e.spec_window().spec_ready()
                    &&& e.spec_window().spec_title() == self.spec_title()
                    &&& e.spec_window().spec_size() == self.spec_size()
                    &&& e.spec_scheduler().graph_view().names() == seq![
                        BEHAVIORS_STAGE@,
                        COLLISIONS_STAGE@,
                        PHYSICS_STAGE@,
                    ]
                    &&& e.spec_scheduler().graph_view().rates() == seq![
                        Rate::Variable,
                        Rate::Fixed,
                        Rate::Fixed,
                    ]
                    &&& e.spec_scheduler().graph_view().dep_names(0) == Seq::<Seq<char>>::empty()
                    &&& e.spec_scheduler().graph_view().dep_names(1) == seq![BEHAVIORS_STAGE@]
                    &&& e.spec_scheduler().graph_view().dep_names(2) == seq![COLLISIONS_STAGE@]
                    &&& e.spec_scheduler().order_view() == seq![0int, 1int, 2int]
                    &&& e.spec_scheduler().time_view() == (TimeView {
                        last_tick: 0,
                        delta: 0,
                        fixed_step: DEFAULT_FIXED_STEP_NANOS as int,
                        max_delta: DEFAULT_MAX_DELTA_NANOS as int,
                        accumulator: 0,
                    })
                    &&& e.spec_window().spec_fullscreen()
                },
                Err(_) => false,
            },
    {
        let mut graph: StageGraph<A> = StageGraph::new();
        let b = String::from_str(BEHAVIORS_STAGE);
        let c = String::from_str(COLLISIONS_STAGE);
        let p = String::from_str(PHYSICS_STAGE);
        proof {
            reveal_strlit("behaviors");
            reveal_strlit("collisions");
            reveal_strlit("physics");
            assert(b@ != c@ && b@ != p@ && c@ != p@) by {
                assert(b@[0] != c@[0]);
                assert(b@[0] != p@[0]);
                assert(c@[0] != p@[0]);
            }
        }
        let mut deps_c: Vec<String> = Vec::new();
        deps_c.push(String::from_str(BEHAVIORS_STAGE));
        let mut deps_p: Vec<String> = Vec::new();
        deps_p.push(String::from_str(COLLISIONS_STAGE));
        let ghost bv = b@;
        let ghost cv = c@;
        let ghost pv = p@;
        let ghost dc = deps_c@;
        let ghost dp = deps_p@;
        let r1 = graph.add_stage(b, Vec::new(), Rate::Variable, behaviors);
        proof {
            assert(graph.names() =~= seq![bv]);
        }
        let r2 = graph.add_stage(c, deps_c, Rate::Fixed, collisions);
        proof {
            assert(graph.names() =~= seq![bv, cv]);
        }
        let r3 = graph.add_stage(p, deps_p, Rate::Fixed, physics);
        proof {
            let names = graph.names();
            assert(names =~= seq![bv, cv, pv]);
            assert(graph.rates() =~= seq![Rate::Variable, Rate::Fixed, Rate::Fixed]);
            assert(graph.dep_names(0) =~= Seq::<Seq<char>>::empty());
            assert(graph.dep_names(1) =~= seq![bv]);
            assert(graph.dep_names(2) =~= seq![cv]);
            assert(graph.all_known()) by {
                assert(names[0] == bv);
                assert(names[1] == cv);
            }
            assert(index_of(names, bv) == 0) by {
                assert(names[0] == bv);
            }
            assert(index_of(names, cv) == 1) by {
                assert(names[1] == cv);
            }
            let g = graph.resolved();
            assert(g =~= seq![Seq::<int>::empty(), seq![0int], seq![1int]]) by {
                assert(g[0] =~= Seq::<int>::empty());
                assert(g[1] =~= seq![0int]);
                assert(g[2] =~= seq![1int]);
            }
            lemma_three_in_a_row(g);
        }
        let scheduler = match FrameScheduler::new(graph, Time::new()) {
            Ok(s) => s,
            Err(e) => {
                return Err(e);
            },
        };
        let attr = BaseWindowAttr {
            title: self.window_title.clone(),
            height: self.window_height,
            width: self.window_width,
            fullscreen: true,
        };
        Ok(GameEngine { scheduler, window: GameWindow::new(attr), started: false, debug: self.debug })
    }
}

/// The engine: its scheduler and its window.
pub struct GameEngine<A, H> {
    scheduler: FrameScheduler<A>,
    window: GameWindow<H>,
    started: bool,
    debug: bool,
}

impl<A, H> GameEngine<A, H> {
    pub closed spec fn spec_scheduler(&self) -> FrameScheduler<A> {
        self.scheduler
    }

    pub closed spec fn spec_window(&self) -> GameWindow<H> {
        self.window
    }

    pub closed spec fn spec_started(&self) -> bool {
        self.started
    }

    pub closed spec fn spec_debug(&self) -> bool {
        self.debug
    }

    pub open spec fn wf(&self) -> bool {
        self.spec_scheduler().wf()
    }

    /// The default configuration.
    pub fn builder() -> (r: GameEngineBuilder)
        ensures
            r.spec_title() == "Fyrebird_data"@,
            r.spec_size() == (1280u32, 720u32),
            !r.spec_debug(),
    {
        GameEngineBuilder::new()
    }

    /// The clock.
    pub fn get_time(&self) -> (r: &Time)
        ensures
            r@ == self.spec_scheduler().time_view(),
    {
        self.scheduler.time()
    }

    /// The window host.
    pub fn window(&self) -> (r: &GameWindow<H>)
        ensures
            *r == self.spec_window(),
    {
        &self.window
    }

    /// Records a new window size.
    pub fn on_resize(&mut self, width: u32, height: u32)
        ensures
            final(self).spec_window().spec_size() == (width, height),
            final(self).spec_window().spec_resize_pending(),
            final(self).spec_window().spec_window() == old(self).spec_window().spec_window(),
            final(self).spec_scheduler() == old(self).spec_scheduler(),
            final(self).spec_started() == old(self).spec_started(),
            final(self).spec_debug() == old(self).spec_debug(),
    {
        self.window.on_resize(width, height);
    }

    /// The host's activation signal, with the window it created. Only the
    /// first one starts the engine: the window is taken and a graphics
    /// bootstrap for its platform is handed back. Later ones return the
    /// window untouched.
    pub fn resumed(&mut self, window: H, platform: Platform) -> (r: Result<ContextBootstrap, H>)
        ensures
            final(self).spec_started(),
            final(self).spec_scheduler() == old(self).spec_scheduler(),
            final(self).spec_debug() == old(self).spec_debug(),
            !old(self).spec_started() && !old(self).spec_window().spec_ready() ==> {
                &&& final(self).spec_window().spec_window() == Some(window)
                &&& final(self).spec_window().spec_platform() == platform
                &&& match r {
                    Ok(b) => b.spec_platform() == platform && b.spec_debug() == old(self).spec_debug()
                        && b.spec_application_name() == old(self).spec_window().spec_title()
                        && b.spec_phase() == crate::vulkan::BootstrapPhase::Start,
                    Err(_) => false,
                }
            },
            old(self).spec_started() || old(self).spec_window().spec_ready() ==> r == Err::<
                ContextBootstrap,
                H,
            >(window) && final(self).spec_window() == old(self).spec_window(),
    {
        if self.started || self.window.is_ready() {
            self.started = true;
            return Err(window);
        }
        self.started = true;
        let _ = self.window.init(window, platform);
        let title = self.window.attributes().title.clone();
        Ok(ContextBootstrap::new(platform, self.debug, title))
    }

    /// Runs one frame against `world`.
    pub fn update<W>(&mut self, world: &mut W) -> (r: TickReport) where A: StageAction<W>
        requires
            old(self).wf(),
        ensures
            final(self).wf(),
            final(self).spec_window() == old(self).spec_window(),
            exists|now: int|
                0 <= now <= u64::MAX && old(self).spec_scheduler().tick_outcome(
                    now,
                    final(self).spec_scheduler().time_view(),
                    r,
                ),
    {
        let ghost before = self.scheduler;
        let now = self.scheduler.time().total_time();
        let r = self.scheduler.tick_at(world, now);
        proof {
            assert(before.tick_outcome(now as int, self.scheduler.time_view(), r));
            assert(before == old(self).spec_scheduler());
            assert(self.scheduler == self.spec_scheduler());
            assert(exists|n: int|
                0 <= n <= u64::MAX && before.tick_outcome(n, self.spec_scheduler().time_view(), r));
        }
        r
    }
}

} // verus!

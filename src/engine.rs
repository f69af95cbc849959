//! The annotation engine: the input-mode state machine, the stroke store it
//! drives, and the per-frame preparation of line strips.

use vstd::prelude::*;
use crate::geometry::{Point, smoothed, smooth_points, copy_points};
use crate::store::{StrokeStore, StoreView, survivors};

verus! {

/// Linux evdev code of the primary (left) pointer button.
pub const BTN_LEFT: u32 = 0x110;

/// Whether the overlay takes pointer input or lets it through.
#[derive(Clone, Copy, PartialEq, Eq, Structural, Debug)]
pub enum InputState {
    /// The full input region is installed: the overlay receives the pointer.
    Capturing,
    /// The empty input region is installed: the pointer reaches what lies
    /// beneath.
    Passthrough,
}

/// An input region that the surface can carry.
#[derive(Clone, Copy, PartialEq, Eq, Structural, Debug)]
pub enum Region {
    /// Covers the whole surface.
    Full,
    /// Covers nothing.
    Empty,
}

/// A pointer event, with position in 1/256 pixel.
#[derive(Clone, Copy, PartialEq, Eq, Structural, Debug)]
pub enum PointerEvent {
    Button { button: u32, pressed: bool },
    Motion { x: i32, y: i32 },
    Axis,
}

/// Tunables the engine reads; times in milliseconds, distances in 1/256
/// pixel.
#[derive(Clone, Copy, PartialEq, Eq, Structural, Debug)]
pub struct EngineConfig {
    pub ttl: u64,
    pub smooth_lines: bool,
    pub min_point_distance: u32,
    pub scroll_cooldown: u64,
    pub polling_interval: u64,
}

/// The region that belongs to a mode.
pub open spec fn region_of(mode: InputState) -> Region {
    match mode {
        InputState::Capturing => Region::Full,
        InputState::Passthrough => Region::Empty,
    }
}

/// Milliseconds from `since` to `now`, zero when `now` is earlier.
pub open spec fn elapsed(now: u64, since: u64) -> int {
    if now >= since {
        now - since
    } else {
        0
    }
}

/// The points drawn for a stroke: decimated when smoothing is on.
pub open spec fn strip(s: Seq<Point>, cfg: EngineConfig) -> Seq<Point> {
    if cfg.smooth_lines {
        smoothed(s, cfg.min_point_distance as int)
    } else {
        s
    }
}

/// The line strips of the committed strokes, in order, leaving out those
/// with fewer than two points to draw.
pub open spec fn strips(ss: Seq<Vec<Point>>, cfg: EngineConfig) -> Seq<Seq<Point>>
    decreases ss.len(),
{
    if ss.len() == 0 {
        Seq::empty()
    } else {
        let rest = strips(ss.drop_last(), cfg);
        let p = strip(ss.last()@, cfg);
        if p.len() >= 2 {
            rest.push(p)
        } else {
            rest
        }
    }
}

/// What a frame draws: the strips of the committed strokes, then the strip
/// of the active stroke when it has two points or more to draw.
pub open spec fn frame(committed: Seq<Vec<Point>>, active: Option<Seq<Point>>, cfg: EngineConfig) -> Seq<
    Seq<Point>,
> {
    let c = strips(committed, cfg);
    match active {
        Some(a) => if strip(a, cfg).len() >= 2 {
            c.push(strip(a, cfg))
        } else {
            c
        },
        None => c,
    }
}

/// The point sequences held by a vector of strokes.
pub open spec fn views(v: Seq<Vec<Point>>) -> Seq<Seq<Point>> {
    v.map_values(|s: Vec<Point>| s@)
}

/// The state of an engine.
pub struct EngineView {
    pub config: EngineConfig,
    pub mode: InputState,
    pub installed: Region,
    pub store: StoreView,
    pub last_poll: u64,
    pub last_scroll: Option<u64>,
}

impl EngineView {
    /// The store is well formed, the region last handed out for installing
    /// is the one of the mode, and a stroke is drawn only while capturing.
    pub open spec fn wf(self) -> bool {
        &&& self.store.wf()
        &&& self.installed == region_of(self.mode)
        &&& self.store.active is Some ==> self.mode == InputState::Capturing
    }

    /// Whether the idle check at `now` re-arms capturing.
    pub open spec fn rearms(self, now: u64) -> bool {
        &&& self.mode == InputState::Passthrough
        &&& match self.last_scroll {
            Some(s) => elapsed(now, s) > self.config.scroll_cooldown,
            None => true,
        }
        &&& elapsed(now, self.last_poll) > self.config.polling_interval
    }
}

/// The overlay's engine; its clock starts at time 0.
pub struct Engine {
    config: EngineConfig,
    mode: InputState,
    installed: Region,
    store: StrokeStore,
    last_poll: u64,
    last_scroll: Option<u64>,
}

impl View for Engine {
    type V = EngineView;

    closed spec fn view(&self) -> EngineView {
        EngineView {
            config: self.config,
            mode: self.mode,
            installed: self.installed,
            store: self.store@,
            last_poll: self.last_poll,
            last_scroll: self.last_scroll,
        }
    }
}

fn elapsed_ms(now: u64, since: u64) -> (r: u64)
    ensures
        r == elapsed(now, since),
{
    if now >= since {
        now - since
    } else {
        0
    }
}

impl Engine {
    /// A fresh engine at time 0: capturing, on a surface that carries the
    /// full region, with no strokes and no scroll seen yet.
    pub fn new(config: EngineConfig) -> (r: Engine)
        ensures
            r@.config == config,
            r@.mode == InputState::Capturing,
            r@.installed == Region::Full,
            r@.store.active is None,
            r@.store.committed.len() == 0,
            r@.last_poll == 0,
            r@.last_scroll is None,
            r@.wf(),
    {
        Engine {
            config,
            mode: InputState::Capturing,
            installed: Region::Full,
            store: StrokeStore::new(),
            last_poll: 0,
            last_scroll: None,
        }
    }

    /// The current input mode.
    pub fn input_state(&self) -> (r: InputState)
        ensures
            r == self@.mode,
    {
        self.mode
    }

    /// The input region that the surface carries.
    pub fn installed_region(&self) -> (r: Region)
        ensures
            r == self@.installed,
    {
        self.installed
    }

    /// The strokes.
    pub fn store(&self) -> (r: &StrokeStore)
        ensures
            r@ == self@.store,
    {
        &self.store
    }

    /// Applies a pointer event received at `now` and returns the input
    /// region to install, if any. A press of the primary button captures and
    /// starts a stroke; its release commits the stroke; motion extends it; a
    /// scroll passes input through, drops the stroke and remembers `now`.
    /// A region returned must be installed on the surface; the engine records
    /// it as installed.
    pub fn handle_event(&mut self, ev: PointerEvent, now: u64) -> (r: Option<Region>)
        requires
            old(self)@.wf(),
        ensures
            final(self)@.wf(),
            final(self)@.config == old(self)@.config,
            final(self)@.last_poll == old(self)@.last_poll,
            r is Some ==> r->0 == region_of(final(self)@.mode),
            final(self)@.mode != old(self)@.mode ==> r is Some,
            final(self)@.installed == match r {
                Some(g) => g,
                None => old(self)@.installed,
            },
            match ev {
                PointerEvent::Button { button, pressed } => if button != BTN_LEFT {
                    final(self)@ == old(self)@ && r is None
                } else if pressed {
                    &&& final(self)@.mode == InputState::Capturing
                    &&& r == Some(Region::Full)
                    &&& final(self)@.store.active == Some(Seq::<Point>::empty())
                    &&& final(self)@.store.committed == old(self)@.store.committed
                    &&& final(self)@.last_scroll == old(self)@.last_scroll
                } else {
                    &&& final(self)@.mode == old(self)@.mode
                    &&& r is None
                    &&& final(self)@.store.active is None
                    &&& final(self)@.last_scroll == old(self)@.last_scroll
                    &&& match old(self)@.store.active {
                        Some(s) => if s.len() >= 1 {
                            final(self)@.store.committed == old(self)@.store.committed.push(
                                final(self)@.store.committed.last(),
                            ) && final(self)@.store.committed.last()@ == s
                        } else {
                            final(self)@.store.committed == old(self)@.store.committed
                        },
                        None => final(self)@.store.committed == old(self)@.store.committed,
                    }
                },
                PointerEvent::Motion { x, y } => {
                    &&& final(self)@.mode == old(self)@.mode
                    &&& r is None
                    &&& final(self)@.last_scroll == old(self)@.last_scroll
                    &&& final(self)@.store.committed == old(self)@.store.committed
                    &&& final(self)@.store.active == match old(self)@.store.active {
                        Some(s) => Some(s.push(Point { x, y, t: now })),
                        None => None,
                    }
                },
                PointerEvent::Axis => {
                    &&& final(self)@.mode == InputState::Passthrough
                    &&& r == Some(Region::Empty)
                    &&& final(self)@.last_scroll == Some(now)
                    &&& final(self)@.store.active is None
                    &&& final(self)@.store.committed == old(self)@.store.committed
                },
            },
    {
        match ev {
            PointerEvent::Button { button, pressed } => {
                if button != BTN_LEFT {
                    None
                } else if pressed {
                    self.mode = InputState::Capturing;
                    self.installed = Region::Full;
                    self.store.begin_stroke();
                    Some(Region::Full)
                } else {
                    self.store.commit_active();
                    proof {
                        let c = self@.store.committed;
                        if c.len() == old(self)@.store.committed.len() + 1 {
                            assert(c =~= c.drop_last().push(c.last()));
                        }
                    }
                    None
                }
            },
            PointerEvent::Motion { x, y } => {
                self.store.append_point(Point { x, y, t: now });
                None
            },
            PointerEvent::Axis => {
                self.mode = InputState::Passthrough;
                self.installed = Region::Empty;
                self.store.discard_active();
                self.last_scroll = Some(now);
                Some(Region::Empty)
            },
        }
    }

    /// The idle check of a frame at `now`: while passing input through, once
    /// the scroll cooldown and the polling interval have both run out, goes
    /// back to capturing and returns the full region to install.
    pub fn poll_idle(&mut self, now: u64) -> (r: Option<Region>)
        requires
            old(self)@.wf(),
        ensures
            final(self)@.wf(),
            if old(self)@.rearms(now) {
                &&& r == Some(Region::Full)
                &&& final(self)@ == (EngineView {
                    mode: InputState::Capturing,
                    installed: Region::Full,
                    last_poll: now,
                    ..old(self)@
                })
            } else {
                r is None && final(self)@ == old(self)@
            },
    {
        if self.mode == InputState::Passthrough {
            let cooled = match self.last_scroll {
                Some(s) => elapsed_ms(now, s) > self.config.scroll_cooldown,
                None => true,
            };
            if cooled && elapsed_ms(now, self.last_poll) > self.config.polling_interval {
                self.mode = InputState::Capturing;
                self.installed = Region::Full;
                self.last_poll = now;
                return Some(Region::Full);
            }
        }
        None
    }

    /// Ages the committed strokes at `now` and returns the line strips to
    /// draw this frame: each surviving stroke, then the active one, smoothed
    /// when smoothing is on, leaving out those with fewer than two points.
    pub fn prepare_frame(&mut self, now: u64) -> (r: Vec<Vec<Point>>)
        requires
            old(self)@.wf(),
        ensures
            final(self)@ == (EngineView {
                store: StoreView {
                    committed: survivors(old(self)@.store.committed, now, old(self)@.config.ttl),
                    ..old(self)@.store
                },
                ..old(self)@
            }),
            final(self)@.wf(),
            views(r@) == frame(final(self)@.store.committed, final(self)@.store.active, final(self)@.config),
    {
        self.store.age_and_evict(now, self.config.ttl);
        let cfg = self.config;
        let strokes = self.store.committed();
        let n = strokes.len();
        let mut out: Vec<Vec<Point>> = Vec::new();
        let mut i: usize = 0;
        while i < n
            invariant
                i <= n,
                n == strokes@.len(),
                views(out@) == strips(strokes@.subrange(0, i as int), cfg),
            decreases n - i,
        {
            let p = stroke_strip(strokes[i].as_slice(), cfg);
            let ghost before = out@;
            assert(strokes@.subrange(0, i + 1).drop_last() =~= strokes@.subrange(0, i as int));
            if p.len() >= 2 {
                out.push(p);
                assert(views(out@) =~= views(before).push(out@.last()@));
            }
            i += 1;
        }
        assert(strokes@.subrange(0, n as int) =~= strokes@);
        match self.store.active_points() {
            Some(a) => {
                let p = stroke_strip(a.as_slice(), cfg);
                if p.len() >= 2 {
                    let ghost before = out@;
                    out.push(p);
                    assert(views(out@) =~= views(before).push(out@.last()@));
                }
            },
            None => {},
        }
        out
    }
}

/// The points drawn for one stroke.
fn stroke_strip(s: &[Point], cfg: EngineConfig) -> (r: Vec<Point>)
    ensures
        r@ == strip(s@, cfg),
{
    if cfg.smooth_lines {
        smooth_points(s, cfg.min_point_distance)
    } else {
        copy_points(s)
    }
}

/// Every state of the engine is in exactly one of the two modes, and in a
/// well-formed one (every state that `Engine::new` and the engine's methods
/// produce) the surface carries the full region exactly while capturing and
/// the empty region exactly while passing input through.
pub proof fn lemma_mode_exclusive(v: EngineView)
    requires
        v.wf(),
    ensures
        (v.mode == InputState::Capturing) != (v.mode == InputState::Passthrough),
        v.mode == InputState::Capturing <==> v.installed == Region::Full,
        v.mode == InputState::Passthrough <==> v.installed == Region::Empty,
{
}

} // verus!

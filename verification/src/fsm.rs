//! The interaction state machine. It consumes one input event at a time and
//! yields the next state together with a side-effect request that the
//! surrounding frame loop carries out (hide or show the window, change its
//! title, grab the screen, save the selection, or terminate).
//!
//! The transition table is total: every pair of state and event not named in
//! `spec_step` leaves the state unchanged and requests nothing.

use vstd::prelude::*;
use crate::bitmap::Image;
use crate::cache::DisplayCache;
use crate::geom::{Point, Rect, spec_drag_rect, lemma_drag_rect_in_bounds, lemma_drag_rect_inside};

verus! {

/// The keys the state machine reacts to. Every other key is carried as
/// `Other` with the window library's key code and is ignored by the machine.
#[derive(Clone, Copy, PartialEq, Eq, Structural, Debug)]
pub enum Key {
    Escape,
    S,
    Other(u16),
}

/// One input event: an edge-triggered key or mouse-button change, a cursor
/// move, the global capture hotkey, or the input thread's termination notice.
#[derive(Clone, Copy, PartialEq, Eq, Structural, Debug)]
pub enum Event {
    KeyDown(Key),
    KeyUp(Key),
    MouseDown(Point),
    MouseUp(Point),
    MouseMove(Point),
    CaptureRequested,
    Quit,
}

/// The window caption that goes with a state.
#[derive(Clone, Copy, PartialEq, Eq, Structural, Debug)]
pub enum Title {
    Idle,
    Captured,
    RegionSelected,
    SubRegionSelected,
}

/// A request to write the selection: the captured image, the committed red
/// rectangle (which also names the file), and the nested green rectangle
/// whose pixels are saved instead when present.
pub struct SaveRequest {
    pub img: Image,
    pub red: Rect,
    pub green: Option<Rect>,
}

/// What the frame loop must do after a transition.
pub enum Effect {
    /// Nothing.
    Nothing,
    /// End the process.
    Terminate,
    /// Hide the window, give the display time to settle, grab the screen,
    /// and report the outcome through `State::finish_capture`.
    BeginCapture,
    /// Show the window at the origin with the given caption (a capture
    /// succeeded).
    Show(Title),
    /// Show the window at the origin and log that the grab failed.
    CaptureFailed,
    /// Change the window caption.
    SetTitle(Title),
    /// Hide the window and change the caption.
    HideAndSetTitle(Title),
    /// Write the selection to disk, then hide the window and change the
    /// caption.
    Save(SaveRequest),
}

/// The interaction state: exactly one variant is alive at any time, and each
/// carries only the data its phase needs.
pub enum State {
    /// No capture held.
    Idle,
    /// A capture is shown, nothing selected yet.
    Full { img: Image, cache: DisplayCache },
    /// The primary rectangle is being dragged out.
    DraggingRed { img: Image, cache: DisplayCache, anchor: Point, cursor: Point },
    /// The primary rectangle is committed.
    Red { img: Image, cache: DisplayCache, red: Rect },
    /// A nested rectangle is being dragged out inside the committed red one.
    DraggingGreen { img: Image, cache: DisplayCache, red: Rect, anchor: Point, cursor: Point },
    /// The nested rectangle is committed; it lies inside the red one.
    Green { img: Image, cache: DisplayCache, red: Rect, green: Rect },
}

/// A committed primary rectangle: strictly larger than ten pixels each way,
/// inside the image, with corner sums representable.
pub open spec fn red_committed(red: Rect, w: u32, h: u32) -> bool {
    &&& red.w >= 11
    &&& red.h >= 11
    &&& red.in_bounds(w, h)
    &&& red.x + red.w <= i32::MAX
    &&& red.y + red.h <= i32::MAX
}

/// A committed nested rectangle: strictly larger than five pixels each way.
pub open spec fn green_committed(green: Rect) -> bool {
    green.w >= 6 && green.h >= 6
}

impl State {
    /// The dimensions of the capture this state holds, if any.
    pub open spec fn dims(self) -> Option<(u32, u32)> {
        match self {
            State::Idle => None,
            State::Full { img, .. } => Some((img.width, img.height)),
            State::DraggingRed { img, .. } => Some((img.width, img.height)),
            State::Red { img, .. } => Some((img.width, img.height)),
            State::DraggingGreen { img, .. } => Some((img.width, img.height)),
            State::Green { img, .. } => Some((img.width, img.height)),
        }
    }

    /// The image is well formed and the cache was built from it.
    pub open spec fn capture_wf(img: Image, cache: DisplayCache) -> bool {
        img.wf() && cache.wf() && cache.matches(img)
    }

    /// The state invariant: the capture data is consistent, drag corners lie
    /// on the image, a committed red rectangle is in bounds and above its
    /// threshold, a nested drag stays inside the red rectangle, and a
    /// committed green rectangle lies inside the red one and above its own
    /// threshold.
    pub open spec fn inv(self) -> bool {
        match self {
            State::Idle => true,
            State::Full { img, cache } => State::capture_wf(img, cache),
            State::DraggingRed { img, cache, anchor, cursor } => {
                &&& State::capture_wf(img, cache)
                &&& anchor.in_bounds(img.width, img.height)
                &&& cursor.in_bounds(img.width, img.height)
            },
            State::Red { img, cache, red } => {
                &&& State::capture_wf(img, cache)
                &&& red_committed(red, img.width, img.height)
            },
            State::DraggingGreen { img, cache, red, anchor, cursor } => {
                &&& State::capture_wf(img, cache)
                &&& red_committed(red, img.width, img.height)
                &&& anchor.spec_in_rect(red)
                &&& cursor.spec_in_rect(red)
            },
            State::Green { img, cache, red, green } => {
                &&& State::capture_wf(img, cache)
                &&& red_committed(red, img.width, img.height)
                &&& green_committed(green)
                &&& green.inside(red)
            },
        }
    }
}

/// An event fits a state when any cursor position it carries lies on the
/// image the state holds (the input source clamps the cursor to the window,
/// which is the size of the capture).
pub open spec fn event_wf(e: Event, s: State) -> bool {
    match e {
        Event::MouseDown(p) | Event::MouseUp(p) | Event::MouseMove(p) => match s.dims() {
            Some(d) => p.in_bounds(d.0, d.1),
            None => true,
        },
        _ => true,
    }
}

/// The transition table, as a function from state and event to next state
/// and requested side effect. Pairs not named leave the state unchanged.
pub open spec fn spec_step(s: State, e: Event) -> (State, Effect) {
    match (s, e) {
        (State::Idle, Event::KeyDown(Key::Escape)) => (State::Idle, Effect::Terminate),
        (State::Idle, Event::CaptureRequested) => (State::Idle, Effect::BeginCapture),
        (State::Full { img, cache }, Event::KeyDown(Key::Escape)) => (
            State::Idle,
            Effect::HideAndSetTitle(Title::Idle),
        ),
        (State::Full { img, cache }, Event::MouseDown(p)) => (
            State::DraggingRed { img, cache, anchor: p, cursor: p },
            Effect::Nothing,
        ),
        (State::DraggingRed { img, cache, anchor, cursor }, Event::KeyDown(Key::Escape)) => (
            State::Full { img, cache },
            Effect::SetTitle(Title::Captured),
        ),
        (State::DraggingRed { img, cache, anchor, cursor }, Event::MouseMove(p)) => (
            State::DraggingRed { img, cache, anchor, cursor: p },
            Effect::Nothing,
        ),
        (State::DraggingRed { img, cache, anchor, cursor }, Event::MouseUp(p)) => {
            let r = spec_drag_rect(anchor, cursor);
            if r.w > 10 && r.h > 10 {
                (State::Red { img, cache, red: r }, Effect::SetTitle(Title::RegionSelected))
            } else {
                (State::Full { img, cache }, Effect::SetTitle(Title::Captured))
            }
        },
        (State::Red { img, cache, red }, Event::KeyDown(Key::Escape)) => (
            State::Full { img, cache },
            Effect::SetTitle(Title::Captured),
        ),
        (State::Red { img, cache, red }, Event::KeyDown(Key::S)) => (
            State::Idle,
            Effect::Save(SaveRequest { img, red, green: None }),
        ),
        (State::Red { img, cache, red }, Event::MouseDown(p)) => {
            if p.spec_in_rect(red) {
                (
                    State::DraggingGreen { img, cache, red, anchor: p, cursor: p },
                    Effect::Nothing,
                )
            } else {
                (State::Red { img, cache, red }, Effect::Nothing)
            }
        },
        (
            State::DraggingGreen { img, cache, red, anchor, cursor },
            Event::KeyDown(Key::Escape),
        ) => (
            State::Red { img, cache, red },
            Effect::SetTitle(Title::RegionSelected),
        ),
        (State::DraggingGreen { img, cache, red, anchor, cursor }, Event::MouseMove(p)) => (
            State::DraggingGreen {
                img,
                cache,
                red,
                anchor,
                cursor: Point {
                    x: crate::geom::clamp_i32(p.x, red.x, (red.x + red.w) as i32),
                    y: crate::geom::clamp_i32(p.y, red.y, (red.y + red.h) as i32),
                },
            },
            Effect::Nothing,
        ),
        (State::DraggingGreen { img, cache, red, anchor, cursor }, Event::MouseUp(p)) => {
            let g = spec_drag_rect(anchor, cursor);
            if g.w > 5 && g.h > 5 {
                (
                    State::Green { img, cache, red, green: g },
                    Effect::SetTitle(Title::SubRegionSelected),
                )
            } else {
                (State::Red { img, cache, red }, Effect::SetTitle(Title::RegionSelected))
            }
        },
        (State::Green { img, cache, red, green }, Event::KeyDown(Key::Escape)) => (
            State::Red { img, cache, red },
            Effect::SetTitle(Title::RegionSelected),
        ),
        (State::Green { img, cache, red, green }, Event::KeyDown(Key::S)) => (
            State::Idle,
            Effect::Save(SaveRequest { img, red, green: Some(green) }),
        ),
        (s0, _) => (s0, Effect::Nothing),
    }
}

impl State {
    /// Apply one event: the executable form of `spec_step`.
    pub fn step(self, e: Event) -> (r: (State, Effect))
        requires
            self.inv(),
            event_wf(e, self),
        ensures
            r == spec_step(self, e),
            r.0.inv(),
    {
        proof {
            lemma_step_preserves_inv(self, e);
        }
        match (self, e) {
            (State::Idle, Event::KeyDown(Key::Escape)) => (State::Idle, Effect::Terminate),
            (State::Idle, Event::CaptureRequested) => (State::Idle, Effect::BeginCapture),
            (State::Full { img, cache }, Event::KeyDown(Key::Escape)) => (
                State::Idle,
                Effect::HideAndSetTitle(Title::Idle),
            ),
            (State::Full { img, cache }, Event::MouseDown(p)) => (
                State::DraggingRed { img, cache, anchor: p, cursor: p },
                Effect::Nothing,
            ),
            (State::DraggingRed { img, cache, anchor, cursor }, Event::KeyDown(Key::Escape)) => (
                State::Full { img, cache },
                Effect::SetTitle(Title::Captured),
            ),
            (State::DraggingRed { img, cache, anchor, cursor }, Event::MouseMove(p)) => (
                State::DraggingRed { img, cache, anchor, cursor: p },
                Effect::Nothing,
            ),
            (State::DraggingRed { img, cache, anchor, cursor }, Event::MouseUp(_p)) => {
                let r = Rect::from_drag(anchor, cursor);
                if r.w > 10 && r.h > 10 {
                    (State::Red { img, cache, red: r }, Effect::SetTitle(Title::RegionSelected))
                } else {
                    (State::Full { img, cache }, Effect::SetTitle(Title::Captured))
                }
            },
            (State::Red { img, cache, red }, Event::KeyDown(Key::Escape)) => (
                State::Full { img, cache },
                Effect::SetTitle(Title::Captured),
            ),
            (State::Red { img, cache, red }, Event::KeyDown(Key::S)) => (
                State::Idle,
                Effect::Save(SaveRequest { img, red, green: None }),
            ),
            (State::Red { img, cache, red }, Event::MouseDown(p)) => {
                if p.in_rect(&red) {
                    (
                        State::DraggingGreen { img, cache, red, anchor: p, cursor: p },
                        Effect::Nothing,
                    )
                } else {
                    (State::Red { img, cache, red }, Effect::Nothing)
                }
            },
            (
                State::DraggingGreen { img, cache, red, anchor, cursor },
                Event::KeyDown(Key::Escape),
            ) => (
                State::Red { img, cache, red },
                Effect::SetTitle(Title::RegionSelected),
            ),
            (State::DraggingGreen { img, cache, red, anchor, cursor }, Event::MouseMove(p)) => {
                let clamped = p.clamp_to_rect(&red);
                (
                    State::DraggingGreen { img, cache, red, anchor, cursor: clamped },
                    Effect::Nothing,
                )
            },
            (State::DraggingGreen { img, cache, red, anchor, cursor }, Event::MouseUp(_p)) => {
                let g = Rect::from_drag(anchor, cursor);
                if g.w > 5 && g.h > 5 {
                    (
                        State::Green { img, cache, red, green: g },
                        Effect::SetTitle(Title::SubRegionSelected),
                    )
                } else {
                    (State::Red { img, cache, red }, Effect::SetTitle(Title::RegionSelected))
                }
            },
            (State::Green { img, cache, red, green }, Event::KeyDown(Key::Escape)) => (
                State::Red { img, cache, red },
                Effect::SetTitle(Title::RegionSelected),
            ),
            (State::Green { img, cache, red, green }, Event::KeyDown(Key::S)) => (
                State::Idle,
                Effect::Save(SaveRequest { img, red, green: Some(green) }),
            ),
            (s0, _) => (s0, Effect::Nothing),
        }
    }

    /// Fold in the outcome of a screen grab requested by `Effect::BeginCapture`:
    /// a successful grab shows the capture full screen, a failed one returns
    /// to `Idle`.
    pub fn finish_capture(self, grabbed: Option<Image>) -> (r: (State, Effect))
        requires
            self is Idle,
            grabbed matches Some(img) ==> img.wf(),
        ensures
            grabbed matches Some(img) ==> {
                &&& r.0 matches State::Full { img: i2, cache } && i2 == img && State::capture_wf(
                    img,
                    cache,
                )
                &&& r.1 == Effect::Show(Title::Captured)
            },
            grabbed is None ==> r.0 == State::Idle && r.1 == Effect::CaptureFailed,
            r.0.inv(),
    {
        match grabbed {
            Some(img) => {
                let cache = DisplayCache::new(&img);
                (State::Full { img, cache }, Effect::Show(Title::Captured))
            },
            None => (State::Idle, Effect::CaptureFailed),
        }
    }

    /// Rebuild the cache's composite buffer for this state: no selection in
    /// `Full`, the red rectangle being dragged or committed, and the green
    /// rectangle being dragged or committed on top of it. `Idle` holds no
    /// cache and leaves nothing to do.
    pub fn render(&mut self)
        requires
            old(self).inv(),
        ensures
            final(self).inv(),
            render_matches(*old(self), *final(self)),
    {
        match self {
            State::Idle => {},
            State::Full { img: _, cache } => {
                cache.update_display(None, None);
            },
            State::DraggingRed { img: _, cache, anchor, cursor } => {
                let r = Rect::from_drag(*anchor, *cursor);
                cache.update_display(Some(r), None);
            },
            State::Red { img: _, cache, red } => {
                cache.update_display(Some(*red), None);
            },
            State::DraggingGreen { img: _, cache, red, anchor, cursor } => {
                let g = Rect::from_drag(*anchor, *cursor);
                cache.update_display(Some(*red), Some(g));
            },
            State::Green { img: _, cache, red, green } => {
                cache.update_display(Some(*red), Some(*green));
            },
        }
    }
}

/// The cache after a rebuild of its composite buffer for the selections
/// `red` and `green`: everything else is untouched, and the composite holds
/// `composite_at` of those selections at every cell.
pub open spec fn cache_rebuilt(c0: DisplayCache, c: DisplayCache, red: Option<Rect>, green: Option<
    Rect,
>) -> bool {
    &&& c.width == c0.width
    &&& c.height == c0.height
    &&& c.original == c0.original
    &&& c.dimmed == c0.dimmed
    &&& forall|x: int, y: int|
        0 <= x < c.width && 0 <= y < c.height ==> #[trigger] crate::cache::pix(
            c.composite@,
            c.width as int,
            x,
            y,
        ) == crate::cache::composite_at(
            c.original@,
            c.dimmed@,
            c.width as int,
            red,
            green,
            x,
            y,
        )
}

/// After `render`, the state is unchanged but for its composite buffer,
/// which holds the compositor's output for the state's selections: none in
/// `Full`, the drag rectangle while one is dragged, the committed rectangles
/// afterward.
pub open spec fn render_matches(before: State, after: State) -> bool {
    match (before, after) {
        (State::Idle, State::Idle) => true,
        (State::Full { img: i0, cache: c0 }, State::Full { img, cache }) => img == i0
            && cache_rebuilt(c0, cache, None, None),
        (
            State::DraggingRed { img: i0, cache: c0, anchor: a0, cursor: u0 },
            State::DraggingRed { img, cache, anchor, cursor },
        ) => img == i0 && anchor == a0 && cursor == u0 && cache_rebuilt(
            c0,
            cache,
            Some(spec_drag_rect(a0, u0)),
            None,
        ),
        (
            State::Red { img: i0, cache: c0, red: r0 },
            State::Red { img, cache, red },
        ) => img == i0 && red == r0 && cache_rebuilt(c0, cache, Some(r0), None),
        (
            State::DraggingGreen { img: i0, cache: c0, red: r0, anchor: a0, cursor: u0 },
            State::DraggingGreen { img, cache, red, anchor, cursor },
        ) => img == i0 && red == r0 && anchor == a0 && cursor == u0 && cache_rebuilt(
            c0,
            cache,
            Some(r0),
            Some(spec_drag_rect(a0, u0)),
        ),
        (
            State::Green { img: i0, cache: c0, red: r0, green: g0 },
            State::Green { img, cache, red, green },
        ) => img == i0 && red == r0 && green == g0 && cache_rebuilt(
            c0,
            cache,
            Some(r0),
            Some(g0),
        ),
        _ => false,
    }
}

/// Every transition of the table preserves the state invariant: the capture
/// data stays consistent, a committed red rectangle lies inside the image
/// above its threshold, and a green rectangle stays inside the red one above
/// its own threshold.
pub proof fn lemma_step_preserves_inv(s: State, e: Event)
    requires
        s.inv(),
        event_wf(e, s),
    ensures
        spec_step(s, e).0.inv(),
{
    match (s, e) {
        (State::DraggingRed { img, cache, anchor, cursor }, Event::MouseUp(p)) => {
            lemma_drag_rect_in_bounds(anchor, cursor, img.width, img.height);
        },
        (State::DraggingGreen { img, cache, red, anchor, cursor }, Event::MouseUp(p)) => {
            lemma_drag_rect_inside(anchor, cursor, red);
        },
        _ => {},
    }
}

/// Exactly one state variant is active.
pub proof fn lemma_one_state_active(s: State)
    ensures
        active_count(s) == 1,
{
}

/// How many of the six state variants `s` matches.
pub open spec fn active_count(s: State) -> int {
    (if s is Idle { 1int } else { 0 }) + (if s is Full { 1int } else { 0 }) + (if s is DraggingRed {
        1int
    } else {
        0
    }) + (if s is Red { 1int } else { 0 }) + (if s is DraggingGreen { 1int } else { 0 }) + (
    if s is Green { 1int } else { 0 })
}

} // verus!

use screencap::bitmap::Image;
use screencap::cache::DisplayCache;
use screencap::fsm::{Effect, Event, Key, State, Title};
use screencap::geom::{Point, Rect};

fn solid_image(w: u32, h: u32, rgba: [u8; 4]) -> Image {
    let mut pixels = Vec::with_capacity((4 * w * h) as usize);
    for _ in 0..(w * h) {
        pixels.extend_from_slice(&rgba);
    }
    Image::new(w, h, pixels).unwrap()
}

fn full_state(w: u32, h: u32) -> State {
    let img = solid_image(w, h, [10, 20, 30, 255]);
    let cache = DisplayCache::new(&img);
    State::Full { img, cache }
}

fn red_state(w: u32, h: u32, red: Rect) -> State {
    let img = solid_image(w, h, [10, 20, 30, 255]);
    let cache = DisplayCache::new(&img);
    State::Red { img, cache, red }
}

fn green_state(w: u32, h: u32, red: Rect, green: Rect) -> State {
    let img = solid_image(w, h, [10, 20, 30, 255]);
    let cache = DisplayCache::new(&img);
    State::Green { img, cache, red, green }
}

fn down(x: i32, y: i32) -> Event {
    Event::MouseDown(Point::new(x, y))
}

fn mv(x: i32, y: i32) -> Event {
    Event::MouseMove(Point::new(x, y))
}

fn up(x: i32, y: i32) -> Event {
    Event::MouseUp(Point::new(x, y))
}

fn committed_red(state: &State) -> Rect {
    match state {
        State::Red { red, .. } => *red,
        _ => panic!("expected a committed red rectangle"),
    }
}

#[test]
fn red_drag_of_ten_does_not_commit() {
    let state = full_state(1920, 1080);
    let (state, _) = state.step(down(100, 100));
    let (state, _) = state.step(mv(110, 110));
    let (state, eff) = state.step(up(110, 110));
    assert!(matches!(state, State::Full { .. }));
    assert!(matches!(eff, Effect::SetTitle(Title::Captured)));
}

#[test]
fn red_drag_of_eleven_commits() {
    let state = full_state(1920, 1080);
    let (state, _) = state.step(down(100, 100));
    let (state, _) = state.step(mv(111, 111));
    let (state, eff) = state.step(up(111, 111));
    assert_eq!(committed_red(&state), Rect { x: 100, y: 100, w: 11, h: 11 });
    assert!(matches!(eff, Effect::SetTitle(Title::RegionSelected)));
}

#[test]
fn green_drag_of_five_does_not_commit() {
    let state = red_state(1920, 1080, Rect { x: 100, y: 100, w: 400, h: 300 });
    let (state, _) = state.step(down(200, 200));
    let (state, _) = state.step(mv(205, 205));
    let (state, _) = state.step(up(205, 205));
    assert!(matches!(state, State::Red { .. }));
}

#[test]
fn green_drag_of_six_commits() {
    let state = red_state(1920, 1080, Rect { x: 100, y: 100, w: 400, h: 300 });
    let (state, _) = state.step(down(200, 200));
    let (state, _) = state.step(mv(206, 206));
    let (state, eff) = state.step(up(206, 206));
    match state {
        State::Green { green, .. } => {
            assert_eq!(green, Rect { x: 200, y: 200, w: 6, h: 6 });
        },
        _ => panic!("expected a committed green rectangle"),
    }
    assert!(matches!(eff, Effect::SetTitle(Title::SubRegionSelected)));
}

#[test]
fn capture_and_commit_full_region() {
    // The capture request leaves the state Idle and asks for a grab; the
    // grab's outcome enters Full; the drag commits the red rectangle.
    let state = State::Idle;
    let (state, eff) = state.step(Event::CaptureRequested);
    assert!(matches!(state, State::Idle));
    assert!(matches!(eff, Effect::BeginCapture));
    let img = solid_image(1920, 1080, [1, 2, 3, 255]);
    let (state, eff) = state.finish_capture(Some(img));
    assert!(matches!(state, State::Full { .. }));
    assert!(matches!(eff, Effect::Show(Title::Captured)));
    let (state, _) = state.step(down(100, 100));
    let (state, _) = state.step(mv(500, 400));
    let (state, _) = state.step(up(500, 400));
    assert_eq!(committed_red(&state), Rect { x: 100, y: 100, w: 400, h: 300 });
    let (state, eff) = state.step(Event::KeyDown(Key::S));
    assert!(matches!(state, State::Idle));
    match eff {
        Effect::Save(req) => {
            assert_eq!(req.red, Rect { x: 100, y: 100, w: 400, h: 300 });
            assert!(req.green.is_none());
        },
        _ => panic!("expected a save request"),
    }
}

#[test]
fn failed_capture_returns_to_idle() {
    let state = State::Idle;
    let (state, _) = state.step(Event::CaptureRequested);
    let (state, eff) = state.finish_capture(None);
    assert!(matches!(state, State::Idle));
    assert!(matches!(eff, Effect::CaptureFailed));
}

#[test]
fn sub_region_save_carries_green() {
    let state = red_state(1920, 1080, Rect { x: 100, y: 100, w: 400, h: 300 });
    let (state, _) = state.step(down(200, 200));
    let (state, _) = state.step(mv(260, 260));
    let (state, _) = state.step(up(260, 260));
    match &state {
        State::Green { red, green, .. } => {
            assert_eq!(*red, Rect { x: 100, y: 100, w: 400, h: 300 });
            assert_eq!(*green, Rect { x: 200, y: 200, w: 60, h: 60 });
        },
        _ => panic!("expected a committed green rectangle"),
    }
    let (state, eff) = state.step(Event::KeyDown(Key::S));
    assert!(matches!(state, State::Idle));
    match eff {
        Effect::Save(req) => {
            assert_eq!(req.red, Rect { x: 100, y: 100, w: 400, h: 300 });
            assert_eq!(req.green, Some(Rect { x: 200, y: 200, w: 60, h: 60 }));
        },
        _ => panic!("expected a save request"),
    }
}

#[test]
fn green_cursor_is_clamped_to_red() {
    // A nested drag from inside the red rectangle; the cursor runs far
    // outside it and is clamped to the rectangle's far corner.
    let red = Rect { x: 100, y: 100, w: 400, h: 300 };
    let state = red_state(1920, 1080, red);
    let (state, _) = state.step(down(450, 350));
    let (state, _) = state.step(mv(1000, 1000));
    match &state {
        State::DraggingGreen { cursor, .. } => {
            assert_eq!(*cursor, Point { x: 500, y: 400 });
        },
        _ => panic!("expected a nested drag"),
    }
    let (state, _) = state.step(up(1000, 1000));
    match state {
        State::Green { green, .. } => {
            assert_eq!(green, Rect { x: 450, y: 350, w: 50, h: 50 });
            assert!(red.x <= green.x && red.y <= green.y);
            assert!(green.x + green.w <= red.x + red.w);
            assert!(green.y + green.h <= red.y + red.h);
        },
        _ => panic!("expected a committed green rectangle"),
    }
}

#[test]
fn too_small_red_drag_is_discarded() {
    let state = full_state(1920, 1080);
    let (state, _) = state.step(down(10, 10));
    let (state, _) = state.step(up(15, 15));
    assert!(matches!(state, State::Full { .. }));
}

#[test]
fn escape_ladder() {
    let state = green_state(
        1920,
        1080,
        Rect { x: 100, y: 100, w: 400, h: 300 },
        Rect { x: 200, y: 200, w: 60, h: 60 },
    );
    let esc = Event::KeyDown(Key::Escape);
    let (state, _) = state.step(esc);
    assert!(matches!(state, State::Red { .. }));
    let (state, _) = state.step(esc);
    assert!(matches!(state, State::Full { .. }));
    let (state, eff) = state.step(esc);
    assert!(matches!(state, State::Idle));
    assert!(matches!(eff, Effect::HideAndSetTitle(Title::Idle)));
    let (state, eff) = state.step(esc);
    assert!(matches!(state, State::Idle));
    assert!(matches!(eff, Effect::Terminate));
}

#[test]
fn outside_red_click_is_inert() {
    let red = Rect { x: 100, y: 100, w: 400, h: 300 };
    let state = red_state(1920, 1080, red);
    let (state, eff) = state.step(down(50, 50));
    assert_eq!(committed_red(&state), red);
    assert!(matches!(eff, Effect::Nothing));
}

#[test]
fn click_below_red_is_inert() {
    // (450, 450) lies beside the red rectangle vertically: inside its
    // horizontal span but below its bottom edge, so nothing starts.
    let red = Rect { x: 100, y: 100, w: 400, h: 300 };
    let state = red_state(1920, 1080, red);
    let (state, eff) = state.step(down(450, 450));
    assert_eq!(committed_red(&state), red);
    assert!(matches!(eff, Effect::Nothing));
}

#[test]
fn unmatched_events_leave_state_alone() {
    let state = full_state(64, 64);
    let (state, eff) = state.step(Event::KeyDown(Key::S));
    assert!(matches!(state, State::Full { .. }));
    assert!(matches!(eff, Effect::Nothing));
    let (state, eff) = state.step(Event::CaptureRequested);
    assert!(matches!(state, State::Full { .. }));
    assert!(matches!(eff, Effect::Nothing));
    let (state, eff) = state.step(Event::KeyUp(Key::Escape));
    assert!(matches!(state, State::Full { .. }));
    assert!(matches!(eff, Effect::Nothing));
    let (state, eff) = state.step(Event::KeyDown(Key::Other(42)));
    assert!(matches!(state, State::Full { .. }));
    assert!(matches!(eff, Effect::Nothing));
}

fn variant_count(state: &State) -> u32 {
    let mut n = 0;
    if matches!(state, State::Idle) {
        n += 1;
    }
    if matches!(state, State::Full { .. }) {
        n += 1;
    }
    if matches!(state, State::DraggingRed { .. }) {
        n += 1;
    }
    if matches!(state, State::Red { .. }) {
        n += 1;
    }
    if matches!(state, State::DraggingGreen { .. }) {
        n += 1;
    }
    if matches!(state, State::Green { .. }) {
        n += 1;
    }
    n
}

#[test]
fn exactly_one_state_is_active() {
    let red = Rect { x: 100, y: 100, w: 400, h: 300 };
    let green = Rect { x: 200, y: 200, w: 60, h: 60 };
    assert_eq!(variant_count(&State::Idle), 1);
    assert_eq!(variant_count(&full_state(32, 32)), 1);
    assert_eq!(variant_count(&red_state(1920, 1080, red)), 1);
    assert_eq!(variant_count(&green_state(1920, 1080, red, green)), 1);
    let (state, _) = full_state(32, 32).step(down(4, 4));
    assert_eq!(variant_count(&state), 1);
    let (state, _) = red_state(1920, 1080, red).step(down(200, 200));
    assert_eq!(variant_count(&state), 1);
}

#[test]
fn committed_red_stays_inside_the_image() {
    // The committed rectangle sits inside the capture and above the
    // threshold, whatever corner the drag started from.
    let state = full_state(640, 480);
    let (state, _) = state.step(down(639, 479));
    let (state, _) = state.step(mv(0, 0));
    let (state, _) = state.step(up(0, 0));
    let red = committed_red(&state);
    assert_eq!(red, Rect { x: 0, y: 0, w: 639, h: 479 });
    assert!(red.x >= 0 && red.y >= 0);
    assert!(red.x + red.w <= 640 && red.y + red.h <= 480);
    assert!(red.w > 10 && red.h > 10);
}

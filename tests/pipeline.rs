use keyberon::action::Action;
use keyberon::key_code::KeyCode;
use keyberon::layout::Layers;
use vgbd44::debounce::{MatrixSnapshot, COLS, ROWS};
use vgbd44::engine::{drive_layout, receive, LayoutEngine};
use vgbd44::event::KeyEvent;
use vgbd44::half::Half;
use vgbd44::link::{de, FrameWindow};
use vgbd44::role::Role;

static LAYERS: Layers = &[&[
    &[
        Action::HoldTap {
            timeout: 200,
            hold: &Action::KeyCode(KeyCode::LShift),
            tap: &Action::KeyCode(KeyCode::Enter),
        },
        Action::KeyCode(KeyCode::A),
        Action::NoOp,
        Action::NoOp,
        Action::NoOp,
        Action::NoOp,
        Action::NoOp,
        Action::NoOp,
        Action::NoOp,
        Action::NoOp,
        Action::NoOp,
        Action::KeyCode(KeyCode::P),
    ],
    &[Action::NoOp, Action::NoOp, Action::KeyCode(KeyCode::S)],
]];

fn snapshot(keys: &[(usize, usize)]) -> MatrixSnapshot {
    let mut s = [[false; COLS]; ROWS];
    for &(r, c) in keys {
        s[r][c] = true;
    }
    s
}

fn has(codes: &[u8], k: KeyCode) -> bool {
    codes.contains(&(k as u8))
}

#[test]
fn press_reaches_the_host_at_the_threshold_tick() {
    let mut half = Half::new(true, 5);
    let mut layout = LayoutEngine::new(LAYERS).unwrap();
    let sample = snapshot(&[(1, 2)]);
    for tick in 1..=6 {
        let s = half.sense(Role::Main, &sample, false);
        assert!(s.frames.is_empty());
        let codes = drive_layout(&mut layout, &s.events);
        let report = half.report(Role::Main, &codes);
        if tick < 5 {
            assert!(s.events.is_empty());
            assert!(report.is_none());
        } else if tick == 5 {
            assert_eq!(s.events, vec![KeyEvent::Press(1, 2)]);
            let r = report.unwrap();
            assert_eq!(r.keys, [KeyCode::S as u8, 0, 0, 0, 0, 0]);
            assert_eq!(r.modifiers, 0);
        } else {
            assert!(s.events.is_empty());
            assert!(report.is_none());
        }
    }
}

#[test]
fn release_clears_the_report() {
    let mut half = Half::new(true, 1);
    let mut layout = LayoutEngine::new(LAYERS).unwrap();
    let s = half.sense(Role::Main, &snapshot(&[(1, 2)]), false);
    let codes = drive_layout(&mut layout, &s.events);
    assert!(half.report(Role::Main, &codes).is_some());
    let s = half.sense(Role::Main, &snapshot(&[]), false);
    assert_eq!(s.events, vec![KeyEvent::Release(1, 2)]);
    let codes = drive_layout(&mut layout, &s.events);
    let _ = half.report(Role::Main, &codes);
    let codes = drive_layout(&mut layout, &vec![]);
    let r = half.report(Role::Main, &codes).unwrap();
    assert_eq!(r.keys, [0; 6]);
}

#[test]
fn peripheral_forwards_press_frame() {
    let mut periph = Half::new(true, 5);
    let mut periph_layout = LayoutEngine::new(LAYERS).unwrap();
    let sample = snapshot(&[(0, 0)]);
    let mut frames = Vec::new();
    for _ in 0..5 {
        let s = periph.sense(Role::Peripheral, &sample, false);
        let codes = drive_layout(&mut periph_layout, &s.events);
        assert!(periph.report(Role::Peripheral, &codes).is_none());
        frames.extend(s.frames);
    }
    assert_eq!(frames, vec![[0x80, 0x00, 0xff]]);

    let mut main_layout = LayoutEngine::new(LAYERS).unwrap();
    let mut window = FrameWindow::new();
    let mut got = Vec::new();
    for b in frames[0] {
        got.push(receive(&mut main_layout, &mut window, b));
    }
    assert_eq!(got, vec![None, None, Some(KeyEvent::Press(0, 0))]);
}

#[test]
fn mirrored_peripheral_forwards_unified_coordinates() {
    let mut periph = Half::new(false, 1);
    let s = periph.sense(Role::Peripheral, &snapshot(&[(0, 0)]), true);
    assert_eq!(s.frames, vec![[0x80, 11, 0xff]]);
    assert_eq!(s.events, vec![KeyEvent::Press(0, 11), KeyEvent::Press(3, 11)]);
}

#[test]
fn main_half_forwards_nothing() {
    let mut main = Half::new(true, 1);
    let s = main.sense(Role::Main, &snapshot(&[(2, 3)]), false);
    assert_eq!(s.events, vec![KeyEvent::Press(2, 3)]);
    assert!(s.frames.is_empty());
}

#[test]
fn boot_button_event_follows_matrix_events() {
    let mut half = Half::new(true, 1);
    let s = half.sense(Role::Peripheral, &snapshot(&[(1, 1)]), true);
    assert_eq!(s.events, vec![KeyEvent::Press(1, 1), KeyEvent::Press(3, 0)]);
    assert_eq!(s.frames, vec![[0x81, 0x01, 0xff]]);
    let s = half.sense(Role::Peripheral, &snapshot(&[(1, 1)]), true);
    assert!(s.events.is_empty());
    let s = half.sense(Role::Peripheral, &snapshot(&[(1, 1)]), false);
    assert_eq!(s.events, vec![KeyEvent::Release(3, 0)]);
    assert!(s.frames.is_empty());
}

#[test]
fn received_event_drives_the_main_layout() {
    let mut layout = LayoutEngine::new(LAYERS).unwrap();
    let mut window = FrameWindow::new();
    // a stray byte, then a press of (0, 11) from the other half
    assert_eq!(receive(&mut layout, &mut window, 0x42), None);
    for b in [0x80, 11, 0xff] {
        let _ = receive(&mut layout, &mut window, b);
    }
    let codes = drive_layout(&mut layout, &vec![]);
    assert!(has(&codes, KeyCode::P));
}

#[test]
fn hold_tap_released_early_taps() {
    let mut layout = LayoutEngine::new(LAYERS).unwrap();
    let codes = drive_layout(&mut layout, &vec![KeyEvent::Press(0, 0)]);
    assert!(codes.is_empty());
    for _ in 0..50 {
        assert!(drive_layout(&mut layout, &vec![]).is_empty());
    }
    let codes = drive_layout(&mut layout, &vec![KeyEvent::Release(0, 0)]);
    assert!(has(&codes, KeyCode::Enter));
    assert!(!has(&codes, KeyCode::LShift));
    for _ in 0..300 {
        let codes = drive_layout(&mut layout, &vec![]);
        assert!(codes.is_empty());
    }
}

#[test]
fn hold_tap_held_past_timeout_holds() {
    let mut layout = LayoutEngine::new(LAYERS).unwrap();
    let mut held_at = None;
    for tick in 0..400 {
        let events = if tick == 0 {
            vec![KeyEvent::Press(0, 0)]
        } else {
            vec![]
        };
        let codes = drive_layout(&mut layout, &events);
        assert!(!has(&codes, KeyCode::Enter));
        if has(&codes, KeyCode::LShift) {
            if held_at.is_none() {
                held_at = Some(tick);
            }
        } else {
            assert!(held_at.is_none());
        }
    }
    let held_at = held_at.unwrap();
    assert!(held_at >= 190 && held_at <= 200);
    let codes = drive_layout(&mut layout, &vec![KeyEvent::Release(0, 0)]);
    assert!(!has(&codes, KeyCode::Enter));
    let codes = drive_layout(&mut layout, &vec![]);
    assert!(codes.is_empty());
}

#[test]
fn layout_codes_reach_the_report_builder() {
    let mut half = Half::new(true, 1);
    let mut layout = LayoutEngine::new(LAYERS).unwrap();
    let s = half.sense(Role::Main, &snapshot(&[(0, 1), (1, 2)]), false);
    // the layout takes one queued event per tick
    let codes = drive_layout(&mut layout, &s.events);
    assert_eq!(codes, vec![KeyCode::A as u8]);
    let r = half.report(Role::Main, &codes).unwrap();
    assert_eq!(r.keys, [KeyCode::A as u8, 0, 0, 0, 0, 0]);
    let codes = drive_layout(&mut layout, &vec![]);
    assert_eq!(codes, vec![KeyCode::A as u8, KeyCode::A as u8, KeyCode::S as u8]);
    let r = half.report(Role::Main, &codes).unwrap();
    // repeated codes are kept once, in the order they came
    assert_eq!(r.keys, [KeyCode::A as u8, KeyCode::S as u8, 0, 0, 0, 0]);
}

#[test]
fn forwarded_frames_decode_to_their_events() {
    let mut periph = Half::new(false, 1);
    let s = periph.sense(Role::Peripheral, &snapshot(&[(0, 5), (2, 0), (3, 3)]), false);
    assert_eq!(s.frames.len(), 3);
    for (f, e) in s.frames.iter().zip(s.events.iter()) {
        assert_eq!(de(f), Ok(*e));
    }
    assert_eq!(
        s.events,
        vec![KeyEvent::Press(0, 6), KeyEvent::Press(2, 11), KeyEvent::Press(3, 8)]
    );
}

static NESTED: Layers = &[&[&[Action::HoldTap {
    timeout: 200,
    hold: &Action::HoldTap {
        timeout: 100,
        hold: &Action::KeyCode(KeyCode::LCtrl),
        tap: &Action::KeyCode(KeyCode::A),
    },
    tap: &Action::KeyCode(KeyCode::Enter),
}]]];

static HOLD_TAP_IN_MULTIPLE: Layers = &[&[&[Action::MultipleActions(&[
    Action::HoldTap {
        timeout: 200,
        hold: &Action::KeyCode(KeyCode::LShift),
        tap: &Action::KeyCode(KeyCode::Enter),
    },
    Action::KeyCode(KeyCode::A),
])]]];

static HUGE_LAYER: Layers = &[&[&[Action::Layer(usize::MAX), Action::Layer(1)]]];

static MULTIPLE_PLAIN: Layers = &[&[&[
    Action::MultipleActions(&[Action::Layer(1), Action::KeyCode(KeyCode::LShift)]),
    Action::KeyCode(KeyCode::F),
]], &[&[Action::Trans, Action::KeyCode(KeyCode::E)]]];

#[test]
fn keymaps_that_could_panic_are_refused() {
    assert!(LayoutEngine::new(NESTED).is_none());
    assert!(LayoutEngine::new(HOLD_TAP_IN_MULTIPLE).is_none());
    assert!(LayoutEngine::new(HUGE_LAYER).is_none());
    assert!(LayoutEngine::new(LAYERS).is_some());
}

#[test]
fn multiple_actions_of_plain_actions_work() {
    let mut layout = LayoutEngine::new(MULTIPLE_PLAIN).unwrap();
    assert!(drive_layout(&mut layout, &vec![KeyEvent::Press(0, 0)]).contains(&(KeyCode::LShift as u8)));
    let codes = drive_layout(&mut layout, &vec![KeyEvent::Press(0, 1)]);
    assert!(has(&codes, KeyCode::E));
    assert!(has(&codes, KeyCode::LShift));
}

use vgbd44::debounce::{Debouncer, MatrixSnapshot, COLS, ROWS};
use vgbd44::event::KeyEvent;

fn released() -> MatrixSnapshot {
    [[false; COLS]; ROWS]
}

fn with_key(row: usize, col: usize) -> MatrixSnapshot {
    let mut s = released();
    s[row][col] = true;
    s
}

#[test]
fn samples_short_of_threshold_give_no_event() {
    let mut d = Debouncer::new(5);
    let s = with_key(1, 2);
    for _ in 0..4 {
        assert!(d.update(&s).is_empty());
    }
    assert!(!d.is_pressed(1, 2));
}

#[test]
fn reaching_threshold_gives_exactly_one_event() {
    let mut d = Debouncer::new(5);
    let s = with_key(1, 2);
    for _ in 0..4 {
        assert!(d.update(&s).is_empty());
    }
    assert_eq!(d.update(&s), vec![KeyEvent::Press(1, 2)]);
    assert!(d.is_pressed(1, 2));
    for _ in 0..10 {
        assert!(d.update(&s).is_empty());
    }
}

#[test]
fn release_is_debounced_too() {
    let mut d = Debouncer::new(3);
    let s = with_key(3, 5);
    for _ in 0..3 {
        d.update(&s);
    }
    assert!(d.is_pressed(3, 5));
    let r = released();
    assert!(d.update(&r).is_empty());
    assert!(d.update(&r).is_empty());
    assert_eq!(d.update(&r), vec![KeyEvent::Release(3, 5)]);
}

#[test]
fn bounce_restarts_the_streak() {
    let mut d = Debouncer::new(5);
    let s = with_key(0, 0);
    for _ in 0..4 {
        assert!(d.update(&s).is_empty());
    }
    // one sample back at the accepted value resets the count
    assert!(d.update(&released()).is_empty());
    for _ in 0..4 {
        assert!(d.update(&s).is_empty());
    }
    assert_eq!(d.update(&s), vec![KeyEvent::Press(0, 0)]);
}

#[test]
fn simultaneous_events_come_in_row_major_order() {
    let mut d = Debouncer::new(1);
    let mut s = released();
    s[2][1] = true;
    s[0][4] = true;
    s[2][0] = true;
    assert_eq!(
        d.update(&s),
        vec![KeyEvent::Press(0, 4), KeyEvent::Press(2, 0), KeyEvent::Press(2, 1)]
    );
    let mut t = released();
    t[2][0] = true;
    assert_eq!(
        d.update(&t),
        vec![KeyEvent::Release(0, 4), KeyEvent::Release(2, 1)]
    );
}

#[test]
fn threshold_zero_flips_at_first_differing_sample() {
    let mut d = Debouncer::new(0);
    assert_eq!(d.threshold(), 0);
    assert_eq!(d.update(&with_key(3, 0)), vec![KeyEvent::Press(3, 0)]);
    assert!(d.update(&with_key(3, 0)).is_empty());
}

#[test]
fn each_key_alternates_press_and_release() {
    let mut d = Debouncer::new(2);
    let down = with_key(2, 4);
    let up = released();
    let mut seen = Vec::new();
    for s in [down, down, down, up, down, up, up, down, down, up, up] {
        seen.extend(d.update(&s));
    }
    assert_eq!(
        seen,
        vec![
            KeyEvent::Press(2, 4),
            KeyEvent::Release(2, 4),
            KeyEvent::Press(2, 4),
            KeyEvent::Release(2, 4),
        ]
    );
}

#[test]
fn other_keys_do_not_disturb_the_count() {
    let mut d = Debouncer::new(5);
    let mut frames = Vec::new();
    for t in 0..5 {
        let mut s = with_key(1, 2);
        // a neighbour bounces at every scan
        s[1][3] = t % 2 == 0;
        let ev = d.update(&s);
        frames.push(ev.iter().filter(|e| e.coord() == (1, 2)).count());
        if t < 4 {
            assert!(!ev.contains(&KeyEvent::Press(1, 2)));
        } else {
            assert!(ev.contains(&KeyEvent::Press(1, 2)));
        }
    }
    assert_eq!(frames, vec![0, 0, 0, 0, 1]);
}

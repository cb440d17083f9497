use vgbd44::leds::{wheel, LedCommand, Leds, Rgb, NUM_LEDS};

fn rgb(r: u8, g: u8, b: u8) -> Rgb {
    Rgb { r, g, b }
}

#[test]
fn wheel_turns_through_red_green_blue() {
    assert_eq!(wheel(0), rgb(255, 0, 0));
    assert_eq!(wheel(85), rgb(0, 255, 0));
    assert_eq!(wheel(170), rgb(0, 0, 255));
    assert_eq!(wheel(255), rgb(255, 0, 0));
    assert_eq!(wheel(128), rgb(0, 126, 129));
    assert_eq!(wheel(42), rgb(129, 126, 0));
    assert_eq!(wheel(200), rgb(90, 0, 165));
}

#[test]
fn rainbow_draws_every_tenth_tick() {
    let mut l = Leds::new();
    for _ in 0..9 {
        assert_eq!(l.step(), None);
    }
    let f = l.step().unwrap();
    assert_eq!(f.len(), NUM_LEDS);
    assert_eq!(f[0], rgb(255, 0, 0));
    assert_eq!(f[1], wheel(42));
    assert_eq!(f[3], wheel(128));
    assert_eq!(f[5], wheel(213));
    for _ in 0..9 {
        assert_eq!(l.step_rainbow(), None);
    }
    let g = l.step_rainbow().unwrap();
    assert_eq!(g[0], wheel(1));
    assert_eq!(g[2], wheel(86));
}

#[test]
fn blink_alternates_every_five_hundred_ticks() {
    let mut l = Leds::new();
    for _ in 0..499 {
        assert_eq!(l.step_blink(), None);
    }
    assert_eq!(l.step_blink(), Some(vec![rgb(0, 0, 0); 6]));
    for _ in 0..499 {
        assert_eq!(l.step_blink(), None);
    }
    assert_eq!(l.step_blink(), Some(vec![rgb(0x10, 0x10, 0x10); 6]));
}

#[test]
fn switched_off_strip_does_not_animate() {
    let mut l = Leds::new();
    assert_eq!(l.turn_off(), vec![rgb(0, 0, 0); 6]);
    for _ in 0..20 {
        assert_eq!(l.step(), None);
    }
    l.turn_on();
    for _ in 0..9 {
        assert_eq!(l.step(), None);
    }
    assert!(l.step().is_some());
}

#[test]
fn solid_colour_stops_the_animation() {
    let mut l = Leds::new();
    assert_eq!(l.solid(1, 2, 3), vec![rgb(1, 2, 3); 6]);
    for _ in 0..20 {
        assert_eq!(l.step(), None);
    }
    assert_eq!(l.off(), vec![rgb(0, 0, 0); 6]);
}

#[test]
fn led_commands_compare_by_value() {
    assert_eq!(LedCommand::Solid(rgb(1, 2, 3)), LedCommand::Solid(rgb(1, 2, 3)));
    assert_ne!(LedCommand::Breathing(rgb(1, 2, 3)), LedCommand::Solid(rgb(1, 2, 3)));
    assert_ne!(LedCommand::Off, LedCommand::Solid(rgb(0, 0, 0)));
}

use vgbd44::event::KeyEvent;
use vgbd44::link::{de, ser, FrameWindow, FramingError};

#[test]
fn press_frame_has_high_bit_set() {
    assert_eq!(ser(KeyEvent::Press(0, 0)), [0x80, 0x00, 0xff]);
    assert_eq!(ser(KeyEvent::Press(3, 11)), [0x83, 0x0b, 0xff]);
}

#[test]
fn release_frame_has_high_bit_clear() {
    assert_eq!(ser(KeyEvent::Release(2, 7)), [0x02, 0x07, 0xff]);
}

#[test]
fn every_valid_event_round_trips() {
    for row in 0..4u8 {
        for col in 0..12u8 {
            for e in [KeyEvent::Press(row, col), KeyEvent::Release(row, col)] {
                assert_eq!(de(&ser(e)), Ok(e));
            }
        }
    }
}

#[test]
fn window_without_terminator_is_a_framing_error() {
    assert_eq!(de(&[0x80, 0x00, 0x00]), Err(FramingError));
    assert_eq!(de(&[0x80, 0xff, 0x12]), Err(FramingError));
}

#[test]
fn decode_masks_the_press_bit() {
    assert_eq!(de(&[0x81, 0x05, 0xff]), Ok(KeyEvent::Press(1, 5)));
    assert_eq!(de(&[0x01, 0x05, 0xff]), Ok(KeyEvent::Release(1, 5)));
}

#[test]
fn window_reports_complete_frames_only() {
    let mut w = FrameWindow::new();
    assert_eq!(w.push(0x80), None);
    assert_eq!(w.push(0x00), None);
    assert_eq!(w.push(0xff), Some(KeyEvent::Press(0, 0)));
    assert_eq!(w.push(0x02), None);
    assert_eq!(w.push(0x04), None);
    assert_eq!(w.push(0xff), Some(KeyEvent::Release(2, 4)));
}

#[test]
fn window_resynchronises_after_a_lost_byte() {
    let mut w = FrameWindow::new();
    // the first byte of a frame is lost: the remainder is misread once
    assert_eq!(w.push(0x05), None);
    assert_eq!(w.push(0xff), Some(KeyEvent::Release(0, 5)));
    // the next frame arrives whole and is read as sent
    for (i, b) in ser(KeyEvent::Press(1, 9)).iter().enumerate() {
        let r = w.push(*b);
        if i < 2 {
            assert_eq!(r, None);
        } else {
            assert_eq!(r, Some(KeyEvent::Press(1, 9)));
        }
    }
}

use vstd::prelude::*;
use crate::event::KeyEvent;

verus! {

/// Row of the matrix position at which the boot button reports.
pub const BOOT_ROW: u8 = 3;

/// Column of the matrix position at which the boot button reports.
pub const BOOT_COL: u8 = 0;

/// The event that a change of the boot button from `last` to `now` gives.
pub open spec fn boot_event(last: bool, now: bool) -> Option<KeyEvent> {
    if !last && now {
        Some(KeyEvent::Press(BOOT_ROW, BOOT_COL))
    } else if last && !now {
        Some(KeyEvent::Release(BOOT_ROW, BOOT_COL))
    } else {
        None
    }
}

/// The auxiliary boot button: a single input compared with its previous
/// level at each scan, without streak counting.
pub struct BootButton {
    last: bool,
}

impl BootButton {
    pub closed spec fn last_level(&self) -> bool {
        self.last
    }

    /// A button last seen released.
    pub fn new() -> (b: BootButton)
        ensures
            b.last_level() == false,
    {
        BootButton { last: Self::default_state() }
    }

    /// The level a button is taken to have before its first scan.
    pub fn default_state() -> (s: bool)
        ensures
            s == false,
    {
        false
    }

    /// The event of a change of level from `last` to `now`.
    pub fn emit_event(last: bool, now: bool) -> (e: Option<KeyEvent>)
        ensures
            e == boot_event(last, now),
    {
        match (last, now) {
            (false, true) => Some(KeyEvent::Press(BOOT_ROW, BOOT_COL)),
            (true, false) => Some(KeyEvent::Release(BOOT_ROW, BOOT_COL)),
            _ => None,
        }
    }

    /// Takes the level sampled at this scan; returns the event of its
    /// change, if it changed.
    pub fn update(&mut self, now: bool) -> (e: Option<KeyEvent>)
        ensures
            e == boot_event(old(self).last_level(), now),
            final(self).last_level() == now,
    {
        let e = Self::emit_event(self.last, now);
        if e.is_some() {
            self.last = now;
        }
        e
    }
}

} // verus!

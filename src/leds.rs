use vstd::prelude::*;

verus! {

/// LEDs on the strip.
pub const NUM_LEDS: usize = 6;

/// Scheduling ticks between two frames of the rainbow.
pub const RAINBOW_PERIOD: u16 = 10;

/// Scheduling ticks between two frames of the blink.
pub const BLINK_PERIOD: u16 = 500;

/// The rainbow counter starts over once it passes this value.
pub const RAINBOW_WRAP: u16 = 1280;

/// Level of each channel of a lit blink frame.
pub const BLINK_LEVEL: u8 = 0x10;

/// The colour of one LED.
#[derive(Clone, Copy, Debug, PartialEq, Eq, Structural)]
pub struct Rgb {
    pub r: u8,
    pub g: u8,
    pub b: u8,
}

/// What the strip is asked to show.
#[derive(Clone, Copy, Debug, PartialEq, Eq, Structural)]
pub enum LedCommand {
    Solid(Rgb),
    Breathing(Rgb),
    Off,
}

/// The colour wheel: red to green to blue and back to red as `pos` runs
/// from 0 to 255.
pub open spec fn wheel_spec(pos: u8) -> Rgb {
    let p = 255 - pos;
    if p < 85 {
        Rgb { r: (255 - p * 3) as u8, g: 0, b: (p * 3) as u8 }
    } else if p < 170 {
        let q = p - 85;
        Rgb { r: 0, g: (q * 3) as u8, b: (255 - q * 3) as u8 }
    } else {
        let q = p - 170;
        Rgb { r: (q * 3) as u8, g: (255 - q * 3) as u8, b: 0 }
    }
}

/// Position on the wheel of LED `i` when the rainbow counter is `counter`:
/// the LEDs are spread evenly round the wheel.
pub open spec fn rainbow_pos(i: int, counter: u16) -> u8 {
    (((i * 256 / 6 + counter) % 65536) % 256) as u8
}

/// Every LED showing `c`.
pub open spec fn uniform(c: Rgb) -> Seq<Rgb> {
    Seq::new(NUM_LEDS as nat, |i: int| c)
}

/// The rainbow frame for counter value `counter`.
pub open spec fn rainbow_frame(counter: u16) -> Seq<Rgb> {
    Seq::new(NUM_LEDS as nat, |i: int| wheel_spec(rainbow_pos(i, counter)))
}

pub open spec fn black() -> Rgb {
    Rgb { r: 0, g: 0, b: 0 }
}

/// Colour of the wheel at `pos`.
pub fn wheel(pos: u8) -> (c: Rgb)
    ensures
        c == wheel_spec(pos),
{
    let p = 255 - pos;
    if p < 85 {
        return Rgb { r: 255 - p * 3, g: 0, b: p * 3 };
    }
    if p < 170 {
        let q = p - 85;
        return Rgb { r: 0, g: q * 3, b: 255 - q * 3 };
    }
    let q = p - 170;
    Rgb { r: q * 3, g: 255 - q * 3, b: 0 }
}

fn uniform_frame(c: Rgb) -> (f: Vec<Rgb>)
    ensures
        f@ == uniform(c),
{
    let mut f: Vec<Rgb> = Vec::new();
    let mut i: usize = 0;
    while i < NUM_LEDS
        invariant
            i <= NUM_LEDS,
            f@ == Seq::new(i as nat, |j: int| c),
        decreases NUM_LEDS - i,
    {
        f.push(c);
        i = i + 1;
        assert(f@ =~= Seq::new(i as nat, |j: int| c));
    }
    f
}

/// Animation state of the LED strip; each method that changes what the
/// strip shows returns the frame to write to it.
pub struct Leds {
    counter: u16,
    step_ms: u16,
    on: bool,
}

impl Leds {
    pub closed spec fn counter_view(&self) -> u16 {
        self.counter
    }

    pub closed spec fn step_view(&self) -> u16 {
        self.step_ms
    }

    pub closed spec fn on_view(&self) -> bool {
        self.on
    }

    /// A strip with the rainbow running from its start.
    pub fn new() -> (l: Leds)
        ensures
            l.counter_view() == 0,
            l.step_view() == 0,
            l.on_view(),
    {
        Leds { counter: 0, step_ms: 0, on: true }
    }

    /// Stops the animation; returns the dark frame.
    pub fn turn_off(&mut self) -> (f: Vec<Rgb>)
        ensures
            f@ == uniform(black()),
            !final(self).on_view(),
            final(self).counter_view() == old(self).counter_view(),
            final(self).step_view() == old(self).step_view(),
    {
        let f = self.off();
        self.on = false;
        f
    }

    /// Lets the animation run again.
    pub fn turn_on(&mut self)
        ensures
            final(self).on_view(),
            final(self).counter_view() == old(self).counter_view(),
            final(self).step_view() == old(self).step_view(),
    {
        self.on = true
    }

    /// One scheduling tick of the animation: the rainbow advances while the
    /// strip is on.
    pub fn step(&mut self) -> (f: Option<Vec<Rgb>>)
        ensures
            !old(self).on_view() ==> f is None && *final(self) == *old(self),
            old(self).on_view() ==> final(self).on_view(),
            old(self).on_view() ==> final(self).step_view() == (if old(self).step_view()
                == 9 {
                0
            } else {
                (old(self).step_view() + 1) % 65536
            }),
            old(self).on_view() ==> (f is Some <==> old(self).step_view() == 9),
            old(self).on_view() && old(self).step_view() == 9 ==> f->0@ == rainbow_frame(
                old(self).counter_view(),
            ),
            old(self).on_view() && old(self).step_view() != 9 ==> final(self).counter_view()
                == old(self).counter_view(),
            old(self).on_view() && old(self).step_view() == 9 ==> final(self).counter_view() == (
            if old(self).counter_view() + 1 > RAINBOW_WRAP {
                0
            } else {
                old(self).counter_view() + 1
            }) as u16,
    {
        if self.on {
            self.step_rainbow()
        } else {
            None
        }
    }

    /// Advances the rainbow by one tick; every `RAINBOW_PERIOD` ticks it
    /// returns the next frame and turns the wheel one step.
    pub fn step_rainbow(&mut self) -> (f: Option<Vec<Rgb>>)
        ensures
            final(self).on_view() == old(self).on_view(),
            (f is Some <==> (old(self).step_view() + 1) % 65536 == RAINBOW_PERIOD),
            f is None ==> final(self).step_view() == (old(self).step_view() + 1) % 65536
                && final(self).counter_view() == old(self).counter_view(),
            f is Some ==> final(self).step_view() == 0,
            f is Some ==> f->0@ == rainbow_frame(old(self).counter_view()),
            f is Some ==> final(self).counter_view() == (if (old(self).counter_view() + 1)
                % 65536 > RAINBOW_WRAP {
                0
            } else {
                (old(self).counter_view() + 1) % 65536
            }),
    {
        self.step_ms = self.step_ms.wrapping_add(1);
        if self.step_ms != RAINBOW_PERIOD {
            return None;
        }
        self.step_ms = 0;
        let counter = self.counter;
        let mut f: Vec<Rgb> = Vec::new();
        let mut i: usize = 0;
        while i < NUM_LEDS
            invariant
                i <= NUM_LEDS,
                f@ == Seq::new(i as nat, |j: int| wheel_spec(rainbow_pos(j, counter))),
            decreases NUM_LEDS - i,
        {
            let offset: u16 = (i as u16) * 256 / 6;
            let pos = (offset.wrapping_add(counter) & 255) as u8;
            assert(pos == rainbow_pos(i as int, counter)) by {
                let w = offset.wrapping_add(counter);
                assert(w & 255 == w % 256) by (bit_vector);
            }
            f.push(wheel(pos));
            i = i + 1;
            assert(f@ =~= Seq::new(i as nat, |j: int| wheel_spec(rainbow_pos(j, counter))));
        }
        self.counter = self.counter.wrapping_add(1);
        if self.counter > RAINBOW_WRAP {
            self.counter = 0;
        }
        Some(f)
    }

    /// Advances the blink by one tick; every `BLINK_PERIOD` ticks it
    /// returns the next frame, lit on odd counts and dark on even ones.
    pub fn step_blink(&mut self) -> (f: Option<Vec<Rgb>>)
        ensures
            final(self).on_view() == old(self).on_view(),
            (f is Some <==> (old(self).step_view() + 1) % 65536 == BLINK_PERIOD),
            f is None ==> final(self).step_view() == (old(self).step_view() + 1) % 65536
                && final(self).counter_view() == old(self).counter_view(),
            f is Some ==> final(self).step_view() == 0,
            f is Some ==> final(self).counter_view() == (old(self).counter_view() + 1) % 65536,
            f is Some ==> f->0@ == (if old(self).counter_view() % 2 == 1 {
                uniform(Rgb { r: BLINK_LEVEL, g: BLINK_LEVEL, b: BLINK_LEVEL })
            } else {
                uniform(black())
            }),
    {
        self.step_ms = self.step_ms.wrapping_add(1);
        if self.step_ms != BLINK_PERIOD {
            return None;
        }
        self.step_ms = 0;
        let counter = self.counter;
        assert(counter & 1 == counter % 2) by (bit_vector);
        let f = if self.counter & 1 != 0 {
            uniform_frame(Rgb { r: BLINK_LEVEL, g: BLINK_LEVEL, b: BLINK_LEVEL })
        } else {
            uniform_frame(Rgb { r: 0, g: 0, b: 0 })
        };
        self.counter = self.counter.wrapping_add(1);
        Some(f)
    }

    /// Stops the animation and shows one colour on every LED.
    pub fn solid(&mut self, r: u8, g: u8, b: u8) -> (f: Vec<Rgb>)
        ensures
            f@ == uniform(Rgb { r, g, b }),
            !final(self).on_view(),
            final(self).counter_view() == old(self).counter_view(),
            final(self).step_view() == old(self).step_view(),
    {
        self.on = false;
        uniform_frame(Rgb { r, g, b })
    }

    /// The dark frame.
    pub fn off(&self) -> (f: Vec<Rgb>)
        ensures
            f@ == uniform(black()),
    {
        uniform_frame(Rgb { r: 0, g: 0, b: 0 })
    }
}

} // verus!

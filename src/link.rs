use vstd::prelude::*;
use crate::event::KeyEvent;

verus! {

/// Last byte of every frame; no coordinate byte may take this value.
pub const TERMINATOR: u8 = 0xff;

/// Bit of the first byte that marks a press.
pub const PRESS_BIT: u8 = 0x80;

/// Bits of the first byte that hold the row.
pub const ROW_MASK: u8 = 0x7f;

/// A window of three bytes that does not end in the terminator.
#[derive(Clone, Copy, Debug, PartialEq, Eq, Structural)]
pub struct FramingError;

/// The three bytes that carry `e` over the link.
pub open spec fn frame_of(e: KeyEvent) -> Seq<u8> {
    match e {
        KeyEvent::Press(i, j) => seq![i | PRESS_BIT, j, TERMINATOR],
        KeyEvent::Release(i, j) => seq![i, j, TERMINATOR],
    }
}

/// What a window of three bytes decodes to.
pub open spec fn decoded(w: Seq<u8>) -> Result<KeyEvent, FramingError>
    recommends
        w.len() == 3,
{
    if w[2] != TERMINATOR {
        Err(FramingError)
    } else if w[0] & PRESS_BIT != 0 {
        Ok(KeyEvent::Press(w[0] & ROW_MASK, w[1]))
    } else {
        Ok(KeyEvent::Release(w[0] & ROW_MASK, w[1]))
    }
}

/// The window after byte `b` arrives: the oldest byte drops out.
pub open spec fn shifted(w: Seq<u8>, b: u8) -> Seq<u8> {
    seq![w[1], w[2], b]
}

/// Encodes an event as a link frame; the high bit of the first byte tells
/// a press from a release.
pub fn ser(e: KeyEvent) -> (f: [u8; 3])
    ensures
        f@ == frame_of(e),
{
    match e {
        KeyEvent::Press(i, j) => [i | PRESS_BIT, j, TERMINATOR],
        KeyEvent::Release(i, j) => [i, j, TERMINATOR],
    }
}

/// Decodes a window of three bytes; fails unless the last is the terminator.
pub fn de(w: &[u8; 3]) -> (r: Result<KeyEvent, FramingError>)
    ensures
        r == decoded(w@),
{
    if w[2] != TERMINATOR {
        Err(FramingError)
    } else if w[0] & PRESS_BIT != 0 {
        Ok(KeyEvent::Press(w[0] & ROW_MASK, w[1]))
    } else {
        Ok(KeyEvent::Release(w[0] & ROW_MASK, w[1]))
    }
}

/// The last three bytes received over the link.
pub struct FrameWindow {
    buf: [u8; 3],
}

impl FrameWindow {
    pub closed spec fn view_bytes(&self) -> Seq<u8> {
        self.buf@
    }

    pub fn new() -> (w: FrameWindow)
        ensures
            w.view_bytes() == seq![0u8, 0u8, 0u8],
    {
        let w = FrameWindow { buf: [0, 0, 0] };
        assert(w.view_bytes() =~= seq![0u8, 0u8, 0u8]);
        w
    }

    /// Slides byte `b` into the window; returns the event of the frame that
    /// the window then holds, if it holds one.
    pub fn push(&mut self, b: u8) -> (r: Option<KeyEvent>)
        requires
            old(self).view_bytes().len() == 3,
        ensures
            final(self).view_bytes() == shifted(old(self).view_bytes(), b),
            r == (match decoded(final(self).view_bytes()) {
                Ok(e) => Some(e),
                Err(_) => None::<KeyEvent>,
            }),
    {
        self.buf = [self.buf[1], self.buf[2], b];
        assert(self.buf@ =~= shifted(old(self).view_bytes(), b));
        if b == TERMINATOR {
            match de(&self.buf) {
                Ok(e) => Some(e),
                Err(_) => None,
            }
        } else {
            None
        }
    }
}

/// Every event whose row fits in seven bits decodes back from its frame.
pub proof fn lemma_round_trip(e: KeyEvent)
    requires
        e.row_of() < 0x80,
    ensures
        frame_of(e).len() == 3,
        decoded(frame_of(e)) == Ok::<KeyEvent, FramingError>(e),
{
    match e {
        KeyEvent::Press(i, j) => {
            assert((i | 0x80u8) & 0x80u8 != 0 && (i | 0x80u8) & 0x7fu8 == i) by (bit_vector)
                requires
                    i < 0x80u8,
            ;
        },
        KeyEvent::Release(i, j) => {
            assert(i & 0x80u8 == 0 && i & 0x7fu8 == i) by (bit_vector)
                requires
                    i < 0x80u8,
            ;
        },
    }
}

/// Whatever the window held, the three bytes of a frame leave exactly that
/// frame in it: a corrupted byte is forgotten after three arrivals.
pub proof fn lemma_resync(w: Seq<u8>, e: KeyEvent)
    requires
        w.len() == 3,
    ensures
        shifted(shifted(shifted(w, frame_of(e)[0]), frame_of(e)[1]), frame_of(e)[2])
            == frame_of(e),
{
    let f = frame_of(e);
    assert(shifted(shifted(shifted(w, f[0]), f[1]), f[2]) =~= f);
}

} // verus!

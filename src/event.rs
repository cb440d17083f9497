use vstd::prelude::*;

verus! {

/// Highest column index of the unified matrix that both halves share.
pub const MAX_COL: u8 = 11;

/// A key transition at a `(row, col)` intersection of the matrix.
#[derive(Clone, Copy, Debug, PartialEq, Eq, Structural)]
pub enum KeyEvent {
    Press(u8, u8),
    Release(u8, u8),
}

impl KeyEvent {
    pub open spec fn row_of(self) -> u8 {
        match self {
            KeyEvent::Press(r, _) => r,
            KeyEvent::Release(r, _) => r,
        }
    }

    pub open spec fn col_of(self) -> u8 {
        match self {
            KeyEvent::Press(_, c) => c,
            KeyEvent::Release(_, c) => c,
        }
    }

    /// The same kind of transition at another intersection.
    pub open spec fn moved(self, row: u8, col: u8) -> KeyEvent {
        match self {
            KeyEvent::Press(_, _) => KeyEvent::Press(row, col),
            KeyEvent::Release(_, _) => KeyEvent::Release(row, col),
        }
    }

    /// Row and column of the event.
    pub fn coord(self) -> (r: (u8, u8))
        ensures
            r == (self.row_of(), self.col_of()),
    {
        match self {
            KeyEvent::Press(i, j) => (i, j),
            KeyEvent::Release(i, j) => (i, j),
        }
    }

    pub fn is_press(self) -> (r: bool)
        ensures
            r == (self is Press),
    {
        match self {
            KeyEvent::Press(_, _) => true,
            KeyEvent::Release(_, _) => false,
        }
    }
}

/// How a half maps its own matrix into the unified one: the identity on
/// one half, a mirror of the columns on the other.
#[derive(Clone, Copy, Debug, PartialEq, Eq, Structural)]
pub enum Transform {
    Identity,
    Mirror,
}

impl Transform {
    pub open spec fn spec_apply(self, e: KeyEvent) -> KeyEvent {
        match self {
            Transform::Identity => e,
            Transform::Mirror => e.moved(e.row_of(), (MAX_COL - e.col_of()) as u8),
        }
    }

    /// Picks the transform from the identity pin sensed at start-up.
    pub fn for_half(is_left: bool) -> (t: Transform)
        ensures
            is_left ==> t == Transform::Identity,
            !is_left ==> t == Transform::Mirror,
    {
        if is_left {
            Transform::Identity
        } else {
            Transform::Mirror
        }
    }

    /// Maps an event of this half into the unified matrix.
    pub fn apply(self, e: KeyEvent) -> (r: KeyEvent)
        requires
            self == Transform::Mirror ==> e.col_of() <= MAX_COL,
        ensures
            r == self.spec_apply(e),
    {
        match self {
            Transform::Identity => e,
            Transform::Mirror => match e {
                KeyEvent::Press(i, j) => KeyEvent::Press(i, MAX_COL - j),
                KeyEvent::Release(i, j) => KeyEvent::Release(i, MAX_COL - j),
            },
        }
    }
}

/// Mirroring is an involution: mirroring a mirrored event gives the event
/// back, for every column of the unified matrix.
pub proof fn lemma_mirror_involution(e: KeyEvent)
    requires
        e.col_of() <= MAX_COL,
    ensures
        Transform::Mirror.spec_apply(e).col_of() <= MAX_COL,
        Transform::Mirror.spec_apply(Transform::Mirror.spec_apply(e)) == e,
{
}

} // verus!

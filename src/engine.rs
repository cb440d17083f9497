use vstd::prelude::*;
use crate::event::KeyEvent;
use crate::link::{decoded, shifted, FrameWindow};
use keyberon::action::Action;
use keyberon::layout::{Layers, Layout};

verus! {

/// keyberon's layout engine: layers, hold-tap timers and the state of
/// every key that is down.
#[verifier::external_type_specification]
#[verifier::external_body]
pub struct ExLayout(keyberon::layout::Layout);

/// An action that a keymap binds to a key.
#[verifier::external_type_specification]
#[verifier::external_body]
pub struct ExAction(keyberon::action::Action);

/// Layer numbers of a keymap stay below this bound, so that the sum of the
/// layers held at once cannot overflow.
pub const LAYER_LIMIT: usize = 256;

/// What the keymap check reads of an action.
pub enum ActionShape {
    /// A hold-tap, with its hold and its tap action.
    HoldTap(&'static Action, &'static Action),
    /// Several actions done at once.
    Multiple(&'static [Action]),
    /// A momentary layer.
    Layer(usize),
    /// Any action that starts no other action.
    Other,
}

/// The shape of action `a`.
pub uninterp spec fn action_shape(a: Action) -> ActionShape;

/// The key codes, as HID usage bytes, that layout `l` holds active, in the
/// order in which it lists them.
pub uninterp spec fn active_keycodes(l: Layout) -> Seq<u8>;

/// The keymap, indexed by layer, row and column, that layout `l` resolves
/// key presses through.
pub uninterp spec fn keymap_of(l: Layout) -> Seq<Seq<Seq<Action>>>;

/// Layout `l` after it has been handed event `e`.
pub uninterp spec fn after_event(l: Layout, e: KeyEvent) -> Layout;

/// Layout `l` after one tick.
pub uninterp spec fn after_tick(l: Layout) -> Layout;

/// An action that starts no other action: neither a hold-tap nor several
/// actions at once, and a layer number below the bound.
pub open spec fn plain(a: Action) -> bool {
    match action_shape(a) {
        ActionShape::HoldTap(_, _) => false,
        ActionShape::Multiple(_) => false,
        ActionShape::Layer(n) => n < LAYER_LIMIT,
        ActionShape::Other => true,
    }
}

/// An action that keyberon's layout handles without panicking: a hold-tap
/// must hold and tap plain actions, and several actions at once must all
/// be plain, so that no hold-tap starts while another one is pending.
pub open spec fn cell_ok(a: Action) -> bool {
    match action_shape(a) {
        ActionShape::HoldTap(hold, tap) => plain(*hold) && plain(*tap),
        ActionShape::Multiple(v) => all_plain(v@),
        ActionShape::Layer(n) => n < LAYER_LIMIT,
        ActionShape::Other => true,
    }
}

pub open spec fn all_plain(v: Seq<Action>) -> bool {
    forall|i: int| 0 <= i < v.len() ==> plain(#[trigger] v[i])
}

pub open spec fn keymap_ok(k: Seq<Seq<Seq<Action>>>) -> bool {
    forall|i: int, j: int, m: int|
        0 <= i < k.len() && 0 <= j < k[i].len() && 0 <= m < k[i][j].len() ==> cell_ok(
            #[trigger] k[i][j][m],
        )
}

/// The keymap `layers` as nested sequences.
pub open spec fn keymap_view(layers: Layers) -> Seq<Seq<Seq<Action>>> {
    Seq::new(
        layers@.len(),
        |i: int| Seq::new(layers@[i]@.len(), |j: int| layers@[i]@[j]@),
    )
}

/// Layout `l` after it has been handed each event of `es` in turn.
pub open spec fn fed(l: Layout, es: Seq<KeyEvent>) -> Layout
    decreases es.len(),
{
    if es.len() == 0 {
        l
    } else {
        after_event(fed(l, es.drop_last()), es.last())
    }
}

/// Relies on the variants of keyberon::action::Action: tells a hold-tap, a
/// multiple action and a layer from the others, moving their fields.
#[verifier::external_body]
fn shape_of(a: &'static Action) -> (s: ActionShape)
    ensures
        s == action_shape(*a),
{
    match *a {
        Action::HoldTap { hold, tap, .. } => ActionShape::HoldTap(hold, tap),
        Action::MultipleActions(v) => ActionShape::Multiple(v),
        Action::Layer(n) => ActionShape::Layer(n),
        _ => ActionShape::Other,
    }
}

/// Relies on keyberon::layout::Layout::new: the new layout resolves
/// presses through `layers`.
#[verifier::external_body]
fn new_layout(layers: Layers) -> (l: Layout)
    ensures
        keymap_of(l) == keymap_view(layers),
{
    Layout::new(layers)
}

/// Relies on keyberon::layout::Layout::event: hands a press or release to
/// the layout, which queues it for its next tick (or, when its queue of
/// sixteen events is full, handles the oldest one at once). The new state
/// depends on the old one and the event alone, and the keymap stays.
///
/// The layout asserts when a hold-tap starts while another one is pending
/// (layout.rs, `do_action`), which a keymap of well-formed cells rules out.
#[verifier::external_body]
fn layout_event(layout: &mut Layout, e: KeyEvent)
    requires
        keymap_ok(keymap_of(*old(layout))),
    ensures
        *final(layout) == after_event(*old(layout), e),
        keymap_of(*final(layout)) == keymap_of(*old(layout)),
{
    let e = match e {
        KeyEvent::Press(i, j) => keyberon::layout::Event::Press(i, j),
        KeyEvent::Release(i, j) => keyberon::layout::Event::Release(i, j),
    };
    let _ = layout.event(e);
}

/// Relies on keyberon::layout::Layout::tick: advances the layout's timers
/// by one tick and, unless a hold-tap is pending, handles the oldest queued
/// event. The new state depends on the old one alone, and the keymap stays.
/// The keymap condition is the one of `layout_event`.
#[verifier::external_body]
fn layout_tick(layout: &mut Layout)
    requires
        keymap_ok(keymap_of(*old(layout))),
    ensures
        *final(layout) == after_tick(*old(layout)),
        keymap_of(*final(layout)) == keymap_of(*old(layout)),
{
    let _ = layout.tick();
}

/// Relies on keyberon::layout::Layout::keycodes: lists the key codes of the
/// layout's current state, each as its usage byte.
#[verifier::external_body]
fn layout_keycodes(layout: &Layout) -> (codes: Vec<u8>)
    ensures
        codes@ == active_keycodes(*layout),
{
    layout.keycodes().map(|k| k as u8).collect()
}

/// Whether `a` is plain.
fn check_plain(a: &'static Action) -> (r: bool)
    ensures
        r == plain(*a),
{
    match shape_of(a) {
        ActionShape::HoldTap(_, _) => false,
        ActionShape::Multiple(_) => false,
        ActionShape::Layer(n) => n < LAYER_LIMIT,
        ActionShape::Other => true,
    }
}

/// Whether the action bound to a key is well formed.
fn check_cell(a: &'static Action) -> (r: bool)
    ensures
        r == cell_ok(*a),
{
    match shape_of(a) {
        ActionShape::HoldTap(hold, tap) => check_plain(hold) && check_plain(tap),
        ActionShape::Multiple(v) => {
            let mut i: usize = 0;
            while i < v.len()
                invariant
                    action_shape(*a) == ActionShape::Multiple(v),
                    i <= v@.len(),
                    forall|m: int| 0 <= m < i ==> plain(#[trigger] v@[m]),
                decreases v@.len() - i,
            {
                if !check_plain(&v[i]) {
                    assert(!all_plain(v@));
                    return false;
                }
                i = i + 1;
            }
            true
        },
        ActionShape::Layer(n) => n < LAYER_LIMIT,
        ActionShape::Other => true,
    }
}

/// Whether every key of one layer is bound to a well-formed action.
fn check_layer(layer: &'static [&'static [Action]]) -> (r: bool)
    ensures
        r == forall|j: int, m: int|
            0 <= j < layer@.len() && 0 <= m < layer@[j]@.len() ==> cell_ok(
                #[trigger] layer@[j]@[m],
            ),
{
    let mut j: usize = 0;
    while j < layer.len()
        invariant
            j <= layer@.len(),
            forall|jj: int, m: int|
                0 <= jj < j && 0 <= m < layer@[jj]@.len() ==> cell_ok(#[trigger] layer@[jj]@[m]),
        decreases layer@.len() - j,
    {
        let row: &'static [Action] = layer[j];
        let mut m: usize = 0;
        while m < row.len()
            invariant
                j < layer@.len(),
                row@ == layer@[j as int]@,
                m <= row@.len(),
                forall|jj: int, mm: int|
                    0 <= jj < j && 0 <= mm < layer@[jj]@.len() ==> cell_ok(
                        #[trigger] layer@[jj]@[mm],
                    ),
                forall|mm: int| 0 <= mm < m ==> cell_ok(#[trigger] row@[mm]),
            decreases row@.len() - m,
        {
            if !check_cell(&row[m]) {
                assert(cell_ok(layer@[j as int]@[m as int]) == false);
                return false;
            }
            m = m + 1;
        }
        j = j + 1;
    }
    true
}

/// Whether every key of every layer of `layers` is bound to a well-formed
/// action.
fn check_keymap(layers: Layers) -> (r: bool)
    ensures
        r == keymap_ok(keymap_view(layers)),
{
    let mut i: usize = 0;
    while i < layers.len()
        invariant
            i <= layers@.len(),
            forall|ii: int, j: int, m: int|
                0 <= ii < i && 0 <= j < layers@[ii]@.len() && 0 <= m < layers@[ii]@[j]@.len()
                    ==> cell_ok(#[trigger] layers@[ii]@[j]@[m]),
        decreases layers@.len() - i,
    {
        if !check_layer(layers[i]) {
            proof {
                let k = keymap_view(layers);
                let (j, m) = choose|j: int, m: int|
                    0 <= j < layers@[i as int]@.len() && 0 <= m < layers@[i as int]@[j]@.len()
                        && !cell_ok(#[trigger] layers@[i as int]@[j]@[m]);
                assert(k[i as int][j][m] == layers@[i as int]@[j]@[m]);
            }
            return false;
        }
        i = i + 1;
    }
    assert forall|ii: int, j: int, m: int|
        0 <= ii < keymap_view(layers).len() && 0 <= j < keymap_view(layers)[ii].len() && 0 <= m
            < keymap_view(layers)[ii][j].len() implies cell_ok(
        #[trigger] keymap_view(layers)[ii][j][m],
    ) by {
        assert(keymap_view(layers)[ii][j][m] == layers@[ii]@[j]@[m]);
    }
    true
}

/// keyberon's layout, built from a keymap that it handles without
/// panicking.
pub struct LayoutEngine {
    layout: Layout,
}

impl LayoutEngine {
    /// The state of the layout.
    pub closed spec fn state(&self) -> Layout {
        self.layout
    }

    pub open spec fn wf(&self) -> bool {
        keymap_ok(keymap_of(self.state()))
    }

    /// Builds the layout of keymap `layers`, or nothing when some key of
    /// it is bound to an action that the layout could panic on: a hold-tap
    /// that holds or taps anything but a plain action, several actions at
    /// once that are not all plain, or a layer number out of bounds.
    pub fn new(layers: Layers) -> (r: Option<LayoutEngine>)
        ensures
            r is Some <==> keymap_ok(keymap_view(layers)),
            r matches Some(e) ==> e.wf() && keymap_of(e.state()) == keymap_view(layers),
    {
        if check_keymap(layers) {
            Some(LayoutEngine { layout: new_layout(layers) })
        } else {
            None
        }
    }
}

/// One tick of the layout engine: feeds it this tick's events in order,
/// then advances it by one tick. Returns the key codes active once the
/// events are in, followed by those active after the tick, so that a key
/// that the tick releases (the tap of a hold-tap) still reaches the host.
pub fn drive_layout(engine: &mut LayoutEngine, events: &Vec<KeyEvent>) -> (codes: Vec<u8>)
    requires
        old(engine).wf(),
    ensures
        final(engine).wf(),
        final(engine).state() == after_tick(fed(old(engine).state(), events@)),
        codes@ == active_keycodes(fed(old(engine).state(), events@)) + active_keycodes(
            final(engine).state(),
        ),
{
    let ghost start = engine.layout;
    let mut i: usize = 0;
    assert(events@.take(0) =~= Seq::<KeyEvent>::empty());
    while i < events.len()
        invariant
            i <= events@.len(),
            keymap_of(engine.layout) == keymap_of(start),
            keymap_ok(keymap_of(start)),
            engine.layout == fed(start, events@.take(i as int)),
        decreases events@.len() - i,
    {
        layout_event(&mut engine.layout, events[i]);
        assert(events@.take(i + 1).drop_last() =~= events@.take(i as int));
        i = i + 1;
    }
    assert(events@.take(events@.len() as int) =~= events@);
    let mut codes = layout_keycodes(&engine.layout);
    layout_tick(&mut engine.layout);
    let mut after = layout_keycodes(&engine.layout);
    codes.append(&mut after);
    codes
}

/// Link receive: slides `byte` into the frame window and, once the window
/// holds a valid frame, hands its event to the layout and returns it. The
/// layout is left alone otherwise.
pub fn receive(engine: &mut LayoutEngine, window: &mut FrameWindow, byte: u8) -> (r: Option<
    KeyEvent,
>)
    requires
        old(engine).wf(),
        old(window).view_bytes().len() == 3,
    ensures
        final(engine).wf(),
        final(window).view_bytes() == shifted(old(window).view_bytes(), byte),
        r == (match decoded(final(window).view_bytes()) {
            Ok(e) => Some(e),
            Err(_) => None::<KeyEvent>,
        }),
        r matches Some(e) ==> final(engine).state() == after_event(old(engine).state(), e),
        r is None ==> final(engine).state() == old(engine).state(),
{
    let r = window.push(byte);
    match r {
        Some(e) => {
            layout_event(&mut engine.layout, e);
        },
        None => {},
    }
    r
}

} // verus!

use vstd::prelude::*;
use crate::boot::{boot_event, BootButton};
use crate::debounce::{lemma_events_in_matrix, Debouncer, MatrixSnapshot, NUM_KEYS};
use crate::event::{KeyEvent, Transform};
use crate::link::{decoded, frame_of, lemma_round_trip, ser, FramingError};
use crate::report::{build, report_model, Report, ReportGate};
use crate::role::Role;

verus! {

/// What one scan of a half produced.
pub struct Sensed {
    /// Events for the layout, in the unified matrix: the matrix's events in
    /// row-major order, then the boot button's.
    pub events: Vec<KeyEvent>,
    /// Frames to send to the other half, one per matrix event.
    pub frames: Vec<[u8; 3]>,
}

/// `es` mapped into the unified matrix by `t`.
pub open spec fn transformed(t: Transform, es: Seq<KeyEvent>) -> Seq<KeyEvent> {
    es.map_values(|e: KeyEvent| t.spec_apply(e))
}

/// The boot button's event, if any, mapped into the unified matrix.
pub open spec fn boot_events(t: Transform, e: Option<KeyEvent>) -> Seq<KeyEvent> {
    match e {
        Some(b) => seq![t.spec_apply(b)],
        None => Seq::empty(),
    }
}

/// The state one half keeps between scheduling ticks, besides the layout
/// and the role, which it shares with the other handlers.
pub struct Half {
    debouncer: Debouncer,
    transform: Transform,
    boot: BootButton,
    gate: ReportGate,
}

impl Half {
    pub closed spec fn debouncer_view(&self) -> Debouncer {
        self.debouncer
    }

    pub closed spec fn transform_view(&self) -> Transform {
        self.transform
    }

    pub closed spec fn boot_view(&self) -> BootButton {
        self.boot
    }

    pub closed spec fn gate_view(&self) -> ReportGate {
        self.gate
    }

    pub open spec fn wf(&self) -> bool {
        self.debouncer_view().wf()
    }

    /// The matrix events of a scan that sampled `sample`, in the unified
    /// matrix.
    pub open spec fn matrix_events(&self, sample: MatrixSnapshot) -> Seq<KeyEvent> {
        transformed(self.transform_view(), self.debouncer_view().events_for(sample))
    }

    /// A half at start-up: `is_left` is the level of its identity pin, and
    /// a key must sample a new value `threshold` times in a row to flip.
    pub fn new(is_left: bool, threshold: u16) -> (h: Half)
        ensures
            h.wf(),
            h.debouncer_view().threshold_view() == threshold,
            h.debouncer_view().stable_view() == Seq::new(NUM_KEYS as nat, |k: int| false),
            h.debouncer_view().streak_view() == Seq::new(NUM_KEYS as nat, |k: int| 0u16),
            is_left ==> h.transform_view() == Transform::Identity,
            !is_left ==> h.transform_view() == Transform::Mirror,
            h.boot_view().last_level() == false,
            h.gate_view().last_sent().holds(report_model(Seq::empty())),
    {
        Half {
            debouncer: Debouncer::new(threshold),
            transform: Transform::for_half(is_left),
            boot: BootButton::new(),
            gate: ReportGate::new(),
        }
    }

    pub fn transform(&self) -> (t: Transform)
        ensures
            t == self.transform_view(),
    {
        self.transform
    }

    /// Scan stage of a scheduling tick: debounces the matrix sample, maps
    /// its events into the unified matrix, frames them for the other half
    /// while this half is a peripheral, then adds the boot button's event.
    pub fn sense(&mut self, role: Role, sample: &MatrixSnapshot, boot_now: bool) -> (s: Sensed)
        requires
            old(self).wf(),
        ensures
            final(self).wf(),
            old(self).debouncer_view().stepped(*sample, final(self).debouncer_view()),
            final(self).boot_view().last_level() == boot_now,
            final(self).transform_view() == old(self).transform_view(),
            final(self).gate_view() == old(self).gate_view(),
            s.events@ == old(self).matrix_events(*sample) + boot_events(
                old(self).transform_view(),
                boot_event(old(self).boot_view().last_level(), boot_now),
            ),
            role == Role::Main ==> s.frames@.len() == 0,
            role == Role::Peripheral ==> s.frames@.len() == old(self).matrix_events(
                *sample,
            ).len(),
            role == Role::Peripheral ==> forall|i: int|
                0 <= i < s.frames@.len() ==> (#[trigger] s.frames@[i])@ == frame_of(
                    old(self).matrix_events(*sample)[i],
                ),
    {
        let ghost before = self.debouncer;
        let raw = self.debouncer.update(sample);
        proof {
            lemma_events_in_matrix(
                before.stable_view(),
                before.streak_view(),
                *sample,
                before.threshold_view(),
                NUM_KEYS as nat,
            );
        }
        let ghost m = transformed(self.transform, raw@);
        let forward = !role.is_main();
        let mut events: Vec<KeyEvent> = Vec::new();
        let mut frames: Vec<[u8; 3]> = Vec::new();
        let mut i: usize = 0;
        while i < raw.len()
            invariant
                i <= raw.len(),
                m == transformed(self.transform, raw@),
                forall|j: int|
                    0 <= j < raw@.len() ==> (#[trigger] raw@[j]).col_of() < crate::debounce::COLS,
                events@ == m.take(i as int),
                forward ==> frames@.len() == i,
                !forward ==> frames@.len() == 0,
                forward ==> forall|j: int|
                    0 <= j < i ==> (#[trigger] frames@[j])@ == frame_of(m[j]),
            decreases raw.len() - i,
        {
            let e = self.transform.apply(raw[i]);
            if forward {
                frames.push(ser(e));
            }
            events.push(e);
            assert(events@ =~= m.take(i + 1));
            i = i + 1;
        }
        assert(m.take(raw.len() as int) =~= m);
        let b = self.boot.update(boot_now);
        match b {
            Some(be) => {
                events.push(self.transform.apply(be));
            },
            None => {},
        }
        assert(events@ =~= m + boot_events(self.transform, b));
        Sensed { events, frames }
    }

    /// Report stage of a scheduling tick: on the main half, builds the host
    /// report from the layout's active key codes and returns it when it
    /// differs from the report last sent; a peripheral reports nothing.
    pub fn report(&mut self, role: Role, codes: &Vec<u8>) -> (r: Option<Report>)
        ensures
            final(self).debouncer_view() == old(self).debouncer_view(),
            final(self).transform_view() == old(self).transform_view(),
            final(self).boot_view() == old(self).boot_view(),
            role == Role::Peripheral ==> r is None && final(self).gate_view() == old(
                self,
            ).gate_view(),
            role == Role::Main ==> (r is Some <==> !old(self).gate_view().last_sent().holds(
                report_model(codes@),
            )),
            role == Role::Main ==> final(self).gate_view().last_sent().holds(
                report_model(codes@),
            ),
            r matches Some(rep) ==> rep.holds(report_model(codes@)),
    {
        match role {
            Role::Peripheral => None,
            Role::Main => {
                let rep = build(codes);
                let ghost last = self.gate.last_sent();
                proof {
                    if last.holds(report_model(codes@)) {
                        assert(last.keys =~= rep.keys);
                    }
                }
                if self.gate.offer(rep) {
                    Some(rep)
                } else {
                    None
                }
            },
        }
    }
}

/// Every frame that a peripheral forwards decodes, on the other half, to
/// exactly the event that it stands for.
pub proof fn lemma_forwarded_frames_decode(h: Half, sample: MatrixSnapshot)
    ensures
        forall|i: int|
            0 <= i < h.matrix_events(sample).len() ==> decoded(
                frame_of(#[trigger] h.matrix_events(sample)[i]),
            ) == Ok::<KeyEvent, FramingError>(h.matrix_events(sample)[i]),
{
    let d = h.debouncer_view();
    lemma_events_in_matrix(
        d.stable_view(),
        d.streak_view(),
        sample,
        d.threshold_view(),
        NUM_KEYS as nat,
    );
    assert forall|i: int| 0 <= i < h.matrix_events(sample).len() implies decoded(
        frame_of(#[trigger] h.matrix_events(sample)[i]),
    ) == Ok::<KeyEvent, FramingError>(h.matrix_events(sample)[i]) by {
        lemma_round_trip(h.matrix_events(sample)[i]);
    }
}

} // verus!

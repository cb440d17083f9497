use vstd::prelude::*;

verus! {

/// Key codes that a boot-keyboard report carries at once, modifiers aside.
pub const MAX_KEYS: usize = 6;

/// First modifier key code (left control).
pub const FIRST_MODIFIER: u8 = 0xe0;

/// Last modifier key code (right GUI).
pub const LAST_MODIFIER: u8 = 0xe7;

/// The key code that stands for no key.
pub const NO_KEY: u8 = 0;

/// A boot-keyboard report: a modifier bitmask and up to six key codes,
/// unused slots holding zero.
#[derive(Clone, Copy, Debug, Eq)]
pub struct Report {
    pub modifiers: u8,
    pub keys: [u8; 6],
}

impl PartialEq for Report {
    fn eq(&self, o: &Report) -> (same: bool) {
        let mut same = self.modifiers == o.modifiers;
        let mut i: usize = 0;
        while i < MAX_KEYS
            invariant
                i <= MAX_KEYS,
                same == (self.modifiers == o.modifiers && forall|j: int|
                    0 <= j < i ==> self.keys@[j] == o.keys@[j]),
            decreases MAX_KEYS - i,
        {
            same = same && self.keys[i] == o.keys[i];
            i = i + 1;
        }
        proof {
            if same {
                assert(self.keys =~= o.keys);
            }
        }
        same
    }
}

impl vstd::std_specs::cmp::PartialEqSpecImpl for Report {
    open spec fn obeys_eq_spec() -> bool {
        true
    }

    open spec fn eq_spec(&self, o: &Report) -> bool {
        *self == *o
    }
}

pub open spec fn is_modifier(c: u8) -> bool {
    FIRST_MODIFIER <= c <= LAST_MODIFIER
}

/// The bit of the modifier byte that modifier key code `c` sets.
pub open spec fn modifier_bit(c: u8) -> u8
    recommends
        is_modifier(c),
{
    1u8 << ((c - FIRST_MODIFIER) as u8)
}

/// Adds one key code to a report under construction, given as its
/// modifier byte and its list of key codes: modifiers set their bit, other
/// codes are kept once each while room is left.
pub open spec fn add_code(m: (u8, Seq<u8>), c: u8) -> (u8, Seq<u8>) {
    if c == NO_KEY {
        m
    } else if is_modifier(c) {
        (m.0 | modifier_bit(c), m.1)
    } else if m.1.contains(c) || m.1.len() >= MAX_KEYS {
        m
    } else {
        (m.0, m.1.push(c))
    }
}

/// The modifier byte and key list that a sequence of active key codes
/// gives.
pub open spec fn report_model(codes: Seq<u8>) -> (u8, Seq<u8>)
    decreases codes.len(),
{
    if codes.len() == 0 {
        (0u8, Seq::empty())
    } else {
        add_code(report_model(codes.drop_last()), codes.last())
    }
}

/// A key list written into the six slots of a report.
pub open spec fn padded(keys: Seq<u8>) -> Seq<u8> {
    keys + Seq::new((MAX_KEYS - keys.len()) as nat, |i: int| NO_KEY)
}

impl Report {
    /// This report holds the modifier byte and key list `m`.
    pub open spec fn holds(self, m: (u8, Seq<u8>)) -> bool {
        self.modifiers == m.0 && self.keys@ == padded(m.1)
    }

    /// The report with no key down.
    pub fn empty() -> (r: Report)
        ensures
            r.holds(report_model(Seq::empty())),
    {
        let r = Report { modifiers: 0, keys: [NO_KEY; 6] };
        assert(r.keys@ =~= padded(Seq::empty()));
        r
    }

    /// The eight bytes sent to the host: modifiers, a reserved zero byte,
    /// then the six key slots.
    pub fn bytes(&self) -> (b: [u8; 8])
        ensures
            b@ == seq![self.modifiers, 0u8] + self.keys@,
    {
        let k = &self.keys;
        let b = [self.modifiers, 0, k[0], k[1], k[2], k[3], k[4], k[5]];
        assert(b@ =~= seq![self.modifiers, 0u8] + self.keys@);
        b
    }
}

/// Whether `c` is among the first `n` slots of `keys`.
fn slots_hold(keys: &[u8; 6], n: usize, c: u8) -> (r: bool)
    requires
        n <= MAX_KEYS,
    ensures
        r == keys@.take(n as int).contains(c),
{
    let mut i: usize = 0;
    while i < n
        invariant
            i <= n <= MAX_KEYS,
            forall|j: int| 0 <= j < i ==> keys@[j] != c,
        decreases n - i,
    {
        if keys[i] == c {
            assert(keys@.take(n as int)[i as int] == c);
            return true;
        }
        i = i + 1;
    }
    assert(!keys@.take(n as int).contains(c)) by {
        if keys@.take(n as int).contains(c) {
            let j = choose|j: int| 0 <= j < n && keys@.take(n as int)[j] == c;
            assert(keys@[j] == c);
        }
    }
    false
}

/// Builds the host report from the active key codes, in their order:
/// modifiers go to the bitmask, a repeated code is kept once, and codes
/// beyond the six slots are dropped.
pub fn build(codes: &Vec<u8>) -> (r: Report)
    ensures
        r.holds(report_model(codes@)),
{
    let mut modifiers: u8 = 0;
    let mut keys: [u8; 6] = [NO_KEY; 6];
    let mut n: usize = 0;
    let mut i: usize = 0;
    assert(codes@.take(0) =~= Seq::<u8>::empty());
    assert(keys@ =~= padded(Seq::empty()));
    while i < codes.len()
        invariant
            i <= codes.len(),
            n <= MAX_KEYS,
            modifiers == report_model(codes@.take(i as int)).0,
            n == report_model(codes@.take(i as int)).1.len(),
            keys@ == padded(report_model(codes@.take(i as int)).1),
        decreases codes.len() - i,
    {
        let ghost m = report_model(codes@.take(i as int));
        let c = codes[i];
        assert(codes@.take(i + 1).drop_last() =~= codes@.take(i as int));
        assert(codes@.take(i + 1).last() == c);
        assert(keys@.take(n as int) =~= m.1);
        if c == NO_KEY {
        } else if FIRST_MODIFIER <= c && c <= LAST_MODIFIER {
            modifiers = modifiers | (1u8 << (c - FIRST_MODIFIER));
        } else if n < MAX_KEYS && !slots_hold(&keys, n, c) {
            keys[n] = c;
            n = n + 1;
            assert(keys@ =~= padded(m.1.push(c)));
        }
        i = i + 1;
    }
    assert(codes@.take(codes.len() as int) =~= codes@);
    Report { modifiers, keys }
}

/// The two outcomes of offering a report to the host link: whether it is
/// sent, and the report last sent afterwards.
pub open spec fn offer_step(last: Report, r: Report) -> (bool, Report) {
    if r == last {
        (false, last)
    } else {
        (true, r)
    }
}

/// The report last sent after offering each report of `rs` in turn.
pub open spec fn last_after(last: Report, rs: Seq<Report>) -> Report
    decreases rs.len(),
{
    if rs.len() == 0 {
        last
    } else {
        offer_step(last_after(last, rs.drop_last()), rs.last()).1
    }
}

/// The reports sent while each report of `rs` is offered in turn.
pub open spec fn sent_reports(last: Report, rs: Seq<Report>) -> Seq<Report>
    decreases rs.len(),
{
    if rs.len() == 0 {
        Seq::empty()
    } else {
        let prev = sent_reports(last, rs.drop_last());
        if offer_step(last_after(last, rs.drop_last()), rs.last()).0 {
            prev.push(rs.last())
        } else {
            prev
        }
    }
}

/// Remembers the report last sent to the host, so that only changes go out.
pub struct ReportGate {
    last: Report,
}

impl ReportGate {
    pub closed spec fn last_sent(&self) -> Report {
        self.last
    }

    /// A sender that takes the host to hold the empty report.
    pub fn new() -> (g: ReportGate)
        ensures
            g.last_sent().holds(report_model(Seq::empty())),
    {
        ReportGate { last: Report::empty() }
    }

    /// Offers a freshly built report; returns whether it differs from the
    /// one last sent and must go out, in which case it is recorded as sent.
    pub fn offer(&mut self, r: Report) -> (send: bool)
        ensures
            (send, final(self).last_sent()) == offer_step(old(self).last_sent(), r),
    {
        if r == self.last {
            false
        } else {
            self.last = r;
            true
        }
    }
}

/// Two consecutive reports that reach the host always differ: each one
/// sent differs from the one sent before it, the first one from the
/// report that the host started with, and the report remembered at the
/// end is the last one sent.
pub proof fn lemma_sent_reports_differ(last: Report, rs: Seq<Report>)
    ensures
        forall|i: int|
            0 <= i < sent_reports(last, rs).len() - 1 ==> #[trigger] sent_reports(last, rs)[i]
                != sent_reports(last, rs)[i + 1],
        sent_reports(last, rs).len() > 0 ==> sent_reports(last, rs)[0] != last,
        sent_reports(last, rs).len() > 0 ==> sent_reports(last, rs).last() == last_after(
            last,
            rs,
        ),
        sent_reports(last, rs).len() == 0 ==> last_after(last, rs) == last,
    decreases rs.len(),
{
    if rs.len() > 0 {
        lemma_sent_reports_differ(last, rs.drop_last());
    }
}

} // verus!

use vstd::prelude::*;

verus! {

/// Enumeration state of the host link, as the device stack reports it.
#[derive(Clone, Copy, Debug, PartialEq, Eq, Structural)]
pub enum HostLinkState {
    Default,
    Addressed,
    Configured,
    Suspend,
}

/// Which half owns the host link.
#[derive(Clone, Copy, Debug, PartialEq, Eq, Structural)]
pub enum Role {
    /// Forwards its events over the link and never reports to the host.
    Peripheral,
    /// Reports to the host.
    Main,
}

/// The role after one host-link poll, and whether the poll made the half
/// main.
pub open spec fn role_step(r: Role, s: HostLinkState) -> (Role, bool) {
    if r == Role::Peripheral && s == HostLinkState::Configured {
        (Role::Main, true)
    } else {
        (r, false)
    }
}

/// The role after polls that observe each state of `ss` in turn.
pub open spec fn role_after(r: Role, ss: Seq<HostLinkState>) -> Role
    decreases ss.len(),
{
    if ss.len() == 0 {
        r
    } else {
        role_step(role_after(r, ss.drop_last()), ss.last()).0
    }
}

/// How many of those polls made the half main.
pub open spec fn promotions(r: Role, ss: Seq<HostLinkState>) -> nat
    decreases ss.len(),
{
    if ss.len() == 0 {
        0
    } else {
        promotions(r, ss.drop_last()) + if role_step(
            role_after(r, ss.drop_last()),
            ss.last(),
        ).1 {
            1nat
        } else {
            0nat
        }
    }
}

impl Role {
    /// Every half starts as a peripheral.
    pub fn new() -> (r: Role)
        ensures
            r == Role::Peripheral,
    {
        Role::Peripheral
    }

    pub fn is_main(&self) -> (m: bool)
        ensures
            m == (*self == Role::Main),
    {
        match self {
            Role::Main => true,
            Role::Peripheral => false,
        }
    }

    /// Host-link poll: the first time the host is seen to have configured
    /// the device, the half becomes main. Returns whether this poll did it.
    pub fn observe(&mut self, s: HostLinkState) -> (promoted: bool)
        ensures
            (*final(self), promoted) == role_step(*old(self), s),
    {
        match (*self, s) {
            (Role::Peripheral, HostLinkState::Configured) => {
                *self = Role::Main;
                true
            },
            _ => false,
        }
    }
}

/// Whatever the host link reports, a half is promoted at most once and
/// never leaves the main role; a peripheral is promoted exactly once as
/// soon as any poll sees the link configured.
pub proof fn lemma_promoted_once(r: Role, ss: Seq<HostLinkState>)
    ensures
        promotions(r, ss) <= 1,
        r == Role::Main ==> role_after(r, ss) == Role::Main && promotions(r, ss) == 0,
        r == Role::Peripheral ==> (promotions(r, ss) == 1 <==> ss.contains(
            HostLinkState::Configured,
        )),
        promotions(r, ss) == 1 ==> role_after(r, ss) == Role::Main,
        promotions(r, ss) == 0 ==> role_after(r, ss) == r,
    decreases ss.len(),
{
    if ss.len() > 0 {
        let p = ss.drop_last();
        lemma_promoted_once(r, p);
        assert(ss.contains(HostLinkState::Configured) <==> (p.contains(HostLinkState::Configured)
            || ss.last() == HostLinkState::Configured)) by {
            if ss.contains(HostLinkState::Configured) {
                let i = choose|i: int| 0 <= i < ss.len() && ss[i] == HostLinkState::Configured;
                if i < ss.len() - 1 {
                    assert(p[i] == HostLinkState::Configured);
                }
            }
            if p.contains(HostLinkState::Configured) {
                let i = choose|i: int| 0 <= i < p.len() && p[i] == HostLinkState::Configured;
                assert(ss[i] == HostLinkState::Configured);
            }
            if ss.last() == HostLinkState::Configured {
                assert(ss[ss.len() - 1] == HostLinkState::Configured);
            }
        }
    }
}

} // verus!

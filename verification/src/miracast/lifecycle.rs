//! When the peer goes away, what happens to the group and the screen.
//!
//! The group's lifetime is the service's lifetime, not the session's. A peer
//! that drops for a moment must find everything exactly as it left it: same
//! group, same credentials, and for thirty seconds the same screen.
use vstd::prelude::*;
use crate::time::{since, Instant};

verus! {

/// How long the screen stays with a peer that vanished. Long enough to cover a
/// radio blip; short enough that a room is not stuck looking at a dead cast.
/// Nanoseconds.
pub const HOLD: u64 = 30_000_000_000;

#[derive(Debug, Clone, Copy, PartialEq, Eq, Structural)]
pub enum Phase {
    /// Group up, credentials valid, listening.
    Advertising,
    Streaming,
    /// The peer vanished. The group and the screen are still theirs.
    Holding,
}

#[derive(Debug, Clone, Copy, PartialEq, Eq, Structural)]
pub enum Event {
    /// An RTSP connection was accepted. The caller has already taken the
    /// display from the arbiter if it needed to.
    Connected,
    /// Reason reported to the user elsewhere, through `SinkOut::Ended`; the
    /// machine has no use for it.
    Ended,
    /// The radio itself failed; nothing about the group can be trusted.
    RadioError,
}

#[derive(Debug, Clone, Copy, PartialEq, Eq, Structural)]
pub enum Action {
    AcquireDisplay,
    ReleaseDisplay,
    ShowReconnecting,
    ClearOverlay,
    RebuildGroup,
}

pub struct Lifecycle {
    phase: Phase,
    holding_since: Option<Instant>,
}

#[verifier::ext_equal]
pub struct LifecycleState {
    pub phase: Phase,
    pub holding_since: Option<Instant>,
}

impl View for Lifecycle {
    type V = LifecycleState;

    closed spec fn view(&self) -> LifecycleState {
        LifecycleState { phase: self.phase, holding_since: self.holding_since }
    }
}

impl LifecycleState {
    /// True while the display is ours, which is both Streaming and Holding.
    pub open spec fn holds_display(self) -> bool {
        self.phase == Phase::Streaming || self.phase == Phase::Holding
    }

    /// A hold is timed exactly while there is one.
    pub open spec fn valid(self) -> bool {
        self.holding_since is Some <==> self.phase == Phase::Holding
    }
}

/// What an event comes to.
pub open spec fn met(s: LifecycleState, e: Event, now: Instant) -> (LifecycleState, Seq<Action>) {
    if s.phase == Phase::Advertising && e == Event::Connected {
        (
            LifecycleState { phase: Phase::Streaming, ..s },
            seq![Action::AcquireDisplay, Action::ClearOverlay],
        )
    } else if s.phase == Phase::Holding && e == Event::Connected {
        // The display was never released, so it is not re-acquired.
        (
            LifecycleState { phase: Phase::Streaming, holding_since: None },
            seq![Action::ClearOverlay],
        )
    } else if s.phase == Phase::Streaming && e == Event::Ended {
        (
            LifecycleState { phase: Phase::Holding, holding_since: Some(now) },
            seq![Action::ShowReconnecting],
        )
    } else if e == Event::RadioError {
        (
            LifecycleState { phase: Phase::Advertising, holding_since: None },
            if s.holds_display() {
                seq![Action::ReleaseDisplay, Action::RebuildGroup, Action::ClearOverlay]
            } else {
                seq![Action::RebuildGroup]
            },
        )
    } else {
        (s, Seq::empty())
    }
}

/// What the passing of time comes to: a hold of thirty seconds expires.
pub open spec fn ticked(s: LifecycleState, now: Instant) -> (LifecycleState, Seq<Action>) {
    match s.holding_since {
        Some(start) if since(now, start) >= HOLD => (
            LifecycleState { phase: Phase::Advertising, holding_since: None },
            seq![Action::ReleaseDisplay, Action::ClearOverlay],
        ),
        _ => (s, Seq::empty()),
    }
}

impl Default for Lifecycle {
    fn default() -> (l: Self)
        ensures
            l@ == (LifecycleState { phase: Phase::Advertising, holding_since: None }),
    {
        Lifecycle::new()
    }
}

impl Lifecycle {
    pub fn new() -> (l: Self)
        ensures
            l@ == (LifecycleState { phase: Phase::Advertising, holding_since: None }),
    {
        Lifecycle { phase: Phase::Advertising, holding_since: None }
    }

    pub fn phase(&self) -> (p: Phase)
        ensures
            p == self@.phase,
    {
        self.phase
    }

    /// True while the display is ours, which is both Streaming and Holding.
    fn holds_display(&self) -> (r: bool)
        ensures
            r == self@.holds_display(),
    {
        self.phase == Phase::Streaming || self.phase == Phase::Holding
    }

    pub fn on(&mut self, e: Event, now: Instant) -> (out: Vec<Action>)
        ensures
            (final(self)@, out@) == met(old(self)@, e, now),
    {
        let mut out: Vec<Action> = Vec::new();
        if self.phase == Phase::Advertising && e == Event::Connected {
            self.phase = Phase::Streaming;
            out.push(Action::AcquireDisplay);
            out.push(Action::ClearOverlay);
        } else if self.phase == Phase::Holding && e == Event::Connected {
            // The display was never released, so it is not re-acquired.
            self.phase = Phase::Streaming;
            self.holding_since = None;
            out.push(Action::ClearOverlay);
        } else if self.phase == Phase::Streaming && e == Event::Ended {
            self.phase = Phase::Holding;
            self.holding_since = Some(now);
            out.push(Action::ShowReconnecting);
        } else if e == Event::RadioError {
            let held = self.holds_display();
            self.phase = Phase::Advertising;
            self.holding_since = None;
            out.push(Action::RebuildGroup);
            if held {
                out.insert(0, Action::ReleaseDisplay);
                out.push(Action::ClearOverlay);
            }
        }
        assert(out@ =~= met(old(self)@, e, now).1);
        out
    }

    pub fn tick(&mut self, now: Instant) -> (out: Vec<Action>)
        ensures
            (final(self)@, out@) == ticked(old(self)@, now),
    {
        let mut out: Vec<Action> = Vec::new();
        if let Some(start) = self.holding_since {
            if now.saturating_duration_since(start).nanos >= HOLD {
                self.phase = Phase::Advertising;
                self.holding_since = None;
                out.push(Action::ReleaseDisplay);
                out.push(Action::ClearOverlay);
            }
        }
        assert(out@ =~= ticked(old(self)@, now).1);
        out
    }
}

// ---- laws ----

/// A hold is timed exactly while there is one, in every state that is reached.
pub proof fn law_holds_are_timed(s: LifecycleState, e: Event, now: Instant)
    requires
        s.valid(),
    ensures
        met(s, e, now).0.valid(),
        ticked(s, now).0.valid(),
{
}

/// Whether a step took or gave back the display exactly when its holding
/// changed.
pub open spec fn accounts_for_display(
    before: LifecycleState,
    after: LifecycleState,
    acts: Seq<Action>,
) -> bool {
    &&& acts.contains(Action::AcquireDisplay) <==> !before.holds_display() && after.holds_display()
    &&& acts.contains(Action::ReleaseDisplay) <==> before.holds_display() && !after.holds_display()
}

/// The display is acquired exactly when it begins to be held and released
/// exactly when it ceases to be: a blip neither releases nor re-acquires it.
pub proof fn law_the_display_is_accounted_for(s: LifecycleState, e: Event, now: Instant)
    requires
        s.valid(),
    ensures
        accounts_for_display(s, met(s, e, now).0, met(s, e, now).1),
        accounts_for_display(s, ticked(s, now).0, ticked(s, now).1),
{
    let a = met(s, e, now).1;
    assert(a.len() > 0 ==> a.contains(a[0]));
    let b = ticked(s, now).1;
    assert(b.len() > 0 ==> b.contains(b[0]));
}

/// A vanished peer keeps the screen for thirty seconds; then it is given up,
/// once.
pub proof fn law_the_hold_expires_once(
    s: LifecycleState,
    start: Instant,
    now: Instant,
    later: Instant,
)
    requires
        s.phase == Phase::Streaming,
    ensures
        ({
            let held = met(s, Event::Ended, start).0;
            &&& since(now, start) < 30_000_000_000 ==> ticked(held, now) == (
                held,
                Seq::<Action>::empty(),
            )
            &&& since(now, start) >= 30_000_000_000 ==> ticked(held, now).0.phase
                == Phase::Advertising && ticked(held, now).1 == seq![
                Action::ReleaseDisplay,
                Action::ClearOverlay,
            ] && ticked(ticked(held, now).0, later).1.len() == 0
        }),
{
}

/// A radio error always has the group rebuilt.
pub proof fn law_a_radio_error_rebuilds_the_group(s: LifecycleState, now: Instant)
    ensures
        met(s, Event::RadioError, now).1.contains(Action::RebuildGroup),
        met(s, Event::RadioError, now).0.phase == Phase::Advertising,
{
    let a = met(s, Event::RadioError, now).1;
    assert(a[0] == Action::RebuildGroup || a[1] == Action::RebuildGroup);
}

/// What every event does in every phase: a connection takes the screen, or takes
/// it over where it is still held; an end begins a hold; a failure of the radio
/// gives the screen back before the group is rebuilt. Nothing else does anything.
pub proof fn law_what_events_do(s: LifecycleState, e: Event, now: Instant)
    requires
        s.valid(),
    ensures
        ({
            let (t, acts) = met(s, e, now);
            &&& s.phase == Phase::Advertising && e == Event::Connected ==> t.phase
                == Phase::Streaming && acts == seq![Action::AcquireDisplay, Action::ClearOverlay]
            &&& s.phase == Phase::Holding && e == Event::Connected ==> t.phase == Phase::Streaming
                && acts == seq![Action::ClearOverlay]
            &&& s.phase == Phase::Streaming && e == Event::Ended ==> t.phase == Phase::Holding
                && t.holding_since == Some(now) && acts == seq![Action::ShowReconnecting]
            &&& e == Event::RadioError && s.phase == Phase::Advertising ==> t.phase
                == Phase::Advertising && acts == seq![Action::RebuildGroup]
            &&& e == Event::RadioError && s.phase != Phase::Advertising ==> t.phase
                == Phase::Advertising && acts == seq![
                Action::ReleaseDisplay,
                Action::RebuildGroup,
                Action::ClearOverlay,
            ]
            &&& s.phase == Phase::Streaming && e == Event::Connected ==> t == s && acts.len() == 0
            &&& s.phase != Phase::Streaming && e == Event::Ended ==> t == s && acts.len() == 0
            &&& t.phase != Phase::Holding ==> t.holding_since is None
        }),
{
}

/// A hold ends after thirty seconds and not before; nothing else has a time.
pub proof fn law_what_time_does(s: LifecycleState, now: Instant)
    requires
        s.valid(),
    ensures
        ({
            let (t, acts) = ticked(s, now);
            let over = s.phase == Phase::Holding && now.nanos >= s.holding_since->0.nanos
                + 30_000_000_000;
            &&& over ==> t.phase == Phase::Advertising && t.holding_since is None && acts == seq![
                Action::ReleaseDisplay,
                Action::ClearOverlay,
            ]
            &&& !over ==> t == s && acts.len() == 0
        }),
{
}

} // verus!

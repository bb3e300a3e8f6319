//! Frame pacing of one output: when to render, when a frame is in flight,
//! and when the next one is due. Times are in microseconds of a monotonic
//! clock.

use vstd::prelude::*;

verus! {

/// Refresh rate that an output is driven at: the connector's rate, capped
/// by the configured target if there is one, at least 1 Hz.
pub open spec fn effective_hz(target_hz: Option<u64>, connector_hz: u64) -> u64 {
    let hz = match target_hz {
        Some(cap) => if cap < connector_hz {
            cap
        } else {
            connector_hz
        },
        None => connector_hz,
    };
    if hz < 1 {
        1
    } else {
        hz
    }
}

/// Duration of one frame in microseconds.
pub fn frame_duration_for(target_hz: Option<u64>, connector_hz: u64) -> (micros: u64)
    ensures
        micros == 1_000_000int / (effective_hz(target_hz, connector_hz) as int),
        micros <= 1_000_000,
{
    let hz: u64 = match target_hz {
        Some(cap) => if cap < connector_hz { cap } else { connector_hz },
        None => connector_hz,
    };
    let hz: u64 = if hz < 1 { 1 } else { hz };
    1_000_000 / hz
}

/// How a render attempt ended.
#[derive(Debug, Clone, Copy, PartialEq, Eq, Structural)]
pub enum RenderOutcome {
    /// The frame had content and was queued for scanout.
    Queued,
    /// Nothing had changed: no frame was queued.
    Empty,
    /// Rendering or queueing failed: the frame was dropped.
    Failed,
}

/// Pacing state of one output.
#[derive(Debug, Clone, Copy, PartialEq, Eq, Structural)]
pub struct FrameClock {
    pub next_frame_time: u64,
    /// A frame is queued and its VBlank has not come yet.
    pub pending_frame: bool,
    pub frame_duration: u64,
}

/// When the next frame is due after an attempt at time `now`: one frame
/// after the last due time, or one frame from now if that is past already.
pub open spec fn next_due(next: u64, duration: u64, now: u64) -> int {
    if next + duration < now {
        now + duration
    } else {
        next + duration
    }
}

impl FrameClock {
    /// A render is due: no frame is in flight and the due time has come.
    pub open spec fn due(self, now: u64) -> bool {
        !self.pending_frame && now >= self.next_frame_time
    }

    /// The state after a render attempt at time `now`.
    pub open spec fn attempted(self, now: u64, outcome: RenderOutcome) -> FrameClock {
        FrameClock {
            next_frame_time: next_due(self.next_frame_time, self.frame_duration, now) as u64,
            pending_frame: outcome == RenderOutcome::Queued,
            frame_duration: self.frame_duration,
        }
    }

    /// The clock of an output that is first rendered at `now`.
    pub fn new(now: u64, frame_duration: u64) -> (c: FrameClock)
        ensures
            c == (FrameClock { next_frame_time: now, pending_frame: false, frame_duration }),
    {
        FrameClock { next_frame_time: now, pending_frame: false, frame_duration }
    }

    /// Whether to render now.
    pub fn should_render(&self, now: u64) -> (b: bool)
        ensures
            b == self.due(now),
    {
        !self.pending_frame && now >= self.next_frame_time
    }

    /// Record a render attempt that was made at `now` because it was due.
    /// A queued frame is in flight until its VBlank. The next frame is due
    /// one frame later: never in the past, and at most one frame from now.
    pub fn rendered(&mut self, now: u64, outcome: RenderOutcome)
        requires
            old(self).due(now),
            now + old(self).frame_duration <= u64::MAX,
        ensures
            *final(self) == old(self).attempted(now, outcome),
            final(self).next_frame_time >= old(self).next_frame_time + old(self).frame_duration,
            now <= final(self).next_frame_time <= now + old(self).frame_duration,
    {
        let t: u64 = self.next_frame_time + self.frame_duration;
        self.next_frame_time = if t < now { now + self.frame_duration } else { t };
        self.pending_frame = outcome == RenderOutcome::Queued;
    }

    /// The VBlank of the frame in flight has come.
    pub fn frame_finish(&mut self)
        ensures
            *final(self) == (FrameClock { pending_frame: false, ..*old(self) }),
    {
        self.pending_frame = false;
    }

    /// The session was paused: the frame in flight, if any, is given up.
    pub fn pause(&mut self)
        ensures
            *final(self) == (FrameClock { pending_frame: false, ..*old(self) }),
    {
        self.pending_frame = false;
    }

    /// The session was resumed at `now`: the next frame is due one frame
    /// from now, so that no frames are made up for.
    pub fn resume(&mut self, now: u64)
        requires
            now + old(self).frame_duration <= u64::MAX,
        ensures
            *final(self) == (FrameClock {
                next_frame_time: (now + old(self).frame_duration) as u64,
                ..*old(self)
            }),
    {
        self.next_frame_time = now + self.frame_duration;
    }
}

// ── traces ───────────────────────────────────────────────────────────────────

/// What happens to an output.
pub enum FrameEvent {
    /// The render timer fires at a time, and a render attempt, if one is
    /// made, ends in the given way.
    Timer(u64, RenderOutcome),
    /// The display reports that the frame in flight was scanned out.
    VBlank,
    /// The session is taken away.
    Pause,
    /// The session is given back at a time.
    Resume(u64),
}

/// A clock with the number of frames queued, of frames reported as
/// submitted, and of frames given up in flight so far.
pub struct FrameTrace {
    pub clock: FrameClock,
    pub queued: nat,
    pub submitted: nat,
    pub dropped: nat,
}

/// The trace of an output that has not rendered yet.
pub open spec fn fresh_trace(clock: FrameClock) -> FrameTrace {
    FrameTrace { clock, queued: 0, submitted: 0, dropped: 0 }
}

/// None of the first `k` events is a pause.
pub open spec fn never_paused(events: Seq<FrameEvent>, k: nat) -> bool {
    forall|i: int| 0 <= i < k && i < events.len() ==> !(#[trigger] events[i] is Pause)
}

impl FrameTrace {
    /// The state after one event. The timer leads to a render attempt only
    /// if a render is due; a pause gives up the frame in flight, if there
    /// is one.
    pub open spec fn step(self, e: FrameEvent) -> FrameTrace {
        match e {
            FrameEvent::Timer(now, outcome) => if self.clock.due(now) {
                FrameTrace {
                    clock: self.clock.attempted(now, outcome),
                    queued: if outcome == RenderOutcome::Queued {
                        self.queued + 1
                    } else {
                        self.queued
                    },
                    ..self
                }
            } else {
                self
            },
            FrameEvent::VBlank => FrameTrace {
                clock: FrameClock { pending_frame: false, ..self.clock },
                submitted: self.submitted + 1,
                ..self
            },
            FrameEvent::Pause => FrameTrace {
                clock: FrameClock { pending_frame: false, ..self.clock },
                dropped: if self.clock.pending_frame {
                    self.dropped + 1
                } else {
                    self.dropped
                },
                ..self
            },
            FrameEvent::Resume(now) => FrameTrace {
                clock: FrameClock {
                    next_frame_time: if now + self.clock.frame_duration <= u64::MAX {
                        (now + self.clock.frame_duration) as u64
                    } else {
                        u64::MAX
                    },
                    ..self.clock
                },
                ..self
            },
        }
    }

    /// The state after the first `k` events.
    pub open spec fn run(self, events: Seq<FrameEvent>, k: nat) -> FrameTrace
        decreases k,
    {
        if k == 0 || k > events.len() {
            self
        } else {
            self.run(events, (k - 1) as nat).step(events[k - 1])
        }
    }

    /// Every queued frame was submitted or given up, but the one in flight.
    pub open spec fn balanced(self) -> bool {
        self.queued <= self.submitted + self.dropped + if self.clock.pending_frame {
            1nat
        } else {
            0nat
        }
    }
}

/// At any point of any sequence of events, at most one queued frame has
/// neither been submitted nor been given up at a pause.
pub proof fn law_frames_accounted(start: FrameClock, events: Seq<FrameEvent>, k: nat)
    requires
        !start.pending_frame,
        k <= events.len(),
    ensures
        fresh_trace(start).run(events, k).balanced(),
        fresh_trace(start).run(events, k).queued <= fresh_trace(start).run(events, k).submitted
            + fresh_trace(start).run(events, k).dropped + 1,
    decreases k,
{
    if k > 0 {
        law_frames_accounted(start, events, (k - 1) as nat);
    }
}

/// While the session is never paused, at most one queued frame has not
/// been submitted, at any point of any sequence of events.
pub proof fn law_one_pending_frame(start: FrameClock, events: Seq<FrameEvent>, k: nat)
    requires
        !start.pending_frame,
        k <= events.len(),
        never_paused(events, k),
    ensures
        fresh_trace(start).run(events, k).dropped == 0,
        fresh_trace(start).run(events, k).queued <= fresh_trace(start).run(events, k).submitted + 1,
    decreases k,
{
    law_frames_accounted(start, events, k);
    if k > 0 {
        assert(never_paused(events, (k - 1) as nat));
        law_one_pending_frame(start, events, (k - 1) as nat);
        assert(!(events[k - 1] is Pause));
    }
}

} // verus!

use vstd::prelude::*;

verus! {

/// Longest sub-block rendered between two envelope transition checks.
pub const MAX_BLOCK_SIZE: usize = 64;

/// The logical state of a buffer walk: the buffer length and the current
/// sub-block `[block_start, block_end)`.
pub struct SchedulerModel {
    pub samples: nat,
    pub block_start: nat,
    pub block_end: nat,
}

/// What the caller must do next.
#[derive(Clone, Copy, PartialEq, Eq, Structural, Debug)]
pub enum Step {
    /// Apply the pending event now, then ask again with the next one.
    ApplyEvent,
    /// Render samples `[start, end)`, check the envelopes, reclaim silent
    /// voices with timing `end`, then ask again.
    Render { start: usize, end: usize },
    /// The buffer is complete.
    Finished,
}

pub open spec fn min_nat(a: nat, b: nat) -> nat {
    if a <= b {
        a
    } else {
        b
    }
}

/// The end of a sub-block that starts at `start`, before any event shortens it.
pub open spec fn block_end_from(start: nat, samples: nat) -> nat {
    min_nat((start + MAX_BLOCK_SIZE) as nat, samples)
}

/// The sample an event takes effect at: its timing, clamped into the buffer.
pub open spec fn effective_timing(timing: u32, samples: nat) -> nat {
    if timing >= samples {
        (samples - 1) as nat
    } else {
        timing as nat
    }
}

pub open spec fn scheduler_wf(m: SchedulerModel) -> bool {
    &&& m.block_start <= m.samples
    &&& m.block_start < m.samples ==> m.block_start < m.block_end <= block_end_from(
        m.block_start,
        m.samples,
    )
    &&& m.block_start == m.samples ==> m.block_end == m.samples
}

/// Whether the pending event must be applied before anything is rendered.
pub open spec fn is_due(m: SchedulerModel, pending: Option<u32>) -> bool {
    match pending {
        Some(t) => effective_timing(t, m.samples) <= m.block_start,
        None => false,
    }
}

/// The end of the sub-block to render: the pending event's sample when it
/// falls strictly inside the current sub-block, else the sub-block's end.
pub open spec fn render_end(m: SchedulerModel, pending: Option<u32>) -> nat {
    match pending {
        Some(t) => if m.block_start < effective_timing(t, m.samples) < m.block_end {
            effective_timing(t, m.samples)
        } else {
            m.block_end
        },
        None => m.block_end,
    }
}

/// One decision of the buffer walk: the state after it, and the step.
pub open spec fn step_spec(m: SchedulerModel, pending: Option<u32>) -> (SchedulerModel, Step) {
    if m.block_start >= m.samples {
        (m, Step::Finished)
    } else if is_due(m, pending) {
        (m, Step::ApplyEvent)
    } else {
        let end = render_end(m, pending);
        (
            SchedulerModel {
                samples: m.samples,
                block_start: end,
                block_end: block_end_from(end, m.samples),
            },
            Step::Render { start: m.block_start as usize, end: end as usize },
        )
    }
}

/// Walks one audio buffer in sub-blocks of at most `MAX_BLOCK_SIZE` samples,
/// cutting a sub-block short wherever an event falls inside it, so that every
/// event takes effect at the exact sample it targets.
pub struct BlockScheduler {
    samples: usize,
    block_start: usize,
    block_end: usize,
}

impl View for BlockScheduler {
    type V = SchedulerModel;

    closed spec fn view(&self) -> SchedulerModel {
        SchedulerModel {
            samples: self.samples as nat,
            block_start: self.block_start as nat,
            block_end: self.block_end as nat,
        }
    }
}

fn block_end_after(start: usize, samples: usize) -> (r: usize)
    requires
        start <= samples,
    ensures
        r == block_end_from(start as nat, samples as nat),
{
    if samples - start > MAX_BLOCK_SIZE {
        start + MAX_BLOCK_SIZE
    } else {
        samples
    }
}

impl BlockScheduler {
    pub open spec fn wf(&self) -> bool {
        scheduler_wf(self@)
    }

    /// The walk of a buffer of `samples` samples, before its first sub-block.
    pub fn new(samples: usize) -> (r: BlockScheduler)
        ensures
            r.wf(),
            r@.samples == samples,
            r@.block_start == 0,
            r@.block_end == block_end_from(0, samples as nat),
    {
        BlockScheduler { samples, block_start: 0, block_end: block_end_after(0, samples) }
    }

    /// Decides the next step given the timing of the next event not yet
    /// applied, if any.
    pub fn step(&mut self, pending: Option<u32>) -> (r: Step)
        requires
            old(self).wf(),
        ensures
            final(self).wf(),
            (final(self)@, r) == step_spec(old(self)@, pending),
    {
        if self.block_start >= self.samples {
            return Step::Finished;
        }
        let mut end = self.block_end;
        match pending {
            Some(t) => {
                let at: usize = if t as usize >= self.samples {
                    self.samples - 1
                } else {
                    t as usize
                };
                if at <= self.block_start {
                    return Step::ApplyEvent;
                }
                if at < self.block_end {
                    end = at;
                }
            },
            None => {},
        }
        let start = self.block_start;
        self.block_start = end;
        self.block_end = block_end_after(end, self.samples);
        Step::Render { start, end }
    }
}

/// Whether the timings are in non-decreasing order.
pub open spec fn in_time_order(timings: Seq<u32>) -> bool {
    forall|i: int, j: int| 0 <= i <= j < timings.len() ==> timings[i] <= timings[j]
}

/// The next event not yet applied, if any.
pub open spec fn pending_of(timings: Seq<u32>) -> Option<u32> {
    if timings.len() > 0 {
        Some(timings[0])
    } else {
        None
    }
}

/// Drives the walk from state `m` for at most `fuel` steps, handing it the
/// events `timings` in order, and records the sample at which each applied
/// event took effect.
pub open spec fn application_points(m: SchedulerModel, timings: Seq<u32>, fuel: nat) -> Seq<nat>
    decreases fuel,
{
    if fuel == 0 {
        seq![]
    } else {
        let (next, step) = step_spec(m, pending_of(timings));
        match step {
            Step::ApplyEvent => seq![m.block_start] + application_points(
                next,
                timings.drop_first(),
                (fuel - 1) as nat,
            ),
            Step::Render { .. } => application_points(next, timings, (fuel - 1) as nat),
            Step::Finished => seq![],
        }
    }
}

/// A step keeps the walk well formed, and a render moves the start forward
/// without passing the pending event's sample.
pub proof fn lemma_step_progress(m: SchedulerModel, pending: Option<u32>)
    requires
        scheduler_wf(m),
    ensures
        scheduler_wf(step_spec(m, pending).0),
        step_spec(m, pending).1 is Render ==> m.block_start < step_spec(m, pending).0.block_start
            <= m.samples,
        step_spec(m, pending).1 is Render && pending is Some && m.block_start < effective_timing(
            pending.unwrap(),
            m.samples,
        ) ==> step_spec(m, pending).0.block_start <= effective_timing(pending.unwrap(), m.samples),
{
}

/// Sample-accurate timing: when events come in time order and the first has
/// not been passed, the walk applies the k-th event exactly at its (clamped)
/// sample, never renders a sub-block across an event, and, given enough steps,
/// applies every event.
pub proof fn lemma_sample_accurate(m: SchedulerModel, timings: Seq<u32>, fuel: nat)
    requires
        scheduler_wf(m),
        m.samples > 0,
        in_time_order(timings),
        timings.len() > 0 ==> m.block_start <= effective_timing(timings[0], m.samples),
    ensures
        application_points(m, timings, fuel).len() <= timings.len(),
        forall|k: int|
            0 <= k < application_points(m, timings, fuel).len() ==> (#[trigger] application_points(
                m,
                timings,
                fuel,
            )[k]) == effective_timing(timings[k], m.samples),
        fuel >= timings.len() + m.samples - m.block_start ==> application_points(m, timings, fuel).len()
            == timings.len(),
    decreases fuel,
{
    if fuel > 0 {
        let pending = pending_of(timings);
        let (next, step) = step_spec(m, pending);
        lemma_step_progress(m, pending);
        let pts = application_points(m, timings, fuel);
        match step {
            Step::ApplyEvent => {
                let rest = timings.drop_first();
                assert(in_time_order(rest));
                if rest.len() > 0 {
                    assert(timings[0] <= timings[1]);
                    assert(rest[0] == timings[1]);
                }
                lemma_sample_accurate(next, rest, (fuel - 1) as nat);
                let tail = application_points(next, rest, (fuel - 1) as nat);
                assert(pts == seq![m.block_start] + tail);
                assert forall|k: int| 0 <= k < pts.len() implies (#[trigger] pts[k]) == effective_timing(
                    timings[k],
                    m.samples,
                ) by {
                    if k > 0 {
                        assert(pts[k] == tail[k - 1]);
                        assert(rest[k - 1] == timings[k]);
                    }
                }
            },
            Step::Render { .. } => {
                lemma_sample_accurate(next, timings, (fuel - 1) as nat);
            },
            Step::Finished => {},
        }
    }
}

} // verus!

//! The ramp controller: moves the commanded speed toward a target in bounded,
//! ordered steps, and carries the generation counter that lets a newer target
//! supersede an in-progress ramp.

use vstd::prelude::*;

verus! {

/// Why a requested target was rejected before any device interaction.
#[derive(Clone, Copy, PartialEq, Eq, Structural, Debug)]
pub enum RampError {
    /// The target is not a multiple of the configured step size.
    NotQuantized,
    /// The target exceeds the configured maximum speed.
    OutOfRange,
}

/// One ramp step: the speed one command moves `current` to, toward `target`,
/// by at most `step`, clamped so it never overshoots.
pub open spec fn step_toward(current: u64, target: u64, step: u64) -> u64 {
    if current < target {
        if target - current <= step {
            target
        } else {
            (current + step) as u64
        }
    } else if current > target {
        if current - target <= step {
            target
        } else {
            (current - step) as u64
        }
    } else {
        current
    }
}

/// Distance still to cover between the current and the target speed.
pub open spec fn dist(current: u64, target: u64) -> int {
    if current < target {
        target - current
    } else {
        current - target
    }
}

/// The whole sequence of speeds a ramp from `current` to `target` commands,
/// in order. Empty exactly when there is nothing to do.
pub open spec fn plan(current: u64, target: u64, step: u64) -> Seq<u64>
    decreases dist(current, target),
{
    if current == target || step == 0 {
        Seq::empty()
    } else {
        seq![step_toward(current, target, step)] + plan(
            step_toward(current, target, step),
            target,
            step,
        )
    }
}

/// Computes one ramp step: moves `current` toward `target` by at most `step`
/// without overshooting.
pub fn ramp_step(current: u64, target: u64, step: u64) -> (next: u64)
    ensures
        next == step_toward(current, target, step),
{
    if current < target {
        if target - current <= step {
            target
        } else {
            current + step
        }
    } else if current > target {
        if current - target <= step {
            target
        } else {
            current - step
        }
    } else {
        current
    }
}

/// Computes the whole command sequence of a ramp from `current` to `target`,
/// in the order the device would receive it.
pub fn ramp_plan(current: u64, target: u64, step: u64) -> (cmds: Vec<u64>)
    requires
        step > 0,
    ensures
        cmds@ == plan(current, target, step),
{
    let mut cmds: Vec<u64> = Vec::new();
    let mut cur: u64 = current;
    proof {
        assert(cmds@ + plan(cur, target, step) =~= plan(current, target, step));
    }
    while cur != target
        invariant
            step > 0,
            cmds@ + plan(cur, target, step) == plan(current, target, step),
        decreases dist(cur, target),
    {
        let prev = Ghost(cur);
        let prev_cmds = Ghost(cmds@);
        let next = ramp_step(cur, target, step);
        cmds.push(next);
        cur = next;
        proof {
            assert(plan(prev@, target, step) == seq![next] + plan(next, target, step));
            assert(cmds@ + plan(cur, target, step) =~= prev_cmds@ + plan(prev@, target, step));
        }
    }
    proof {
        assert(cmds@ + plan(cur, target, step) =~= cmds@);
    }
    cmds
}

/// The chain of speeds a ramp passes through, starting point included.
pub open spec fn chain(current: u64, target: u64, step: u64) -> Seq<u64> {
    seq![current] + plan(current, target, step)
}

/// Ramp monotonicity: within a single ramp the speeds move strictly toward
/// the target without overshooting it, and consecutive speeds differ by at
/// most one step.
pub proof fn lemma_ramp_monotone(current: u64, target: u64, step: u64)
    requires
        step > 0,
    ensures
        current <= target ==> forall|i: int|
            0 <= i < chain(current, target, step).len() - 1
                ==> #[trigger] chain(current, target, step)[i] < chain(current, target, step)[i + 1]
                && chain(current, target, step)[i + 1] - chain(current, target, step)[i] <= step
                && chain(current, target, step)[i + 1] <= target,
        current >= target ==> forall|i: int|
            0 <= i < chain(current, target, step).len() - 1
                ==> #[trigger] chain(current, target, step)[i] > chain(current, target, step)[i + 1]
                && chain(current, target, step)[i] - chain(current, target, step)[i + 1] <= step
                && chain(current, target, step)[i + 1] >= target,
    decreases dist(current, target),
{
    if current == target {
    } else {
        let next = step_toward(current, target, step);
        lemma_ramp_monotone(next, target, step);
        assert(chain(current, target, step) =~= seq![current] + chain(next, target, step));
        let c = chain(current, target, step);
        let cn = chain(next, target, step);
        assert(c[0] == current && c[1] == next);
        assert(forall|i: int| 1 <= i < c.len() ==> c[i] == cn[i - 1]);
        if current < target {
            assert forall|i: int| 0 <= i < c.len() - 1 implies #[trigger] c[i] < c[i + 1] && c[i + 1]
                - c[i] <= step && c[i + 1] <= target by {
                if i > 0 {
                    assert(cn[i - 1] < cn[i] && cn[i] - cn[i - 1] <= step && cn[i] <= target);
                }
            }
        } else {
            assert forall|i: int| 0 <= i < c.len() - 1 implies #[trigger] c[i] > c[i + 1] && c[i]
                - c[i + 1] <= step && c[i + 1] >= target by {
                if i > 0 {
                    assert(cn[i - 1] > cn[i] && cn[i - 1] - cn[i] <= step && cn[i] >= target);
                }
            }
        }
    }
}

/// Ramp idempotence: a ramp whose target is the speed already commanded
/// issues no commands at all.
pub proof fn lemma_ramp_idempotent(current: u64, step: u64)
    ensures
        plan(current, current, step) == Seq::<u64>::empty(),
{
}

/// A ramp with something to do ends exactly at its target: the last command
/// of a non-empty plan is the target itself.
pub proof fn lemma_ramp_completes(current: u64, target: u64, step: u64)
    requires
        step > 0,
    ensures
        current != target ==> plan(current, target, step).len() > 0,
        current != target ==> plan(current, target, step).last() == target,
    decreases dist(current, target),
{
    if current != target {
        let next = step_toward(current, target, step);
        assert(plan(current, target, step) == seq![next] + plan(next, target, step));
        if next == target {
            assert(plan(next, target, step).len() == 0);
            assert(plan(current, target, step).last() == seq![next][0]);
        } else {
            lemma_ramp_completes(next, target, step);
            assert(plan(current, target, step).last() == plan(next, target, step).last());
        }
    }
}

/// The ramp controller's whole state: the speed last commanded (or last read
/// from the device), the target it is ramping toward, the generation counter
/// that lets a newer target supersede an in-flight ramp, and the fan limits
/// it enforces.
#[derive(Clone, Copy, PartialEq, Eq, Structural, Debug)]
pub struct RampController {
    /// Speed of the most recent device command, initialized from the device.
    pub current: u64,
    /// Speed the controller is ramping toward.
    pub target: u64,
    /// Advances on every accepted target; a step driven by an older value is
    /// superseded and does nothing.
    pub generation: u64,
    /// Every accepted target is a multiple of this step. Always positive.
    pub step: u64,
    /// No accepted target exceeds this speed.
    pub max: u64,
}

impl RampController {
    /// A target the controller accepts: quantized to the step and within the
    /// device's range.
    pub open spec fn valid_target(self, t: u64) -> bool {
        t % self.step == 0 && t <= self.max
    }

    /// The state after a target `t` has been accepted: the target is
    /// recorded and the generation advances, superseding any older ramp.
    pub open spec fn retargeted(self, t: u64) -> RampController {
        RampController { target: t, generation: (self.generation + 1) as u64, ..self }
    }

    /// What one driver step does to the controller, given the generation
    /// token the driver holds: nothing when the token is stale or the ramp is
    /// complete, and otherwise one bounded move of `current` toward `target`,
    /// returned as the command to issue.
    pub open spec fn spec_step(self, gen: u64) -> (RampController, Option<u64>) {
        if gen != self.generation || self.current == self.target {
            (self, None)
        } else {
            (
                RampController { current: step_toward(self.current, self.target, self.step), ..self },
                Some(step_toward(self.current, self.target, self.step)),
            )
        }
    }

    /// A fresh controller: no ramp in progress (the target is the speed the
    /// device last reported), generation zero.
    pub fn new(initial_speed: u64, step: u64, max: u64) -> (c: RampController)
        requires
            step > 0,
        ensures
            c == (RampController {
                current: initial_speed,
                target: initial_speed,
                generation: 0,
                step,
                max,
            }),
    {
        RampController { current: initial_speed, target: initial_speed, generation: 0, step, max }
    }

    /// Requests a ramp toward `t`. A target that is not a multiple of the
    /// step is rejected as `NotQuantized`; one over the maximum as
    /// `OutOfRange`; neither touches the controller. An accepted target is
    /// recorded, the generation advances — superseding any in-flight ramp —
    /// and the new generation token is returned for the driver of this ramp.
    pub fn ramp_to(&mut self, t: u64) -> (r: Result<u64, RampError>)
        requires
            old(self).step > 0,
            old(self).generation < u64::MAX,
        ensures
            t % old(self).step != 0 ==> r == Err::<u64, RampError>(RampError::NotQuantized)
                && *final(self) == *old(self),
            t % old(self).step == 0 && t > old(self).max ==> r == Err::<u64, RampError>(
                RampError::OutOfRange,
            ) && *final(self) == *old(self),
            old(self).valid_target(t) ==> r == Ok::<u64, RampError>(
                (old(self).generation + 1) as u64,
            ) && *final(self) == old(self).retargeted(t),
    {
        if t % self.step != 0 {
            return Err(RampError::NotQuantized);
        }
        if t > self.max {
            return Err(RampError::OutOfRange);
        }
        self.target = t;
        self.generation = self.generation + 1;
        Ok(self.generation)
    }

    /// One driver step of an in-flight ramp. The driver passes the
    /// generation token `ramp_to` handed it; a stale token means the ramp
    /// was superseded, and the step does nothing. Otherwise, when the target
    /// has not been reached yet, the controller moves `current` one bounded
    /// step toward it and returns the speed to command; the device failing
    /// that command is the driver's signal to abort the ramp. `None` with a
    /// fresh token means the ramp is complete.
    pub fn next_command(&mut self, gen: u64) -> (cmd: Option<u64>)
        ensures
            (*final(self), cmd) == old(self).spec_step(gen),
    {
        if gen != self.generation || self.current == self.target {
            return None;
        }
        let next = ramp_step(self.current, self.target, self.step);
        self.current = next;
        Some(next)
    }
}

/// A driver holding a fresh token issues exactly the commands of the plan:
/// each step's command is the head of the plan still to run, and the
/// controller then stands at the head with the rest of the plan before it.
pub proof fn lemma_step_follows_plan(c: RampController, gen: u64)
    requires
        c.step > 0,
        gen == c.generation,
        c.current != c.target,
    ensures
        c.spec_step(gen).1 == Some(plan(c.current, c.target, c.step)[0]),
        plan(c.spec_step(gen).0.current, c.target, c.step) == plan(
            c.current,
            c.target,
            c.step,
        ).drop_first(),
{
    let next = step_toward(c.current, c.target, c.step);
    assert(plan(c.current, c.target, c.step) == seq![next] + plan(next, c.target, c.step));
    assert((seq![next] + plan(next, c.target, c.step)).drop_first() =~= plan(
        next,
        c.target,
        c.step,
    ));
}

/// Superseding: once a newer target has been accepted, a driver step made
/// with any earlier generation token issues no command and changes nothing —
/// no further commands toward the old target are ever issued.
pub proof fn lemma_superseding(c: RampController, t2: u64, stale: u64)
    requires
        c.generation < u64::MAX,
        stale <= c.generation,
        c.valid_target(t2),
    ensures
        c.retargeted(t2).spec_step(stale) == (c.retargeted(t2), None::<u64>),
{
}

} // verus!

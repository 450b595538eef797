//! The decisions of the scheduler: which workers a plan asks for, until
//! when each group runs, and which flow a user executes next.
//!
//! Time is a number of nanoseconds on a clock of the caller's choice. The
//! caller starts one worker for each entry of the plan; a worker runs waves
//! of users, each user the flows of its group in order, until the clock has
//! reached the deadline at the end of a wave.

use crate::configuration::{Configuration, Group};
use crate::error::GarmataError;
use vstd::prelude::*;

verus! {

/// The nanoseconds of a second.
pub const NANOS_PER_SECOND: u128 = 1_000_000_000;

/// The work of one group: what every request of the group needs from the
/// plan, and the time at which its last wave begins at the latest.
#[derive(Debug)]
pub struct Worker<'a> {
    pub scheme: &'a str,
    pub target: &'a str,
    pub http_version: &'a str,
    pub group: &'a Group,
    pub deadline: u128,
}

/// The deadline of a group that starts at `now` and runs for `duration`
/// seconds, where the group runs for any time and the machine can hold the
/// deadline.
pub open spec fn deadline_of(now: u128, duration: u64) -> Option<u128> {
    if duration > 0 && now + duration * NANOS_PER_SECOND <= u128::MAX {
        Some((now + duration * NANOS_PER_SECOND) as u128)
    } else {
        None
    }
}

/// What the error says for a group whose duration is not valid.
pub open spec fn invalid_duration(name: Seq<char>) -> Seq<char> {
    "invalid duration provided for group "@ + name
}

/// The worker is the one that the plan asks for, for the group at `index`,
/// started at `now`.
pub open spec fn works_for(w: Worker, config: &Configuration, index: int, now: u128) -> bool
    recommends
        0 <= index < config.groups@.len(),
{
    &&& w.scheme@ == config.scheme@
    &&& w.target@ == config.target@
    &&& w.http_version@ == config.http_version@
    &&& *w.group == config.groups@[index]
    &&& Some(w.deadline) == deadline_of(now, config.groups@[index].duration)
}

/// The deadline of a group that starts at `now`. A group that runs for no
/// time is rejected, and so is one whose deadline the machine cannot hold.
pub fn deadline(group: &Group, now: u128) -> (r: Result<u128, GarmataError>)
    ensures
        match r {
            Ok(at) => deadline_of(now, group.duration) == Some(at),
            Err(e) => deadline_of(now, group.duration) is None && e.reason@ == invalid_duration(
                group.name@,
            ),
        },
{
    let length: u128 = (group.duration as u128) * NANOS_PER_SECOND;
    match now.checked_add(length) {
        Some(at) if group.duration > 0 => Ok(at),
        _ => {
            let mut reason = "invalid duration provided for group ".to_owned();
            reason.append(group.name.as_str());
            Err(GarmataError { reason })
        },
    }
}

/// Whether a wave that ended at `now` was the last one of its group.
pub fn wave_was_last(now: u128, deadline: u128) -> (r: bool)
    ensures
        r == (now >= deadline),
{
    now >= deadline
}

/// The group at `index` is the first of the plan with an invalid duration.
pub open spec fn first_invalid(config: &Configuration, index: int, now: u128) -> bool {
    &&& 0 <= index < config.groups@.len()
    &&& deadline_of(now, config.groups@[index].duration) is None
    &&& forall|j: int|
        0 <= j < index ==> deadline_of(now, (#[trigger] config.groups@[j]).duration) is Some
}

/// The workers of a plan that starts at `now`: one for each group, in the
/// order of the plan. A group with an invalid duration rejects the whole
/// plan; the error names the first such group.
pub fn workers<'a>(config: &'a Configuration, now: u128) -> (r: Result<
    Vec<Worker<'a>>,
    GarmataError,
>)
    ensures
        match r {
            Ok(plan) => {
                &&& plan@.len() == config.groups@.len()
                &&& forall|i: int|
                    0 <= i < plan@.len() ==> works_for(#[trigger] plan@[i], config, i, now)
            },
            Err(e) => exists|i: int|
                first_invalid(config, i, now) && e.reason@ == invalid_duration(
                    (#[trigger] config.groups@[i]).name@,
                ),
        },
{
    let mut plan: Vec<Worker<'a>> = Vec::new();
    let mut i: usize = 0;
    while i < config.groups.len()
        invariant
            i <= config.groups.len(),
            plan@.len() == i,
            forall|j: int| 0 <= j < i ==> works_for(#[trigger] plan@[j], config, j, now),
        decreases config.groups.len() - i,
    {
        let group = &config.groups[i];
        let at = match deadline(group, now) {
            Ok(at) => at,
            Err(e) => {
                proof {
                    assert forall|j: int| 0 <= j < i implies deadline_of(
                        now,
                        (#[trigger] config.groups@[j]).duration,
                    ) is Some by {
                        assert(works_for(plan@[j], config, j, now));
                    }
                    assert(first_invalid(config, i as int, now));
                }
                return Err(e);
            },
        };
        plan.push(
            Worker {
                scheme: config.scheme.as_str(),
                target: config.target.as_str(),
                http_version: config.http_version.as_str(),
                group,
                deadline: at,
            },
        );
        i += 1;
    }
    Ok(plan)
}

/// What a user does next in a wave.
#[derive(Debug, Clone, Copy, PartialEq, Eq)]
pub enum Next {
    /// Execute the flow at this index of the group's flows.
    Run(usize),
    /// Nothing more in this wave.
    Rest,
}

/// What a user does after the flow at `index` of `flows` flows: the next
/// flow where this one gave a result and was not the last, else nothing
/// more. A flow that fails ends the wave for the user.
pub open spec fn next_after(flows: nat, index: nat, succeeded: bool) -> Next {
    if succeeded && index + 1 < flows {
        Next::Run((index + 1) as usize)
    } else {
        Next::Rest
    }
}

/// The number of flows that a user executes in a wave from the flow at
/// `index` on, where `outcomes` says of each flow whether it gives a result:
/// after each flow the user does what `next_after` says.
pub open spec fn executed_from(flows: nat, index: nat, outcomes: Seq<bool>) -> nat
    decreases flows - index,
{
    if index >= flows || index >= outcomes.len() {
        0
    } else {
        match next_after(flows, index, outcomes[index as int]) {
            Next::Run(_) => 1 + executed_from(flows, index + 1, outcomes),
            Next::Rest => 1,
        }
    }
}

/// The number of results that the user adds in such a wave: one for each
/// flow executed that gives a result.
pub open spec fn added_from(flows: nat, index: nat, outcomes: Seq<bool>) -> nat
    decreases flows - index,
{
    if index >= flows || index >= outcomes.len() {
        0
    } else {
        let here: nat = if outcomes[index as int] {
            1
        } else {
            0
        };
        match next_after(flows, index, outcomes[index as int]) {
            Next::Run(_) => here + added_from(flows, index + 1, outcomes),
            Next::Rest => here,
        }
    }
}

/// What a user does first in a wave: the first flow, if there is any.
pub fn first_flow(flows: usize) -> (r: Next)
    ensures
        r == if flows > 0 {
            Next::Run(0)
        } else {
            Next::Rest
        },
{
    if flows > 0 {
        Next::Run(0)
    } else {
        Next::Rest
    }
}

/// What a user does after the flow at `index` of `flows` flows.
pub fn after_flow(flows: usize, index: usize, succeeded: bool) -> (r: Next)
    ensures
        r == next_after(flows as nat, index as nat, succeeded),
{
    if succeeded && index < flows && index + 1 < flows {
        Next::Run(index + 1)
    } else {
        Next::Rest
    }
}

/// From any flow on, a user adds a result for every flow that it executes,
/// but for the last one where that one fails; and where no flow fails, it
/// executes every flow that is left and adds a result for each.
pub proof fn lemma_wave_from(flows: nat, index: nat, outcomes: Seq<bool>)
    requires
        outcomes.len() == flows,
        index <= flows,
    ensures
        added_from(flows, index, outcomes) <= executed_from(flows, index, outcomes) <= added_from(
            flows,
            index,
            outcomes,
        ) + 1,
        executed_from(flows, index, outcomes) <= flows - index,
        (forall|i: int| index <= i < flows ==> outcomes[i]) ==> added_from(flows, index, outcomes)
            == flows - index,
    decreases flows - index,
{
    if index < flows {
        lemma_wave_from(flows, index + 1, outcomes);
    }
}

/// In a wave a user executes the flows of its group in order, up to the
/// first that fails, and adds a result for each but that one: so it adds a
/// result for every flow that it executes, or for all but the last; and
/// where no flow fails, it adds a result for each flow of the group.
pub proof fn a_wave_adds_what_it_executes(flows: nat, outcomes: Seq<bool>)
    requires
        outcomes.len() == flows,
    ensures
        added_from(flows, 0, outcomes) <= executed_from(flows, 0, outcomes) <= added_from(
            flows,
            0,
            outcomes,
        ) + 1,
        executed_from(flows, 0, outcomes) <= flows,
        (forall|i: int| 0 <= i < flows ==> outcomes[i]) ==> added_from(flows, 0, outcomes)
            == flows,
{
    lemma_wave_from(flows, 0, outcomes);
}

} // verus!

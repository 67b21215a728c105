//! The batch scheduler: the executable side of the batch.
//!
//! The scheduler decides; it performs no request itself. Its caller issues
//! each request that the scheduler hands out, and reports back how each one
//! ended. In return the scheduler says what to launch next, what the
//! reported probe resulted in, and whether the batch is finished.

use crate::batch::{Batch, Completion, Phase, ProbeState, Target, WINDOW};
use crate::descriptor::{
    active_indices, lemma_active_indices, names_unique, Descriptor, DescriptorSet,
};
use crate::probe::{classify, outcome_of, Outcome, ProbeResponse};
use crate::template::{resolve_url, substitute};
use vstd::prelude::*;

verus! {

/// What one probe asks about: a platform and the URL resolved for the
/// username.
#[derive(Debug)]
pub struct ProbeTarget {
    pub name: String,
    pub url: String,
}

impl View for ProbeTarget {
    type V = Target;

    open spec fn view(&self) -> Target {
        Target { name: self.name@, url: self.url@ }
    }
}

/// A request to issue: the probe's id, under which its end is reported, and
/// the URL to GET.
#[derive(Debug)]
pub struct Launch {
    pub id: usize,
    pub url: String,
}

/// How one probe ended.
#[derive(Debug)]
pub struct ProbeResult {
    /// The platform's name.
    pub name: String,
    /// The URL that was probed.
    pub resolved_url: String,
    /// What the probe found.
    pub outcome: Outcome,
}

/// The scheduler's answer to one event.
#[derive(Debug)]
pub struct Reaction {
    /// The result of the probe whose end was reported; none at the start.
    pub result: Option<ProbeResult>,
    /// The requests to issue now.
    pub launches: Vec<Launch>,
    /// Whether every probe of the batch has reached its outcome.
    pub finished: bool,
}

/// The target that descriptor `d` gives for `username`.
pub open spec fn target_of(d: Descriptor, username: Seq<char>) -> Target {
    Target { name: d.name@, url: substitute(d.url_template@, username) }
}

/// The targets of a run: one for each active descriptor of `ds`, in order.
pub open spec fn active_targets(ds: Seq<Descriptor>, username: Seq<char>) -> Seq<Target>
    decreases ds.len(),
{
    if ds.len() == 0 {
        Seq::empty()
    } else if ds.last().is_active() {
        active_targets(ds.drop_last(), username).push(target_of(ds.last(), username))
    } else {
        active_targets(ds.drop_last(), username)
    }
}

/// The targets of a run are those of the active set, one each: no descriptor
/// of another classification contributes a target, and no active one is left
/// out.
pub proof fn lemma_active_targets(ds: Seq<Descriptor>, username: Seq<char>)
    ensures
        active_targets(ds, username).len() == active_indices(ds).len(),
        forall|k: int|
            0 <= k < active_indices(ds).len() ==> #[trigger] active_targets(ds, username)[k]
                == target_of(ds[active_indices(ds)[k]], username),
    decreases ds.len(),
{
    if ds.len() > 0 {
        let init = ds.drop_last();
        lemma_active_targets(init, username);
        lemma_active_indices(init);
        assert forall|k: int| 0 <= k < active_indices(ds).len() implies #[trigger] active_targets(
            ds,
            username,
        )[k] == target_of(ds[active_indices(ds)[k]], username) by {
            if k < active_indices(init).len() {
                assert(init[active_indices(init)[k]] == ds[active_indices(init)[k]]);
            }
        }
    }
}

/// The targets of a set whose names are pairwise distinct have pairwise
/// distinct names.
pub proof fn lemma_active_targets_named_apart(ds: Seq<Descriptor>, username: Seq<char>)
    requires
        names_unique(ds),
    ensures
        forall|i: int, j: int|
            0 <= i < j < active_targets(ds, username).len() ==> active_targets(ds, username)[i].name
                != active_targets(ds, username)[j].name,
{
    lemma_active_targets(ds, username);
    lemma_active_indices(ds);
    let targets = active_targets(ds, username);
    let indices = active_indices(ds);
    assert forall|i: int, j: int| 0 <= i < j < targets.len() implies targets[i].name
        != targets[j].name by {
        assert(targets[i] == target_of(ds[indices[i]], username));
        assert(targets[j] == target_of(ds[indices[j]], username));
        assert(0 <= indices[i] < indices[j] < ds.len());
    }
}

/// The targets that a list of probe targets stands for.
pub open spec fn targets_view(targets: Seq<ProbeTarget>) -> Seq<Target> {
    Seq::new(targets.len(), |k: int| targets[k]@)
}

/// Resolves the targets of a run: for each active descriptor its name and
/// its URL for `username`. Descriptors of another classification are left
/// out.
pub fn resolve_targets(descriptors: &Vec<Descriptor>, username: &str) -> (targets: Vec<
    ProbeTarget,
>)
    ensures
        targets_view(targets@) == active_targets(descriptors@, username@),
{
    let mut targets: Vec<ProbeTarget> = Vec::new();
    let mut i: usize = 0;
    assert(descriptors@.take(0) =~= Seq::empty());
    assert(targets_view(targets@) =~= active_targets(descriptors@.take(0), username@));
    while i < descriptors.len()
        invariant
            i <= descriptors.len(),
            targets_view(targets@) == active_targets(descriptors@.take(i as int), username@),
        decreases descriptors.len() - i,
    {
        let descriptor = &descriptors[i];
        let ghost seen = descriptors@.take(i as int);
        let ghost now = descriptors@.take(i + 1);
        assert(now.drop_last() =~= seen);
        assert(now.last() == descriptors@[i as int]);
        if descriptor.active() {
            let ghost before = targets@;
            let target = ProbeTarget {
                name: descriptor.name.clone(),
                url: resolve_url(descriptor.url_template.as_str(), username),
            };
            targets.push(target);
            assert(targets_view(targets@) =~= targets_view(before).push(
                target_of(descriptors@[i as int], username@),
            ));
        }
        i = i + 1;
    }
    assert(descriptors@.take(i as int) =~= descriptors@);
    targets
}

/// Whether `reaction` is what a step from a batch with `from` requests
/// issued to the batch `after` hands out: the requests issued by the step,
/// in order, each with its probe's URL; whether the batch is now finished;
/// and the result of the probe that the step resolved, if it resolved one.
pub open spec fn reaction_matches(
    reaction: Reaction,
    from: int,
    after: Batch,
    resolved: Option<int>,
) -> bool {
    &&& reaction.finished == after.finished()
    &&& reaction.launches@.len() == after.launched.len() - from
    &&& forall|k: int|
        0 <= k < reaction.launches@.len() ==> {
            &&& (#[trigger] reaction.launches@[k]).id == after.launched[from + k]
            &&& reaction.launches@[k].url@ == after.probes[after.launched[from + k]].target.url
        }
    &&& match resolved {
        None => reaction.result is None,
        Some(id) => {
            &&& reaction.result is Some
            &&& reaction.result->0.name@ == after.probes[id].target.name
            &&& reaction.result->0.resolved_url@ == after.probes[id].target.url
            &&& after.probes[id].phase == Phase::Resolved(reaction.result->0.outcome)
        },
    }
}

/// The batch that a scheduler's fields stand for.
spec fn batch_of(
    targets: Seq<ProbeTarget>,
    phases: Seq<Phase>,
    cursor: usize,
    claimed: Seq<int>,
) -> Batch {
    Batch {
        probes: Seq::new(
            targets.len(),
            |id: int| ProbeState { target: targets[id]@, phase: phases[id] },
        ),
        launched: Seq::new(cursor as nat, |k: int| k),
        claimed,
    }
}

/// The scheduler of one batch.
pub struct Scheduler {
    targets: Vec<ProbeTarget>,
    phases: Vec<Phase>,
    /// The number of requests issued: the probes before this index are
    /// launched, those from it on are pending.
    cursor: usize,
    /// The number of probes in flight.
    in_flight: usize,
    /// The probes found claimed, in the order in which they resolved.
    claimed: Ghost<Seq<int>>,
    /// The reports accepted so far, in order.
    history: Ghost<Seq<Completion>>,
}

impl View for Scheduler {
    type V = Batch;

    closed spec fn view(&self) -> Batch {
        batch_of(self.targets@, self.phases@, self.cursor, self.claimed@)
    }
}

impl Scheduler {
    /// The targets that the batch was started with.
    pub closed spec fn targets(&self) -> Seq<Target> {
        targets_view(self.targets@)
    }

    /// The reports accepted so far, in order.
    pub closed spec fn history(&self) -> Seq<Completion> {
        self.history@
    }

    /// Every scheduler that exists is well formed: its counters agree with
    /// its probes, and its batch is the one that its targets and the reports
    /// it has accepted lead to.
    #[verifier::type_invariant]
    pub closed spec fn well_formed(&self) -> bool {
        &&& self.phases@.len() == self.targets@.len()
        &&& self.in_flight == self@.in_flight().len()
        &&& self@ == Batch::after(self.targets(), self.history())
    }

    /// The batch of a well-formed scheduler is the state that its run has
    /// reached, and the batch invariant holds of it.
    pub proof fn lemma_reached(&self)
        requires
            self.well_formed(),
        ensures
            self@ == Batch::after(self.targets(), self.history()),
            self@.inv(),
    {
        Batch::lemma_after_inv(self.targets(), self.history());
    }

    /// A scheduler without probes.
    fn empty() -> (scheduler: Scheduler)
        ensures
            scheduler@.probes.len() == 0,
    {
        let targets: Vec<ProbeTarget> = Vec::new();
        let phases: Vec<Phase> = Vec::new();
        proof {
            let batch = batch_of(targets@, phases@, 0, Seq::empty());
            assert(batch.in_flight() =~= Set::<int>::empty());
            assert(batch.probes =~= Batch::start(targets_view(targets@)).probes);
            assert(batch.launched =~= Batch::start(targets_view(targets@)).launched);
        }
        Scheduler {
            targets,
            phases,
            cursor: 0,
            in_flight: 0,
            claimed: Ghost(Seq::empty()),
            history: Ghost(Seq::empty()),
        }
    }

    /// Starts the batch for `username` over the active descriptors of
    /// `set`: resolves each probe's URL and launches the first probes, as
    /// many as the window admits. The reaction lists the requests to issue;
    /// it reports the batch finished if no descriptor is active.
    pub fn start(set: &DescriptorSet, username: &str) -> (out: (Scheduler, Reaction))
        ensures
            out.0.targets() == active_targets(set@, username@),
            out.0.history() == Seq::<Completion>::empty(),
            out.0@ == Batch::start(out.0.targets()),
            out.0@.inv(),
            reaction_matches(out.1, 0, out.0@, None),
    {
        let targets = resolve_targets(set.descriptors(), username);
        let n = targets.len();
        let ghost model = Batch::start(targets_view(targets@));
        let mut phases: Vec<Phase> = Vec::new();
        let mut launches: Vec<Launch> = Vec::new();
        let mut i: usize = 0;
        while i < n
            invariant
                n == targets@.len(),
                i <= n,
                phases@.len() == i,
                model == Batch::start(targets_view(targets@)),
                forall|k: int| 0 <= k < i ==> phases@[k] == model.probes[k].phase,
                launches@.len() == (if i <= WINDOW {
                    i
                } else {
                    WINDOW
                }),
                forall|k: int|
                    0 <= k < launches@.len() ==> (#[trigger] launches@[k]).id == k
                        && launches@[k].url@ == targets@[k].url@,
            decreases n - i,
        {
            if i < WINDOW {
                phases.push(Phase::InFlight);
                launches.push(Launch { id: i, url: targets[i].url.clone() });
            } else {
                phases.push(Phase::Pending);
            }
            i = i + 1;
        }
        let cursor = if n <= WINDOW {
            n
        } else {
            WINDOW
        };
        proof {
            let batch = batch_of(targets@, phases@, cursor, Seq::empty());
            Batch::lemma_start_inv(targets_view(targets@));
            assert(batch.probes =~= model.probes);
            assert(batch.launched =~= model.launched);
            assert(batch == model);
            model.lemma_finished_iff_drained();
        }
        let scheduler = Scheduler {
            targets,
            phases,
            cursor,
            in_flight: cursor,
            claimed: Ghost(Seq::empty()),
            history: Ghost(Seq::empty()),
        };
        let reaction = Reaction { result: None, launches, finished: n == 0 };
        (scheduler, reaction)
    }

    /// Takes the report that the request of probe `id` ended with
    /// `response`. The probe reaches the outcome that the response stands
    /// for, and the next pending probe, if there is one, takes its place in
    /// the window. The reaction carries the probe's result, the request to
    /// issue now, and whether the batch is finished.
    ///
    /// A report for a probe that is not in flight is not accepted: nothing
    /// changes and there is no reaction.
    pub fn complete(&mut self, id: usize, response: ProbeResponse) -> (reaction: Option<Reaction>)
        ensures
            match reaction {
                Some(r) => {
                    &&& old(self)@.can_complete(id as int)
                    &&& final(self)@ == old(self)@.complete(id as int, outcome_of(response))
                    &&& final(self).history() == old(self).history().push(
                        Completion { id: id as int, outcome: outcome_of(response) },
                    )
                    &&& reaction_matches(
                        r,
                        old(self)@.launched.len() as int,
                        final(self)@,
                        Some(id as int),
                    )
                    &&& r.launches@.len() <= 1
                },
                None => {
                    &&& !old(self)@.can_complete(id as int)
                    &&& final(self)@ == old(self)@
                    &&& final(self).history() == old(self).history()
                },
            },
            final(self).targets() == old(self).targets(),
            final(self)@.inv(),
    {
        proof {
            use_type_invariant(&*self);
            self.lemma_reached();
        }
        if id >= self.phases.len() {
            return None;
        }
        if self.phases[id] != Phase::InFlight {
            return None;
        }
        let outcome = classify(response);
        let ghost before = self@;
        let mut taken = Scheduler::empty();
        std::mem::swap(self, &mut taken);
        let Scheduler { targets, phases, cursor, in_flight, claimed, history } = taken;
        let mut phases = phases;
        let mut cursor = cursor;
        let mut in_flight = in_flight;
        let mut launches: Vec<Launch> = Vec::new();
        proof {
            before.lemma_in_flight_finite();
            before.lemma_resolve_in_flight(id as int, outcome);
            before.lemma_complete_inv(id as int, outcome);
            assert(before.in_flight().contains(id as int));
        }
        phases.set(id, Phase::Resolved(outcome));
        in_flight = in_flight - 1;
        let result = ProbeResult {
            name: targets[id].name.clone(),
            resolved_url: targets[id].url.clone(),
            outcome,
        };
        if cursor < phases.len() {
            phases.set(cursor, Phase::InFlight);
            launches.push(Launch { id: cursor, url: targets[cursor].url.clone() });
            cursor = cursor + 1;
            in_flight = in_flight + 1;
        }
        let ghost claimed_now = if outcome == Outcome::Claimed {
            claimed@.push(id as int)
        } else {
            claimed@
        };
        let ghost history_now = history@.push(Completion { id: id as int, outcome });
        proof {
            let after = before.complete(id as int, outcome);
            let batch = batch_of(targets@, phases@, cursor, claimed_now);
            assert(batch.probes =~= after.probes);
            assert(batch.launched =~= after.launched);
            assert(batch == after);
            after.lemma_in_flight_finite();
            after.lemma_finished_iff_drained();
            assert(history_now.drop_last() =~= history@);
            assert(after == Batch::after(targets_view(targets@), history_now));
        }
        let finished = cursor == phases.len() && in_flight == 0;
        *self = Scheduler {
            targets,
            phases,
            cursor,
            in_flight,
            claimed: Ghost(claimed_now),
            history: Ghost(history_now),
        };
        Some(Reaction { result: Some(result), launches, finished })
    }

    /// Whether every probe of the batch has reached its outcome.
    pub fn is_finished(&self) -> (finished: bool)
        ensures
            finished == self@.finished(),
    {
        proof {
            use_type_invariant(self);
            self.lemma_reached();
            self@.lemma_finished_iff_drained();
        }
        self.cursor == self.phases.len() && self.in_flight == 0
    }

    /// The number of probes in the batch.
    pub fn len(&self) -> (n: usize)
        ensures
            n == self@.probes.len(),
    {
        self.targets.len()
    }

    /// The number of probes in flight; never more than the window admits.
    pub fn in_flight(&self) -> (n: usize)
        ensures
            n == self@.in_flight().len(),
            n <= WINDOW,
    {
        proof {
            use_type_invariant(self);
            self.lemma_reached();
        }
        self.in_flight
    }

    /// Where probe `id` stands, if there is such a probe.
    pub fn phase(&self, id: usize) -> (phase: Option<Phase>)
        ensures
            phase == if id < self@.probes.len() {
                Some(self@.probes[id as int].phase)
            } else {
                None
            },
    {
        proof {
            use_type_invariant(self);
        }
        if id < self.phases.len() {
            Some(self.phases[id])
        } else {
            None
        }
    }

    /// What probe `id` asks about, if there is such a probe.
    pub fn target(&self, id: usize) -> (target: Option<&ProbeTarget>)
        ensures
            match target {
                Some(t) => id < self@.probes.len() && t@ == self@.probes[id as int].target,
                None => id >= self@.probes.len(),
            },
    {
        if id < self.targets.len() {
            Some(&self.targets[id])
        } else {
            None
        }
    }
}

} // verus!

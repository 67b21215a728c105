//! The batch of probes as a transition system over mathematical values.
//!
//! A batch starts with its first probes launched, up to the concurrency
//! window, and moves by one kind of step: the completion of a probe that is
//! in flight, which resolves that probe and launches the next pending one.
//! What holds of every state that a batch can reach is proved here.

use crate::probe::Outcome;
use vstd::prelude::*;
use vstd::set_lib::*;

verus! {

/// The concurrency window: the most probes that may be in flight at once.
pub const WINDOW: usize = 10;

/// Where one probe stands. A probe only ever moves forward: from pending to
/// in flight, and from there to its outcome.
#[derive(Clone, Copy, PartialEq, Eq, Debug, Structural)]
pub enum Phase {
    /// Not requested yet.
    Pending,
    /// Requested; the answer is outstanding.
    InFlight,
    /// Answered, or given up on.
    Resolved(Outcome),
}

/// What a probe asks about: a platform and the URL resolved for the username.
pub struct Target {
    pub name: Seq<char>,
    pub url: Seq<char>,
}

/// One probe of a batch.
pub struct ProbeState {
    pub target: Target,
    pub phase: Phase,
}

/// The end of one request, as reported to the batch.
pub struct Completion {
    pub id: int,
    pub outcome: Outcome,
}

/// A batch: its probes, each known by its index, together with the record of
/// what the batch has handed out so far.
pub struct Batch {
    /// The probes, in the order in which they are launched.
    pub probes: Seq<ProbeState>,
    /// The probes whose request has been issued, in the order of issue.
    pub launched: Seq<int>,
    /// The probes found claimed, in the order in which they resolved.
    pub claimed: Seq<int>,
}

/// Whether every report of `events` for a probe of `targets` carries the
/// outcome that `oracle` gives for that probe's URL: the platforms answer
/// the same way whenever they are asked.
pub open spec fn faithful(
    targets: Seq<Target>,
    events: Seq<Completion>,
    oracle: spec_fn(Seq<char>) -> Outcome,
) -> bool {
    forall|k: int|
        0 <= k < events.len() && 0 <= (#[trigger] events[k]).id < targets.len()
            ==> events[k].outcome == oracle(targets[events[k].id].url)
}

impl Batch {
    /// The probes with an outstanding request.
    pub open spec fn in_flight(self) -> Set<int> {
        Set::new(|id: int| 0 <= id < self.probes.len() && self.probes[id].phase == Phase::InFlight)
    }

    /// Whether every probe has reached its outcome.
    pub open spec fn finished(self) -> bool {
        forall|id: int| 0 <= id < self.probes.len() ==> (#[trigger] self.probes[id]).phase is Resolved
    }

    /// The batch at its start: the first probes, as many as the window
    /// admits, are in flight and all others pending.
    pub open spec fn start(targets: Seq<Target>) -> Batch {
        let first = if targets.len() <= WINDOW {
            targets.len()
        } else {
            WINDOW as nat
        };
        Batch {
            probes: Seq::new(
                targets.len(),
                |id: int|
                    ProbeState {
                        target: targets[id],
                        phase: if id < first {
                            Phase::InFlight
                        } else {
                            Phase::Pending
                        },
                    },
            ),
            launched: Seq::new(first, |k: int| k),
            claimed: Seq::empty(),
        }
    }

    /// Whether the completion of probe `id` can be accepted: the probe
    /// exists and its request is outstanding.
    pub open spec fn can_complete(self, id: int) -> bool {
        0 <= id < self.probes.len() && self.probes[id].phase == Phase::InFlight
    }

    /// Probe `id` reaches `outcome`; a claim is recorded.
    pub open spec fn resolve(self, id: int, outcome: Outcome) -> Batch {
        Batch {
            probes: self.probes.update(
                id,
                ProbeState { target: self.probes[id].target, phase: Phase::Resolved(outcome) },
            ),
            launched: self.launched,
            claimed: if outcome == Outcome::Claimed {
                self.claimed.push(id)
            } else {
                self.claimed
            },
        }
    }

    /// The next pending probe is launched, if there is one and the window
    /// has room for it.
    pub open spec fn refill(self) -> Batch {
        let id = self.launched.len() as int;
        if id < self.probes.len() && self.in_flight().len() < WINDOW {
            Batch {
                probes: self.probes.update(
                    id,
                    ProbeState { target: self.probes[id].target, phase: Phase::InFlight },
                ),
                launched: self.launched.push(id),
                claimed: self.claimed,
            }
        } else {
            self
        }
    }

    /// One step of the batch: probe `id` completes with `outcome`, and the
    /// place it leaves in the window is filled at once.
    pub open spec fn complete(self, id: int, outcome: Outcome) -> Batch {
        self.resolve(id, outcome).refill()
    }

    /// The state of a batch over `targets` after the reports `events`, in
    /// that order. A report for a probe that is not in flight changes nothing.
    pub open spec fn after(targets: Seq<Target>, events: Seq<Completion>) -> Batch
        decreases events.len(),
    {
        if events.len() == 0 {
            Batch::start(targets)
        } else {
            let before = Batch::after(targets, events.drop_last());
            let event = events.last();
            if before.can_complete(event.id) {
                before.complete(event.id, event.outcome)
            } else {
                before
            }
        }
    }

    /// Requests are issued in the order of the probes, and a probe is
    /// pending exactly as long as its request has not been issued.
    pub open spec fn launched_in_order(self) -> bool {
        &&& self.launched.len() <= self.probes.len()
        &&& forall|k: int| 0 <= k < self.launched.len() ==> #[trigger] self.launched[k] == k
        &&& forall|id: int|
            0 <= id < self.probes.len() ==> ((#[trigger] self.probes[id]).phase is Pending <==> id
                >= self.launched.len())
    }

    /// The window is never exceeded, and it is full while probes are pending.
    pub open spec fn window_respected(self) -> bool {
        &&& self.in_flight().len() <= WINDOW
        &&& self.in_flight().len() == WINDOW || self.launched.len() == self.probes.len()
    }

    /// The record of claims holds each claimed probe once, and no other.
    pub open spec fn claims_recorded(self) -> bool {
        &&& self.claimed.no_duplicates()
        &&& forall|k: int|
            0 <= k < self.claimed.len() ==> 0 <= #[trigger] self.claimed[k] < self.probes.len()
                && self.probes[self.claimed[k]].phase == Phase::Resolved(Outcome::Claimed)
        &&& forall|id: int|
            0 <= id < self.probes.len() && (#[trigger] self.probes[id]).phase == Phase::Resolved(
                Outcome::Claimed,
            ) ==> self.claimed.contains(id)
    }

    /// What holds of every state that a batch can reach.
    pub open spec fn inv(self) -> bool {
        &&& self.launched_in_order()
        &&& self.window_respected()
        &&& self.claims_recorded()
    }

    /// The probes in flight are finitely many, and no more than the probes.
    pub proof fn lemma_in_flight_finite(self)
        ensures
            self.in_flight().finite(),
            self.in_flight().len() <= self.probes.len(),
    {
        let all = set_int_range(0, self.probes.len() as int);
        lemma_int_range(0, self.probes.len() as int);
        assert(self.in_flight().subset_of(all));
        lemma_len_subset(self.in_flight(), all);
    }

    /// A batch starts in a state of which the invariant holds.
    pub proof fn lemma_start_inv(targets: Seq<Target>)
        ensures
            Batch::start(targets).inv(),
            Batch::start(targets).probes.len() == targets.len(),
            Batch::start(targets).in_flight().len() == Batch::start(targets).launched.len(),
    {
        let b = Batch::start(targets);
        let first = b.launched.len() as int;
        lemma_int_range(0, first);
        assert(b.in_flight() =~= set_int_range(0, first));
    }

    /// Resolving a probe in flight takes it, and nothing else, out of the
    /// set of probes in flight.
    pub proof fn lemma_resolve_in_flight(self, id: int, outcome: Outcome)
        requires
            self.can_complete(id),
        ensures
            self.resolve(id, outcome).in_flight() == self.in_flight().remove(id),
            self.resolve(id, outcome).in_flight().len() == self.in_flight().len() - 1,
    {
        self.lemma_in_flight_finite();
        assert(self.in_flight().contains(id));
        assert(self.resolve(id, outcome).in_flight() =~= self.in_flight().remove(id));
    }

    /// A step keeps the invariant. It issues one request if a probe was
    /// pending, and none otherwise.
    pub proof fn lemma_complete_inv(self, id: int, outcome: Outcome)
        requires
            self.inv(),
            self.can_complete(id),
        ensures
            self.complete(id, outcome).inv(),
            self.complete(id, outcome).probes.len() == self.probes.len(),
            self.launched.len() < self.probes.len() ==> {
                &&& self.complete(id, outcome).launched == self.launched.push(
                    self.launched.len() as int,
                )
                &&& self.complete(id, outcome).in_flight().len() == self.in_flight().len()
            },
            self.launched.len() == self.probes.len() ==> {
                &&& self.complete(id, outcome).launched == self.launched
                &&& self.complete(id, outcome).in_flight().len() == self.in_flight().len() - 1
            },
    {
        let resolved = self.resolve(id, outcome);
        let next = self.launched.len() as int;
        let done = self.complete(id, outcome);
        self.lemma_resolve_in_flight(id, outcome);
        resolved.lemma_in_flight_finite();
        assert(id < next) by {
            assert(!(self.probes[id].phase is Pending));
        }
        if next < self.probes.len() {
            assert(self.probes[next].phase is Pending);
            assert(!resolved.in_flight().contains(next));
            assert(done.in_flight() =~= resolved.in_flight().insert(next));
        }
        assert(done.launched_in_order());
        assert(done.window_respected());
        assert(done.claimed == resolved.claimed);
        if outcome == Outcome::Claimed {
            assert(!self.claimed.contains(id)) by {
                if self.claimed.contains(id) {
                    let k = choose|k: int| 0 <= k < self.claimed.len() && self.claimed[k] == id;
                    assert(self.probes[self.claimed[k]].phase == Phase::Resolved(Outcome::Claimed));
                }
            }
            assert(done.claimed.no_duplicates());
            assert forall|other: int|
                0 <= other < done.probes.len() && (#[trigger] done.probes[other]).phase
                    == Phase::Resolved(Outcome::Claimed) implies done.claimed.contains(other) by {
                if other == id {
                    assert(done.claimed[self.claimed.len() as int] == id);
                } else {
                    assert(self.probes[other].phase == Phase::Resolved(Outcome::Claimed));
                    let k = choose|k: int| 0 <= k < self.claimed.len() && self.claimed[k] == other;
                    assert(done.claimed[k] == other);
                }
            }
        } else {
            assert forall|other: int|
                0 <= other < done.probes.len() && (#[trigger] done.probes[other]).phase
                    == Phase::Resolved(Outcome::Claimed) implies done.claimed.contains(other) by {
                assert(self.probes[other].phase == Phase::Resolved(Outcome::Claimed));
            }
        }
        assert(done.claims_recorded());
    }

    /// The invariant holds of every state that a batch can reach.
    pub proof fn lemma_after_inv(targets: Seq<Target>, events: Seq<Completion>)
        ensures
            Batch::after(targets, events).inv(),
            Batch::after(targets, events).probes.len() == targets.len(),
        decreases events.len(),
    {
        if events.len() == 0 {
            Batch::lemma_start_inv(targets);
        } else {
            Batch::lemma_after_inv(targets, events.drop_last());
            let before = Batch::after(targets, events.drop_last());
            let event = events.last();
            if before.can_complete(event.id) {
                before.lemma_complete_inv(event.id, event.outcome);
            }
        }
    }

    /// A batch is finished exactly when every request has been issued and
    /// none is outstanding.
    pub proof fn lemma_finished_iff_drained(self)
        requires
            self.inv(),
        ensures
            self.finished() <==> (self.launched.len() == self.probes.len()
                && self.in_flight().len() == 0),
    {
        self.lemma_in_flight_finite();
        let n = self.probes.len() as int;
        if self.finished() {
            if n > 0 {
                assert(self.probes[n - 1].phase is Resolved);
            }
            assert(self.in_flight() =~= Set::<int>::empty());
        }
        if self.launched.len() == n && self.in_flight().len() == 0 {
            self.in_flight().lemma_len0_is_empty();
            assert forall|id: int| 0 <= id < n implies (#[trigger] self.probes[id]).phase is Resolved by {
                assert(!self.in_flight().contains(id));
            }
        }
    }

    /// A batch that is not finished has a probe in flight: there is always a
    /// request whose end the batch can wait for, and no outcome, whatever it
    /// is, brings the batch to a halt.
    pub proof fn lemma_unfinished_in_flight(self)
        requires
            self.inv(),
            !self.finished(),
        ensures
            self.in_flight().len() > 0,
            exists|id: int| self.can_complete(id),
    {
        self.lemma_in_flight_finite();
        self.lemma_finished_iff_drained();
        assert(self.in_flight().len() > 0);
        let id = self.in_flight().choose();
        assert(self.in_flight().contains(id));
        assert(self.can_complete(id));
    }

    /// A finished batch accepts no further report.
    pub proof fn lemma_finished_accepts_nothing(self, id: int)
        requires
            self.finished(),
        ensures
            !self.can_complete(id),
    {
        if 0 <= id < self.probes.len() {
            assert(self.probes[id].phase is Resolved);
        }
    }

    /// Every probe is requested at most once, a probe has been requested
    /// exactly if it is no longer pending, and in a finished batch every
    /// probe has been requested: none twice, none skipped.
    pub proof fn lemma_requested_exactly_once(self)
        requires
            self.inv(),
        ensures
            self.launched.no_duplicates(),
            forall|id: int| #[trigger]
                self.launched.contains(id) <==> (0 <= id < self.probes.len()
                    && !(self.probes[id].phase is Pending)),
            self.finished() ==> forall|id: int|
                0 <= id < self.probes.len() ==> #[trigger] self.launched.contains(id),
    {
        assert forall|id: int| #[trigger]
            self.launched.contains(id) <==> (0 <= id < self.probes.len()
                && !(self.probes[id].phase is Pending)) by {
            if 0 <= id < self.probes.len() && !(self.probes[id].phase is Pending) {
                assert(self.launched[id] == id);
            }
        }
        if self.finished() {
            assert forall|id: int| 0 <= id < self.probes.len() implies #[trigger]
                self.launched.contains(id) by {
                assert(self.probes[id].phase is Resolved);
            }
        }
    }

    /// At no point of any run are more probes in flight than the window
    /// admits, and the window is full as long as a probe is pending.
    pub proof fn lemma_window_never_exceeded(targets: Seq<Target>, events: Seq<Completion>)
        ensures
            Batch::after(targets, events).in_flight().len() <= WINDOW,
            Batch::after(targets, events).in_flight().len() == WINDOW || Batch::after(
                targets,
                events,
            ).launched.len() == targets.len(),
    {
        Batch::lemma_after_inv(targets, events);
    }

    /// Whether each outcome reached so far is the one that `oracle` gives
    /// for the probe's URL.
    pub open spec fn answers(self, oracle: spec_fn(Seq<char>) -> Outcome) -> bool {
        forall|id: int|
            0 <= id < self.probes.len() ==> ((#[trigger] self.probes[id]).phase matches Phase::Resolved(
                outcome,
            ) ==> outcome == oracle(self.probes[id].target.url))
    }

    /// The names of the platforms found claimed.
    pub open spec fn claimed_names(self) -> Set<Seq<char>> {
        Set::new(
            |name: Seq<char>|
                exists|id: int| #[trigger]
                    self.claimed.contains(id) && self.probes[id].target.name == name,
        )
    }

    /// A run keeps the targets it started with: a step changes phases only.
    pub proof fn lemma_after_targets(targets: Seq<Target>, events: Seq<Completion>)
        ensures
            Batch::after(targets, events).probes.len() == targets.len(),
            forall|id: int|
                0 <= id < targets.len() ==> (#[trigger] Batch::after(
                    targets,
                    events,
                ).probes[id]).target == targets[id],
        decreases events.len(),
    {
        if events.len() > 0 {
            Batch::lemma_after_targets(targets, events.drop_last());
        }
    }

    /// Of every run: no probe is requested twice, only probes of the batch
    /// are requested, and when the run is finished every probe has been
    /// requested.
    pub proof fn lemma_run_requests_each_once(targets: Seq<Target>, events: Seq<Completion>)
        ensures
            Batch::after(targets, events).launched.no_duplicates(),
            forall|id: int| #[trigger]
                Batch::after(targets, events).launched.contains(id) ==> 0 <= id < targets.len(),
            Batch::after(targets, events).finished() ==> forall|id: int|
                0 <= id < targets.len() ==> #[trigger] Batch::after(
                    targets,
                    events,
                ).launched.contains(id),
    {
        Batch::lemma_after_inv(targets, events);
        Batch::after(targets, events).lemma_requested_exactly_once();
    }

    /// If every report of a run is the oracle's answer for the URL probed,
    /// so is every outcome that the run has reached.
    pub proof fn lemma_after_answers(
        targets: Seq<Target>,
        events: Seq<Completion>,
        oracle: spec_fn(Seq<char>) -> Outcome,
    )
        requires
            faithful(targets, events, oracle),
        ensures
            Batch::after(targets, events).answers(oracle),
        decreases events.len(),
    {
        Batch::lemma_after_targets(targets, events);
        if events.len() > 0 {
            let earlier = events.drop_last();
            assert forall|k: int|
                0 <= k < earlier.len() && 0 <= (#[trigger] earlier[k]).id
                    < targets.len() implies earlier[k].outcome == oracle(
                targets[earlier[k].id].url,
            ) by {
                assert(earlier[k] == events[k]);
            }
            Batch::lemma_after_targets(targets, earlier);
            Batch::lemma_after_answers(targets, earlier, oracle);
            let event = events.last();
            assert(event == events[events.len() - 1]);
        }
    }

    /// Idempotence: two complete runs over the same targets, whose reports
    /// all agree with one oracle, find the same platforms claimed, in
    /// whatever order the reports came in.
    pub proof fn lemma_claims_independent_of_order(
        targets: Seq<Target>,
        oracle: spec_fn(Seq<char>) -> Outcome,
        first: Seq<Completion>,
        second: Seq<Completion>,
    )
        requires
            faithful(targets, first, oracle),
            faithful(targets, second, oracle),
            Batch::after(targets, first).finished(),
            Batch::after(targets, second).finished(),
        ensures
            Batch::after(targets, first).claimed.to_set() == Batch::after(
                targets,
                second,
            ).claimed.to_set(),
            Batch::after(targets, first).claimed_names() == Batch::after(
                targets,
                second,
            ).claimed_names(),
    {
        let a = Batch::after(targets, first);
        let b = Batch::after(targets, second);
        Batch::lemma_after_inv(targets, first);
        Batch::lemma_after_inv(targets, second);
        Batch::lemma_after_targets(targets, first);
        Batch::lemma_after_targets(targets, second);
        Batch::lemma_after_answers(targets, first, oracle);
        Batch::lemma_after_answers(targets, second, oracle);
        assert forall|id: int| a.claimed.contains(id) <==> b.claimed.contains(id) by {
            if a.claimed.contains(id) {
                let k = choose|k: int| 0 <= k < a.claimed.len() && a.claimed[k] == id;
                assert(a.probes[a.claimed[k]].phase == Phase::Resolved(Outcome::Claimed));
                assert(b.probes[id].phase is Resolved);
                assert(b.probes[id].target == a.probes[id].target);
            }
            if b.claimed.contains(id) {
                let k = choose|k: int| 0 <= k < b.claimed.len() && b.claimed[k] == id;
                assert(b.probes[b.claimed[k]].phase == Phase::Resolved(Outcome::Claimed));
                assert(a.probes[id].phase is Resolved);
                assert(a.probes[id].target == b.probes[id].target);
            }
        }
        assert(a.claimed.to_set() =~= b.claimed.to_set());
        assert forall|name: Seq<char>| a.claimed_names().contains(name) <==> b.claimed_names().contains(
            name,
        ) by {
            if a.claimed_names().contains(name) {
                let id = choose|id: int| #[trigger]
                    a.claimed.contains(id) && a.probes[id].target.name == name;
                let k = choose|k: int| 0 <= k < a.claimed.len() && a.claimed[k] == id;
                assert(0 <= a.claimed[k] < a.probes.len());
                assert(b.claimed.contains(id) && b.probes[id].target.name == name);
            }
            if b.claimed_names().contains(name) {
                let id = choose|id: int| #[trigger]
                    b.claimed.contains(id) && b.probes[id].target.name == name;
                let k = choose|k: int| 0 <= k < b.claimed.len() && b.claimed[k] == id;
                assert(0 <= b.claimed[k] < b.probes.len());
                assert(a.claimed.contains(id) && a.probes[id].target.name == name);
            }
        }
        assert(a.claimed_names() =~= b.claimed_names());
    }
}

} // verus!

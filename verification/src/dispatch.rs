//! The dispatcher: matches each event against the rule table in
//! declaration order, picks the first matching rule's command, and runs
//! at most one command at a time.

use vstd::prelude::*;

use crate::config::{clone_bytes, MatchRule, RuleModel};
use crate::event::Event;

verus! {

/// Whether an optional 16-bit condition accepts a field value: an
/// absent condition is a wildcard and accepts anything.
pub open spec fn cond_u16(want: Option<u16>, got: u16) -> bool {
    match want {
        Some(w) => got == w,
        None => true,
    }
}

/// Whether an optional 32-bit condition accepts a field value: an
/// absent condition is a wildcard and accepts anything.
pub open spec fn cond_i32(want: Option<i32>, got: i32) -> bool {
    match want {
        Some(w) => got == w,
        None => true,
    }
}

/// Whether a rule matches an event: every condition the rule sets must
/// equal the corresponding event field; wildcard fields never constrain
/// the match.
pub open spec fn rule_matches(r: RuleModel, e: Event) -> bool {
    cond_u16(r.wants_type, e.type_) && cond_u16(r.wants_code, e.code) && cond_i32(
        r.wants_value,
        e.value,
    )
}

/// Whether this rule matches this event.
pub fn event_matches(rule: &MatchRule, e: &Event) -> (r: bool)
    ensures
        r == rule_matches(rule@, *e),
{
    (match rule.wants_type {
        Some(w) => e.type_ == w,
        None => true,
    }) && (match rule.wants_code {
        Some(w) => e.code == w,
        None => true,
    }) && (match rule.wants_value {
        Some(w) => e.value == w,
        None => true,
    })
}

/// The position of the earliest-declared rule that matches the event,
/// if any rule does.
pub open spec fn first_match(rules: Seq<RuleModel>, e: Event) -> Option<int>
    decreases rules.len(),
{
    if rules.len() == 0 {
        None
    } else if rule_matches(rules[0], e) {
        Some(0)
    } else {
        match first_match(rules.skip(1), e) {
            None => None,
            Some(i) => Some(i + 1),
        }
    }
}

/// First-match-wins: the matched rule, when there is one, is the
/// earliest-declared rule whose set fields all equal the event's
/// corresponding fields, and when there is none, no rule's set fields
/// all match.
pub proof fn lemma_first_match_earliest(rules: Seq<RuleModel>, e: Event)
    ensures
        match first_match(rules, e) {
            Some(i) => 0 <= i < rules.len() && rule_matches(rules[i], e) && forall|j: int|
                0 <= j < i ==> !rule_matches(#[trigger] rules[j], e),
            None => forall|j: int| 0 <= j < rules.len() ==> !rule_matches(#[trigger] rules[j], e),
        },
    decreases rules.len(),
{
    if rules.len() > 0 && !rule_matches(rules[0], e) {
        lemma_first_match_earliest(rules.skip(1), e);
        assert forall|j: int| 1 <= j < rules.len() implies rules.skip(1)[j - 1] == rules[j] by {}
        match first_match(rules.skip(1), e) {
            Some(i) => {
                assert(rules.skip(1)[i] == rules[i + 1]);
                assert forall|j: int| 0 <= j < i + 1 implies !rule_matches(
                    #[trigger] rules[j],
                    e,
                ) by {
                    if j > 0 {
                        assert(!rule_matches(rules.skip(1)[j - 1], e));
                    }
                }
            },
            None => {
                assert forall|j: int| 0 <= j < rules.len() implies !rule_matches(
                    #[trigger] rules[j],
                    e,
                ) by {
                    if j > 0 {
                        assert(!rule_matches(rules.skip(1)[j - 1], e));
                    }
                }
            },
        }
    }
}

/// The earliest match is pinned by its characterization: a matching
/// position with no earlier match is the first match.
pub proof fn lemma_first_match_is(rules: Seq<RuleModel>, e: Event, i: int)
    requires
        0 <= i < rules.len(),
        rule_matches(rules[i], e),
        forall|j: int| 0 <= j < i ==> !rule_matches(#[trigger] rules[j], e),
    ensures
        first_match(rules, e) == Some(i),
{
    lemma_first_match_earliest(rules, e);
    match first_match(rules, e) {
        Some(k) => {
            if k < i {
                assert(!rule_matches(rules[k], e));
            } else if i < k {
                assert(!rule_matches(rules[i], e));
            }
        },
        None => {
            assert(!rule_matches(rules[i], e));
        },
    }
}

/// Scans the rule table in declaration order and returns the position
/// of the first rule that matches the event.
pub fn find_match(rules: &Vec<MatchRule>, e: &Event) -> (r: Option<usize>)
    ensures
        match r {
            Some(i) => i < rules@.len() && first_match(rules.deep_view(), *e) == Some(i as int),
            None => first_match(rules.deep_view(), *e) is None,
        },
{
    let ghost rv = rules.deep_view();
    let mut i: usize = 0;
    while i < rules.len()
        invariant
            i <= rules@.len(),
            rv == rules.deep_view(),
            rv.len() == rules@.len(),
            forall|j: int| 0 <= j < i ==> !rule_matches(#[trigger] rv[j], *e),
        decreases rules@.len() - i,
    {
        proof {
            assert(rv[i as int] == rules@[i as int]@);
        }
        if event_matches(&rules[i], e) {
            proof {
                lemma_first_match_is(rv, *e, i as int);
            }
            return Some(i);
        }
        i = i + 1;
    }
    proof {
        lemma_first_match_earliest(rv, *e);
        match first_match(rv, *e) {
            Some(k) => {
                assert(!rule_matches(rv[k], *e));
            },
            None => {},
        }
    }
    None
}

/// The dispatcher's phase: ready to take the next event, or waiting for
/// the command it started to exit.
#[derive(Clone, Copy, Debug, PartialEq, Eq, Structural)]
pub enum Phase {
    Ready,
    Running,
}

/// The single consumer of the event queue. It owns the rule table,
/// read-only, for its whole life, and it never starts a second command
/// while one is still running: an event is only taken in the ready
/// phase, and only observing the running command's exit makes the
/// dispatcher ready again.
pub struct Dispatcher {
    pub rules: Vec<MatchRule>,
    pub phase: Phase,
}

impl Dispatcher {
    /// A ready dispatcher owning the given rule table.
    pub fn new(rules: Vec<MatchRule>) -> (d: Dispatcher)
        ensures
            d.rules == rules,
            d.phase == Phase::Ready,
    {
        Dispatcher { rules, phase: Phase::Ready }
    }

    /// Takes one dequeued event while no command runs. Returns the
    /// command of the earliest-declared matching rule and enters the
    /// running phase, or nothing when no rule matches.
    pub fn on_event(&mut self, e: &Event) -> (cmd: Option<Vec<u8>>)
        requires
            old(self).phase == Phase::Ready,
        ensures
            final(self).rules == old(self).rules,
            match cmd {
                Some(c) => first_match(old(self).rules.deep_view(), *e) matches Some(i) && c@
                    == old(self).rules.deep_view()[i].command && final(self).phase
                    == Phase::Running,
                None => first_match(old(self).rules.deep_view(), *e) is None && final(self).phase
                    == Phase::Ready,
            },
    {
        match find_match(&self.rules, e) {
            Some(i) => {
                proof {
                    assert(self.rules.deep_view()[i as int] == self.rules@[i as int]@);
                }
                let c = clone_bytes(&self.rules[i].command);
                self.phase = Phase::Running;
                Some(c)
            },
            None => None,
        }
    }

    /// Observes the exit status of the command started last; only then
    /// is the dispatcher ready for the next event.
    pub fn on_command_exit(&mut self)
        requires
            old(self).phase == Phase::Running,
        ensures
            final(self).rules == old(self).rules,
            final(self).phase == Phase::Ready,
    {
        self.phase = Phase::Ready;
    }
}

/// One step of a dispatcher's life: processing one dequeued event, or
/// observing the exit status of the command it started.
#[derive(Clone, Copy, Debug, PartialEq, Eq, Structural)]
pub enum DispatchStep {
    Deliver(Event),
    ObserveExit,
}

/// Whether a step is possible in a phase, and the phase it leads to: an
/// event is only processed while ready (starting the matched rule's
/// command, if any), and only a running command's exit can be observed.
pub open spec fn step_phase(rules: Seq<RuleModel>, p: Phase, s: DispatchStep) -> Option<Phase> {
    match s {
        DispatchStep::Deliver(e) => if p == Phase::Ready {
            if first_match(rules, e) is Some {
                Some(Phase::Running)
            } else {
                Some(Phase::Ready)
            }
        } else {
            None
        },
        DispatchStep::ObserveExit => if p == Phase::Running {
            Some(Phase::Ready)
        } else {
            None
        },
    }
}

/// Whether the phases record a possible run of the dispatcher over the
/// steps: each step is possible in its phase and leads to the next.
pub open spec fn valid_trace(
    rules: Seq<RuleModel>,
    steps: Seq<DispatchStep>,
    phases: Seq<Phase>,
) -> bool {
    phases.len() == steps.len() + 1 && forall|k: int|
        0 <= k < steps.len() ==> step_phase(rules, phases[k], #[trigger] steps[k]) == Some(
            phases[k + 1],
        )
}

/// Whether a step starts a command: a delivered event that some rule
/// matches, taken in the ready phase.
pub open spec fn starts_command(rules: Seq<RuleModel>, p: Phase, s: DispatchStep) -> bool {
    p == Phase::Ready && match s {
        DispatchStep::Deliver(e) => first_match(rules, e) is Some,
        DispatchStep::ObserveExit => false,
    }
}

/// Command execution is serialized: in every possible run of the
/// dispatcher, between any two steps that start a command there is a
/// step that observes the first command's exit status. However many
/// events arrive while a command runs, they wait in the queue, and no
/// second command starts before the exit of the first has been
/// observed.
pub proof fn lemma_commands_serialized(
    rules: Seq<RuleModel>,
    steps: Seq<DispatchStep>,
    phases: Seq<Phase>,
    i: int,
    j: int,
)
    requires
        valid_trace(rules, steps, phases),
        0 <= i < j < steps.len(),
        starts_command(rules, phases[i], steps[i]),
        starts_command(rules, phases[j], steps[j]),
    ensures
        exists|k: int| i < k < j && steps[k] == DispatchStep::ObserveExit,
{
    assert(step_phase(rules, phases[i], steps[i]) == Some(phases[i + 1]));
    assert(phases[i + 1] == Phase::Running);
    assert(phases[j] == Phase::Ready);
    assert(j != i + 1);
    assert(step_phase(rules, phases[i + 1], steps[i + 1]) == Some(phases[i + 2]));
    assert(steps[i + 1] == DispatchStep::ObserveExit);
    assert(i < i + 1 < j && steps[i + 1] == DispatchStep::ObserveExit);
}

} // verus!

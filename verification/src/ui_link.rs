//! The link to the prompt helper: which failures end it, and how one prompt
//! recovers from a link that has gone stale.
//!
//! The caller holds the link, accepts a waiting helper and prompts; the steps
//! here say which of these comes next. Nothing is retried more than once, so a
//! flapping helper never holds up the daemon.

use crate::proto::Decision;
use vstd::prelude::*;

verus! {

/// Why accepting or prompting failed.
#[derive(Debug, Clone, Copy, PartialEq, Eq, Structural)]
pub enum IoErrorKind {
    BrokenPipe,
    UnexpectedEof,
    ConnectionReset,
    ConnectionAborted,
    NotConnected,
    /// How a read that timed out shows.
    WouldBlock,
    TimedOut,
    InvalidData,
    Other,
}

/// Whether a failure means that the connection is dead.
pub open spec fn ends_link(kind: IoErrorKind) -> bool {
    ||| kind == IoErrorKind::BrokenPipe
    ||| kind == IoErrorKind::UnexpectedEof
    ||| kind == IoErrorKind::ConnectionReset
    ||| kind == IoErrorKind::ConnectionAborted
    ||| kind == IoErrorKind::NotConnected
}

/// Whether a failed prompt means that the connection is dead. A read that timed
/// out does not: the access is denied and the link kept.
pub fn is_disconnect(kind: IoErrorKind) -> (r: bool)
    ensures
        r == ends_link(kind),
{
    matches!(
        kind,
        IoErrorKind::BrokenPipe | IoErrorKind::UnexpectedEof | IoErrorKind::ConnectionReset
            | IoErrorKind::ConnectionAborted | IoErrorKind::NotConnected
    )
}

/// What accepting without blocking came to.
#[derive(Debug, Clone, Copy, PartialEq, Eq, Structural)]
pub enum Accepted {
    Link,
    Nobody,
    Failed(IoErrorKind),
}

/// Reads the result of accepting without blocking: that it would have to wait
/// means that nobody is there.
pub fn try_accept(came: Result<(), IoErrorKind>) -> (r: Accepted)
    ensures
        r == (match came {
            Ok(_) => Accepted::Link,
            Err(IoErrorKind::WouldBlock) => Accepted::Nobody,
            Err(kind) => Accepted::Failed(kind),
        }),
{
    match came {
        Ok(()) => Accepted::Link,
        Err(IoErrorKind::WouldBlock) => Accepted::Nobody,
        Err(kind) => Accepted::Failed(kind),
    }
}

/// What a prompt came to.
#[derive(Debug, Clone, Copy, PartialEq, Eq, Structural)]
pub enum Prompted {
    Answer(Decision),
    Failed(IoErrorKind),
}

/// A helper is being accepted; `again` after the first try of this prompt.
#[derive(Debug, Clone, Copy, PartialEq, Eq, Structural)]
pub struct Accepting {
    pub again: bool,
}

/// The held link is being asked; `again` on the retry.
#[derive(Debug, Clone, Copy, PartialEq, Eq, Structural)]
pub struct Prompting {
    pub again: bool,
}

/// What comes next.
#[derive(Debug, Clone, Copy, PartialEq, Eq, Structural)]
pub enum Step {
    /// Drop the link, if one is held, and accept a waiting helper.
    Accept(Accepting),
    /// Prompt over the held link.
    Prompt(Prompting),
    /// The prompt is over; `held` says whether the link is kept.
    Return { result: Prompted, held: bool },
}

/// The first step of a prompt.
pub open spec fn first_step(held: bool) -> Step {
    if held {
        Step::Prompt(Prompting { again: false })
    } else {
        Step::Accept(Accepting { again: false })
    }
}

/// The step after accepting.
pub open spec fn step_accepted(a: Accepting, came: Accepted) -> Step {
    match came {
        Accepted::Link => Step::Prompt(Prompting { again: a.again }),
        Accepted::Failed(kind) => Step::Return { result: Prompted::Failed(kind), held: false },
        Accepted::Nobody => if a.again {
            Step::Return { result: Prompted::Failed(IoErrorKind::NotConnected), held: false }
        } else {
            Step::Accept(Accepting { again: true })
        },
    }
}

/// The step after prompting.
pub open spec fn step_prompted(p: Prompting, came: Prompted) -> Step {
    match came {
        Prompted::Answer(_) => Step::Return { result: came, held: true },
        Prompted::Failed(kind) => if !ends_link(kind) {
            Step::Return { result: came, held: true }
        } else if p.again {
            Step::Return { result: came, held: false }
        } else {
            Step::Accept(Accepting { again: true })
        },
    }
}

/// Starts a prompt; `held` says whether a link is there from before.
pub fn prompt_recovering(held: bool) -> (r: Step)
    ensures
        r == first_step(held),
{
    if held {
        Step::Prompt(Prompting { again: false })
    } else {
        Step::Accept(Accepting { again: false })
    }
}

impl Accepting {
    /// Goes on with what accepting came to.
    pub fn then_accepted(self, came: Accepted) -> (r: Step)
        ensures
            r == step_accepted(self, came),
    {
        match came {
            Accepted::Link => Step::Prompt(Prompting { again: self.again }),
            Accepted::Failed(kind) => Step::Return { result: Prompted::Failed(kind), held: false },
            Accepted::Nobody => if self.again {
                Step::Return { result: Prompted::Failed(IoErrorKind::NotConnected), held: false }
            } else {
                Step::Accept(Accepting { again: true })
            },
        }
    }
}

impl Prompting {
    /// Goes on with what the prompt came to.
    pub fn then_prompted(self, came: Prompted) -> (r: Step)
        ensures
            r == step_prompted(self, came),
    {
        match came {
            Prompted::Answer(_) => Step::Return { result: came, held: true },
            Prompted::Failed(kind) => if !is_disconnect(kind) {
                Step::Return { result: came, held: true }
            } else if self.again {
                Step::Return { result: came, held: false }
            } else {
                Step::Accept(Accepting { again: true })
            },
        }
    }
}

/// A whole prompt, given what the world answers: the `i`-th time a helper is
/// accepted it sees `accepts[i]`, the `i`-th time the link is asked `prompts[i]`.
/// Gives the end and how often each was done.
pub open spec fn run(step: Step, accepts: Seq<Accepted>, prompts: Seq<Prompted>, a: nat, p: nat) -> (
    Prompted,
    bool,
    nat,
    nat,
)
    decreases 3 - rank(step),
{
    match step {
        Step::Return { result, held } => (result, held, a, p),
        Step::Accept(s) => run(
            step_accepted(s, accepts[a as int]),
            accepts,
            prompts,
            a + 1,
            p,
        ),
        Step::Prompt(s) => run(
            step_prompted(s, prompts[p as int]),
            accepts,
            prompts,
            a,
            p + 1,
        ),
    }
}

/// How far along a step is.
pub open spec fn rank(step: Step) -> int {
    match step {
        Step::Accept(s) => if s.again {
            1
        } else {
            -1
        },
        Step::Prompt(s) => if s.again {
            2
        } else {
            0
        },
        Step::Return { .. } => 3,
    }
}

/// A prompt ends after at most two tries of each, whatever the world answers.
pub proof fn a_prompt_is_bounded(held: bool, accepts: Seq<Accepted>, prompts: Seq<Prompted>)
    ensures
        ({
            let end = run(first_step(held), accepts, prompts, 0, 0);
            end.2 <= 2 && end.3 <= 2
        }),
{
    reveal_with_fuel(run, 5);
}

/// The first access after the helper was restarted is answered: a stale link is
/// dropped, the waiting helper picked up, and its answer is the result.
pub proof fn stale_link_is_recovered(
    kind: IoErrorKind,
    decision: Decision,
    accepts: Seq<Accepted>,
    prompts: Seq<Prompted>,
)
    requires
        ends_link(kind),
        accepts.len() > 0,
        accepts[0] == Accepted::Link,
        prompts.len() > 1,
        prompts[0] == Prompted::Failed(kind),
        prompts[1] == Prompted::Answer(decision),
    ensures
        run(first_step(true), accepts, prompts, 0, 0) == (
            Prompted::Answer(decision),
            true,
            1nat,
            2nat,
        ),
{
    reveal_with_fuel(run, 5);
}

/// A timeout keeps the link and is not retried.
pub proof fn timeout_keeps_the_link(
    kind: IoErrorKind,
    accepts: Seq<Accepted>,
    prompts: Seq<Prompted>,
)
    requires
        !ends_link(kind),
        prompts.len() > 0,
        prompts[0] == Prompted::Failed(kind),
    ensures
        run(first_step(true), accepts, prompts, 0, 0) == (
            Prompted::Failed(kind),
            true,
            0nat,
            1nat,
        ),
{
    reveal_with_fuel(run, 3);
}

/// A link that ended a prompt by dying is never kept, and one that answered always is.
pub proof fn dead_links_are_dropped(held: bool, accepts: Seq<Accepted>, prompts: Seq<Prompted>)
    ensures
        ({
            let end = run(first_step(held), accepts, prompts, 0, 0);
            &&& end.0 is Answer ==> end.1
            &&& (end.0 matches Prompted::Failed(kind) && ends_link(kind)) ==> !end.1
        }),
{
    reveal_with_fuel(run, 5);
}

/// With nobody there, a prompt fails as not connected.
pub proof fn nobody_means_not_connected(accepts: Seq<Accepted>, prompts: Seq<Prompted>)
    requires
        accepts.len() > 1,
        accepts[0] == Accepted::Nobody,
        accepts[1] == Accepted::Nobody,
    ensures
        run(first_step(false), accepts, prompts, 0, 0) == (
            Prompted::Failed(IoErrorKind::NotConnected),
            false,
            2nat,
            0nat,
        ),
{
    reveal_with_fuel(run, 4);
}

/// A link is dead exactly after these five failures; a timeout is none of them.
pub proof fn five_failures_end_a_link(kind: IoErrorKind, r: bool)
    requires
        call_ensures(is_disconnect, (kind,), r),
    ensures
        match kind {
            IoErrorKind::BrokenPipe => r,
            IoErrorKind::UnexpectedEof => r,
            IoErrorKind::ConnectionReset => r,
            IoErrorKind::ConnectionAborted => r,
            IoErrorKind::NotConnected => r,
            IoErrorKind::WouldBlock => !r,
            IoErrorKind::TimedOut => !r,
            IoErrorKind::InvalidData => !r,
            IoErrorKind::Other => !r,
        },
        r == ends_link(kind),
{
}

/// Having to wait means that nobody is there; every other failure is reported.
pub proof fn accepting_is_read(came: Result<(), IoErrorKind>, r: Accepted)
    requires
        call_ensures(try_accept, (came,), r),
    ensures
        came is Ok <==> r == Accepted::Link,
        came matches Err(kind) ==> (r == Accepted::Nobody <==> kind == IoErrorKind::WouldBlock),
        came matches Err(kind) && kind != IoErrorKind::WouldBlock ==> r == Accepted::Failed(
            came->Err_0,
        ),
{
}

/// What the helper answers is the result: over a held link at once, or over the link of
/// a helper that waits.
pub proof fn answer_is_passed_on(d: Decision, accepts: Seq<Accepted>, prompts: Seq<Prompted>)
    requires
        prompts.len() > 0,
        prompts[0] == Prompted::Answer(d),
    ensures
        run(first_step(true), accepts, prompts, 0, 0) == (Prompted::Answer(d), true, 0nat, 1nat),
        accepts.len() > 0 && accepts[0] == Accepted::Link ==> run(
            first_step(false),
            accepts,
            prompts,
            0,
            0,
        ) == (Prompted::Answer(d), true, 1nat, 1nat),
        accepts.len() > 1 && accepts[0] == Accepted::Nobody && accepts[1] == Accepted::Link ==> run(
            first_step(false),
            accepts,
            prompts,
            0,
            0,
        ) == (Prompted::Answer(d), true, 2nat, 1nat),
{
    reveal_with_fuel(run, 5);
}

/// No decision is made up: a prompt that ends with one was given it by the helper, as
/// the last thing it was asked.
pub proof fn no_answer_is_made_up(held: bool, accepts: Seq<Accepted>, prompts: Seq<Prompted>)
    ensures
        ({
            let end = run(first_step(held), accepts, prompts, 0, 0);
            end.0 is Answer ==> end.3 > 0 && prompts[end.3 - 1] == end.0
        }),
{
    reveal_with_fuel(run, 5);
}

/// A helper that cannot be accepted ends the prompt with that failure, and no link.
pub proof fn failure_to_accept_is_reported(
    kind: IoErrorKind,
    accepts: Seq<Accepted>,
    prompts: Seq<Prompted>,
)
    requires
        accepts.len() > 0,
        accepts[0] == Accepted::Failed(kind),
    ensures
        run(first_step(false), accepts, prompts, 0, 0) == (
            Prompted::Failed(kind),
            false,
            1nat,
            0nat,
        ),
{
    reveal_with_fuel(run, 5);
}

/// The steps taken are those of the run.
pub proof fn steps_are_those_of_the_run(
    held: bool,
    a: Accepting,
    accepted: Accepted,
    p: Prompting,
    prompted: Prompted,
    first: Step,
    second: Step,
    third: Step,
)
    requires
        call_ensures(prompt_recovering, (held,), first),
        call_ensures(Accepting::then_accepted, (a, accepted), second),
        call_ensures(Prompting::then_prompted, (p, prompted), third),
    ensures
        first == first_step(held),
        second == step_accepted(a, accepted),
        third == step_prompted(p, prompted),
        held <==> first is Prompt,
        accepted == Accepted::Link <==> second is Prompt,
        prompted is Answer ==> third == (Step::Return { result: prompted, held: true }),
{
}

} // verus!

//! Polling a Cascade conversation: what each answer adds to the stream, and
//! whether to ask again.

use vstd::arithmetic::power2::pow2;
use vstd::prelude::*;

use crate::cascade::trajectory::{
    all_readable, byte_len, cursor_at, fresh_part, fresh_parts, is_readable, lemma_reach, moved,
    planner, planners, CascadeRunStatus, Channel, CortexStepType, Cursor, Planner,
    PlannerStepCursor, StepBody, TrajectoryResponse, TrajectoryStep,
};
use crate::grpc::Status;
use crate::mappers::delta::{deltas, CascadeDelta, Delta};

verus! {

/// The pause between two polls, in milliseconds.
pub const POLL_PAUSE_MS: u64 = 500;

/// How often a failed poll is tried again before the failure is passed on.
pub const MAX_POLL_RETRIES: u32 = 5;

/// How many idle answers in a row are waited out.
pub const MAX_IDLE_POLLS: u32 = 10;

/// How long a conversation may bring nothing before it is left, in
/// nanoseconds.
pub const PROGRESS_TIMEOUT_NS: u64 = 300_000_000_000;

/// What an answer said about the conversation.
#[derive(Debug, Clone, Copy, PartialEq, Eq, Structural)]
pub enum PollReport {
    /// There was no conversation in it.
    Empty,
    /// It held a snapshot of the conversation.
    Snapshot { made_progress: bool, idle: bool },
}

/// What to do next.
#[derive(Debug, PartialEq, Eq)]
pub enum PollAction {
    /// Wait so many milliseconds, then poll again.
    Wait(u64),
    /// Send the text that was held back, and end the stream.
    Finish(Vec<CascadeDelta>),
    /// End the stream with this failure; what is held back is not sent.
    Fail(Status),
}

/// The characters of each string.
pub open spec fn strings(list: Seq<String>) -> Seq<Seq<char>> {
    list.map_values(|s: String| s@)
}

/// The numbers of each cursor.
pub open spec fn cursors(list: Seq<PlannerStepCursor>) -> Seq<Cursor> {
    list.map_values(|c: PlannerStepCursor| c@)
}

/// The strings `list` as text increments.
pub open spec fn as_texts(list: Seq<Seq<char>>) -> Seq<Delta> {
    list.map_values(|s: Seq<char>| Delta::Text(s))
}

/// The strings `list` as reasoning increments.
pub open spec fn as_thinking(list: Seq<Seq<char>>) -> Seq<Delta> {
    list.map_values(|s: Seq<char>| Delta::Thinking(s))
}

/// The steps that an answer holds, if it holds a conversation.
pub open spec fn snapshot(response: TrajectoryResponse) -> Option<Seq<Option<Planner>>> {
    match response.trajectory {
        Some(t) => Some(planners(t.steps@)),
        None => None,
    }
}

/// Where the polling of a conversation stands.
pub struct Poll {
    /// What has been streamed of each step.
    pub cursors: Seq<Cursor>,
    /// Failed polls in a row.
    pub errors: nat,
    /// Idle answers in a row.
    pub idle: nat,
    /// When the last increment came, in nanoseconds.
    pub last_progress: nat,
    /// Text that waits for the end of the reasoning.
    pub pending: Seq<Seq<char>>,
    /// Whether text waits for the end of the reasoning.
    pub force_reasoning_before_text: bool,
}

impl Poll {
    /// A conversation before its first poll.
    pub open spec fn initial(force_reasoning_before_text: bool, now: nat) -> Poll {
        Poll {
            cursors: Seq::empty(),
            errors: 0,
            idle: 0,
            last_progress: now,
            pending: Seq::empty(),
            force_reasoning_before_text,
        }
    }

    /// The polling goes on.
    pub open spec fn live(self) -> bool {
        self.errors <= MAX_POLL_RETRIES && self.idle <= MAX_IDLE_POLLS
    }

    /// The cursors fit the texts of an answer.
    pub open spec fn fits(self, steps: Option<Seq<Option<Planner>>>) -> bool {
        steps matches Some(s) ==> all_readable(s, self.cursors)
    }

    /// Where the polling stands once an answer with `steps` is taken in.
    pub open spec fn received(self, steps: Option<Seq<Option<Planner>>>) -> Poll {
        match steps {
            None => Poll { errors: 0, ..self },
            Some(s) => Poll {
                errors: 0,
                cursors: moved(s, self.cursors),
                pending: if self.force_reasoning_before_text {
                    self.pending + fresh_parts(Channel::Text, s, self.cursors)
                } else {
                    Seq::empty()
                },
                ..self
            },
        }
    }

    /// What an answer with `steps` adds to the stream: all its reasoning, then
    /// all text that need not wait.
    pub open spec fn sent(self, steps: Option<Seq<Option<Planner>>>) -> Seq<Delta> {
        match steps {
            None => Seq::empty(),
            Some(s) => as_thinking(fresh_parts(Channel::Thinking, s, self.cursors)) + (
            if self.force_reasoning_before_text {
                Seq::empty()
            } else {
                as_texts(self.pending + fresh_parts(Channel::Text, s, self.cursors))
            }),
        }
    }

    /// What an answer says about the conversation.
    pub open spec fn report(
        self,
        steps: Option<Seq<Option<Planner>>>,
        status: CascadeRunStatus,
    ) -> PollReport {
        match steps {
            None => PollReport::Empty,
            Some(s) => PollReport::Snapshot {
                made_progress: {
                    ||| fresh_parts(Channel::Thinking, s, self.cursors).len() > 0
                    ||| fresh_parts(Channel::Text, s, self.cursors).len() > 0
                },
                idle: status == CascadeRunStatus::Idle,
            },
        }
    }

    /// Where the polling stands at `now`, once what an answer brought is sent.
    pub open spec fn settled(self, report: PollReport, now: nat) -> Poll {
        match report {
            PollReport::Empty => self,
            PollReport::Snapshot { made_progress, idle } => Poll {
                last_progress: if made_progress {
                    now
                } else {
                    self.last_progress
                },
                idle: if !idle {
                    0
                } else if made_progress {
                    1
                } else {
                    self.idle + 1
                },
                ..self
            },
        }
    }

    /// Nothing has come for too long.
    pub open spec fn timed_out(self, now: nat) -> bool {
        now - self.last_progress > PROGRESS_TIMEOUT_NS
    }

    /// An answer that is settled at `now` is the last one.
    pub open spec fn ends(self, report: PollReport, now: nat) -> bool {
        let after = self.settled(report, now);
        ||| report is Snapshot && after.idle > MAX_IDLE_POLLS
        ||| after.timed_out(now)
    }

    /// Where the polling stands after a failed poll.
    pub open spec fn failed(self) -> Poll {
        if self.errors < MAX_POLL_RETRIES {
            Poll { errors: self.errors + 1, ..self }
        } else {
            self
        }
    }

    /// How long to wait after a failed poll that is tried again, in
    /// milliseconds: one second, doubled with each failure before it, and the
    /// usual pause.
    pub open spec fn backoff(self) -> int {
        1000 * pow2(self.errors) + POLL_PAUSE_MS
    }
}

/// The polling of one conversation.
pub struct CascadePoll {
    planner_step_cursors: Vec<PlannerStepCursor>,
    error_retry_count: u32,
    idle_poll_count: u32,
    last_progress_at: u64,
    pending_text_deltas: Vec<String>,
    force_reasoning_before_text: bool,
}

impl View for CascadePoll {
    type V = Poll;

    closed spec fn view(&self) -> Poll {
        Poll {
            cursors: cursors(self.planner_step_cursors@),
            errors: self.error_retry_count as nat,
            idle: self.idle_poll_count as nat,
            last_progress: self.last_progress_at as nat,
            pending: strings(self.pending_text_deltas@),
            force_reasoning_before_text: self.force_reasoning_before_text,
        }
    }
}

/// The planner response of a step that has one.
fn planner_response(step: &TrajectoryStep) -> (found: Option<(&str, &str)>)
    ensures
        found matches Some(p) ==> planner(*step) == Some(
            Planner { response: p.0@, thinking: p.1@ },
        ),
        found is None ==> planner(*step) is None,
{
    if step.kind != CortexStepType::PlannerResponse {
        return None;
    }
    match &step.step {
        Some(StepBody::PlannerResponse(pr)) => Some((pr.response.as_str(), pr.thinking.as_str())),
        _ => None,
    }
}

/// The cursor of step `i`.
fn cursor_of(list: &Vec<PlannerStepCursor>, i: usize) -> (cursor: PlannerStepCursor)
    ensures
        cursor@ == cursor_at(cursors(list@), i as int),
{
    if i < list.len() {
        list[i]
    } else {
        PlannerStepCursor::default()
    }
}

/// Takes in the steps of a snapshot: the reasoning and the text that they add,
/// with the cursors moved behind them.
fn scan(steps: &Vec<TrajectoryStep>, list: &mut Vec<PlannerStepCursor>) -> (added: (
    Vec<String>,
    Vec<String>,
))
    requires
        all_readable(planners(steps@), cursors(old(list)@)),
    ensures
        cursors(final(list)@) == moved(planners(steps@), cursors(old(list)@)),
        strings(added.0@) == fresh_parts(Channel::Thinking, planners(steps@), cursors(old(list)@)),
        strings(added.1@) == fresh_parts(Channel::Text, planners(steps@), cursors(old(list)@)),
{
    let ghost start = cursors(list@);
    let ghost all = planners(steps@);
    let mut thinking: Vec<String> = Vec::new();
    let mut text: Vec<String> = Vec::new();
    let mut i: usize = 0;
    while i < steps.len()
        invariant
            i <= steps@.len(),
            all == planners(steps@),
            all_readable(all, start),
            cursors(list@) == moved(all.take(i as int), start),
            strings(thinking@) == fresh_parts(Channel::Thinking, all.take(i as int), start),
            strings(text@) == fresh_parts(Channel::Text, all.take(i as int), start),
        decreases steps@.len() - i,
    {
        let ghost before = all.take(i as int);
        let ghost with = all.take(i + 1);
        let ghost entry = cursors(list@);
        assert(with.drop_last() == before);
        assert(all[i as int] == planner(steps@[i as int]));
        if let Some((response, reasoning)) = planner_response(&steps[i]) {
            let cursor = cursor_of(list, i);
            let new_thinking = fresh_part(reasoning, cursor.thinking_len);
            if !new_thinking.is_empty() {
                thinking.push(new_thinking.to_owned());
            }
            let new_text = fresh_part(response, cursor.text_len);
            if !new_text.is_empty() {
                text.push(new_text.to_owned());
            }
            if list.len() <= i {
                list.resize(i + 1, PlannerStepCursor::default());
            }
            list[i] = PlannerStepCursor {
                text_len: byte_len(response),
                thinking_len: byte_len(reasoning),
            };
        }
        proof {
            lemma_reach(before);
            let got = cursors(list@);
            let want = moved(with, start);
            assert forall|j: int| 0 <= j < got.len() implies got[j] == want[j] by {
                if j != i {
                    assert(got[j] == cursor_at(entry, j));
                }
            }
        }
        i = i + 1;
    }
    assert(all.take(steps@.len() as int) == all);
    (thinking, text)
}

/// Puts the strings `list` behind `out`, as reasoning.
fn push_thinking(out: &mut Vec<CascadeDelta>, list: Vec<String>)
    ensures
        deltas(final(out)@) == deltas(old(out)@) + as_thinking(strings(list@)),
{
    let ghost start = out@;
    for s in it: list
        invariant
            it.seq() == list@,
            deltas(out@) == deltas(start) + as_thinking(strings(list@.take(it.index() as int))),
    {
        let ghost next = Delta::Thinking(s@);
        let ghost grown = deltas(out@).push(next);
        out.push(CascadeDelta::Thinking(s));
        assert(deltas(out@) == grown);
    }
}

/// Puts the strings `list` behind `out`, as text.
fn push_texts(out: &mut Vec<CascadeDelta>, list: Vec<String>)
    ensures
        deltas(final(out)@) == deltas(old(out)@) + as_texts(strings(list@)),
{
    let ghost start = out@;
    for s in it: list
        invariant
            it.seq() == list@,
            deltas(out@) == deltas(start) + as_texts(strings(list@.take(it.index() as int))),
    {
        let ghost next = Delta::Text(s@);
        let ghost grown = deltas(out@).push(next);
        out.push(CascadeDelta::Text(s));
        assert(deltas(out@) == grown);
    }
}

impl CascadePoll {
    /// Starts to poll a conversation at `now`, in nanoseconds.
    pub fn new(force_reasoning_before_text: bool, now: u64) -> (poll: Self)
        ensures
            poll@ == Poll::initial(force_reasoning_before_text, now as nat),
            poll@.live(),
    {
        let poll = CascadePoll {
            planner_step_cursors: Vec::new(),
            error_retry_count: 0,
            idle_poll_count: 0,
            last_progress_at: now,
            pending_text_deltas: Vec::new(),
            force_reasoning_before_text,
        };
        assert(poll@.cursors == Seq::<Cursor>::empty());
        assert(poll@.pending == Seq::<Seq<char>>::empty());
        poll
    }

    /// Whether the texts of an answer can be cut where the stream stands. They
    /// cannot where a text was rewritten, at no lesser length, so that the
    /// stream stands within one of its characters.
    pub fn can_receive(&self, response: &TrajectoryResponse) -> (ok: bool)
        ensures
            ok == self@.fits(snapshot(*response)),
    {
        let steps = match &response.trajectory {
            Some(t) => &t.steps,
            None => {
                return true;
            },
        };
        let ghost all = planners(steps@);
        let mut i: usize = 0;
        while i < steps.len()
            invariant
                i <= steps@.len(),
                all == planners(steps@),
                all_readable(all.take(i as int), self@.cursors),
                snapshot(*response) == Some(all),
            decreases steps@.len() - i,
        {
            assert(all[i as int] == planner(steps@[i as int]));
            if let Some((response_text, reasoning)) = planner_response(&steps[i]) {
                let cursor = cursor_of(&self.planner_step_cursors, i);
                if !is_readable(reasoning, cursor.thinking_len) || !is_readable(
                    response_text,
                    cursor.text_len,
                ) {
                    return false;
                }
            }
            i = i + 1;
        }
        assert(all.take(steps@.len() as int) == all);
        true
    }

    /// Takes in the answer to a poll: what it adds to the stream now, and what
    /// it says about the conversation.
    pub fn receive(&mut self, response: &TrajectoryResponse) -> (out: (
        Vec<CascadeDelta>,
        PollReport,
    ))
        requires
            old(self)@.fits(snapshot(*response)),
        ensures
            final(self)@ == old(self)@.received(snapshot(*response)),
            deltas(out.0@) == old(self)@.sent(snapshot(*response)),
            out.1 == old(self)@.report(snapshot(*response), response.status),
            response.trajectory is None <==> out.1 is Empty,
            response.trajectory matches Some(t) ==> {
                &&& snapshot(*response) == Some(planners(t.steps@))
                &&& out.1 matches PollReport::Snapshot { idle, .. } && idle == (response.status
                    == CascadeRunStatus::Idle)
            },
    {
        let ghost before = self@;
        self.error_retry_count = 0;
        let mut out: Vec<CascadeDelta> = Vec::new();
        let steps = match &response.trajectory {
            Some(t) => &t.steps,
            None => {
                return (out, PollReport::Empty);
            },
        };
        let (thinking, mut text) = scan(steps, &mut self.planner_step_cursors);
        let made_progress = thinking.len() > 0 || text.len() > 0;
        push_thinking(&mut out, thinking);
        let ghost held = self.pending_text_deltas@;
        self.pending_text_deltas.append(&mut text);
        if !self.force_reasoning_before_text {
            let mut released: Vec<String> = Vec::new();
            released.append(&mut self.pending_text_deltas);
            push_texts(&mut out, released);
        }
        let report = PollReport::Snapshot {
            made_progress,
            idle: response.status == CascadeRunStatus::Idle,
        };
        proof {
            assert(self@.pending == before.received(snapshot(*response)).pending);
        }
        (out, report)
    }

    /// Decides at `now`, in nanoseconds, whether to ask again, once what the
    /// last answer brought is sent. At the end the text that was held back is
    /// released.
    pub fn settle(&mut self, report: PollReport, now: u64) -> (action: PollAction)
        requires
            old(self)@.live(),
        ensures
            old(self)@.ends(report, now as nat) ==> {
                &&& action matches PollAction::Finish(out) && deltas(out@) == as_texts(
                    old(self)@.pending,
                )
                &&& final(self)@ == (Poll {
                    pending: Seq::empty(),
                    ..old(self)@.settled(report, now as nat)
                })
            },
            !old(self)@.ends(report, now as nat) ==> {
                &&& action == PollAction::Wait(POLL_PAUSE_MS)
                &&& final(self)@ == old(self)@.settled(report, now as nat)
                &&& final(self)@.live()
            },
    {
        if let PollReport::Snapshot { made_progress, idle } = report {
            if made_progress {
                self.last_progress_at = now;
                self.idle_poll_count = 0;
            }
            if idle {
                self.idle_poll_count = self.idle_poll_count + 1;
            } else {
                self.idle_poll_count = 0;
            }
            if self.idle_poll_count > MAX_IDLE_POLLS {
                return PollAction::Finish(self.release());
            }
        }
        if now >= self.last_progress_at && now - self.last_progress_at > PROGRESS_TIMEOUT_NS {
            return PollAction::Finish(self.release());
        }
        PollAction::Wait(POLL_PAUSE_MS)
    }

    /// Decides after a failed poll whether to try again.
    pub fn fail(&mut self, status: Status) -> (action: PollAction)
        requires
            old(self)@.live(),
        ensures
            final(self)@ == old(self)@.failed(),
            final(self)@.live(),
            old(self)@.errors < MAX_POLL_RETRIES ==> (action matches PollAction::Wait(ms) && ms
                == old(self)@.backoff()),
            old(self)@.errors >= MAX_POLL_RETRIES ==> action == PollAction::Fail(status),
    {
        if self.error_retry_count < MAX_POLL_RETRIES {
            let count: u32 = self.error_retry_count;
            assert(1u64 << 0u32 == 1 && 1u64 << 1u32 == 2 && 1u64 << 2u32 == 4 && 1u64 << 3u32 == 8
                && 1u64 << 4u32 == 16) by (bit_vector);
            let delay: u64 = 1u64 << count;
            proof {
                vstd::arithmetic::power2::lemma2_to64();
            }
            self.error_retry_count = count + 1;
            PollAction::Wait(1000 * delay + POLL_PAUSE_MS)
        } else {
            PollAction::Fail(status)
        }
    }

    /// Releases the text that was held back.
    fn release(&mut self) -> (out: Vec<CascadeDelta>)
        ensures
            deltas(out@) == as_texts(old(self)@.pending),
            final(self)@ == (Poll { pending: Seq::empty(), ..old(self)@ }),
    {
        let mut held: Vec<String> = Vec::new();
        held.append(&mut self.pending_text_deltas);
        let mut out: Vec<CascadeDelta> = Vec::new();
        push_texts(&mut out, held);
        assert(self@.pending == Seq::<Seq<char>>::empty());
        out
    }
}

} // verus!

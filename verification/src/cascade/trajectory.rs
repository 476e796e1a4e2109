//! What a poll of a Cascade conversation brings back, and what of it has not
//! been streamed yet.

use vstd::prelude::*;
use vstd::utf8::*;

verus! {

/// What the planner has said so far in one step.
#[derive(Debug)]
pub struct PlannerResponse {
    pub response: String,
    pub thinking: String,
}

/// The declared type of a step.
#[derive(Debug, Clone, Copy, PartialEq, Eq, Structural)]
pub enum CortexStepType {
    PlannerResponse,
    Other,
}

/// The body that a step carries.
#[derive(Debug)]
pub enum StepBody {
    PlannerResponse(PlannerResponse),
    Other,
}

/// One step of a conversation.
#[derive(Debug)]
pub struct TrajectoryStep {
    pub kind: CortexStepType,
    pub step: Option<StepBody>,
}

/// Whether the engine is at work on the conversation.
#[derive(Debug, Clone, Copy, PartialEq, Eq, Structural)]
pub enum CascadeRunStatus {
    Idle,
    Other,
}

/// The steps of a conversation up to now.
#[derive(Debug)]
pub struct Trajectory {
    pub steps: Vec<TrajectoryStep>,
}

/// The answer to one poll.
#[derive(Debug)]
pub struct TrajectoryResponse {
    pub status: CascadeRunStatus,
    pub trajectory: Option<Trajectory>,
}

/// How much of one step has been streamed, in bytes.
#[derive(Debug, Clone, Copy)]
pub struct PlannerStepCursor {
    pub text_len: usize,
    pub thinking_len: usize,
}

/// A planner step by its characters.
pub struct Planner {
    pub response: Seq<char>,
    pub thinking: Seq<char>,
}

/// A cursor by its numbers.
pub struct Cursor {
    pub text_len: nat,
    pub thinking_len: nat,
}

impl View for PlannerStepCursor {
    type V = Cursor;

    open spec fn view(&self) -> Cursor {
        Cursor { text_len: self.text_len as nat, thinking_len: self.thinking_len as nat }
    }
}

impl Default for PlannerStepCursor {
    fn default() -> (cursor: Self)
        ensures
            cursor == (PlannerStepCursor { text_len: 0, thinking_len: 0 }),
    {
        PlannerStepCursor { text_len: 0, thinking_len: 0 }
    }
}

/// A step that both declares itself a planner response and carries one.
pub open spec fn planner(step: TrajectoryStep) -> Option<Planner> {
    match (step.kind, step.step) {
        (CortexStepType::PlannerResponse, Some(StepBody::PlannerResponse(pr))) => Some(
            Planner { response: pr.response@, thinking: pr.thinking@ },
        ),
        _ => None,
    }
}

/// The steps of a snapshot, `None` where a step is no planner response.
pub open spec fn planners(steps: Seq<TrajectoryStep>) -> Seq<Option<Planner>> {
    steps.map_values(|s: TrajectoryStep| planner(s))
}

/// The number of bytes that the characters `s` take up.
pub open spec fn size(s: Seq<char>) -> nat {
    encode_utf8(s).len()
}

/// What is new in `s` when its first `seen` bytes are known. A text shorter
/// than that was written anew, and all of it counts as new.
pub open spec fn fresh(s: Seq<char>, seen: nat) -> Seq<char> {
    if size(s) < seen {
        s
    } else {
        decode_utf8(encode_utf8(s).subrange(seen as int, size(s) as int))
    }
}

/// `s` can be cut behind its first `seen` bytes, where it has as many.
pub open spec fn readable(s: Seq<char>, seen: nat) -> bool {
    size(s) < seen || is_char_boundary(encode_utf8(s), seen as int)
}

/// The cursor of step `i`; a step that was never seen starts at nothing.
pub open spec fn cursor_at(cursors: Seq<Cursor>, i: int) -> Cursor {
    if 0 <= i < cursors.len() {
        cursors[i]
    } else {
        Cursor { text_len: 0, thinking_len: 0 }
    }
}

/// Every planner step of a snapshot can be cut at its cursor.
pub open spec fn all_readable(steps: Seq<Option<Planner>>, cursors: Seq<Cursor>) -> bool {
    forall|i: int|
        #![trigger steps[i]]
        0 <= i < steps.len() ==> (steps[i] matches Some(p) ==> {
            &&& readable(p.thinking, cursor_at(cursors, i).thinking_len)
            &&& readable(p.response, cursor_at(cursors, i).text_len)
        })
}

/// The list `[s]`, or no list where `s` is empty.
pub open spec fn unless_empty(s: Seq<char>) -> Seq<Seq<char>> {
    if s.len() == 0 {
        Seq::empty()
    } else {
        seq![s]
    }
}

/// The two channels on which a planner step speaks.
pub enum Channel {
    Thinking,
    Text,
}

/// What a planner step has said on one channel.
pub open spec fn said(p: Planner, channel: Channel) -> Seq<char> {
    match channel {
        Channel::Thinking => p.thinking,
        Channel::Text => p.response,
    }
}

/// How much of one channel a cursor has passed.
pub open spec fn seen(cursor: Cursor, channel: Channel) -> nat {
    match channel {
        Channel::Thinking => cursor.thinking_len,
        Channel::Text => cursor.text_len,
    }
}

/// What a snapshot adds on one channel, step by step.
pub open spec fn fresh_parts(
    channel: Channel,
    steps: Seq<Option<Planner>>,
    cursors: Seq<Cursor>,
) -> Seq<Seq<char>>
    decreases steps.len(),
{
    if steps.len() == 0 {
        Seq::empty()
    } else {
        let i = steps.len() - 1;
        fresh_parts(channel, steps.drop_last(), cursors) + (match steps[i] {
            Some(p) => unless_empty(
                fresh(said(p, channel), seen(cursor_at(cursors, i), channel)),
            ),
            None => Seq::empty(),
        })
    }
}

/// The number of steps up to and with the last planner step.
pub open spec fn reach(steps: Seq<Option<Planner>>) -> nat
    decreases steps.len(),
{
    if steps.len() == 0 {
        0
    } else if steps.last() is Some {
        steps.len()
    } else {
        reach(steps.drop_last())
    }
}

/// Behind the reach of a snapshot there are no planner steps.
pub proof fn lemma_reach(steps: Seq<Option<Planner>>)
    ensures
        reach(steps) <= steps.len(),
        forall|i: int| reach(steps) <= i < steps.len() ==> (#[trigger] steps[i]) is None,
    decreases steps.len(),
{
    if steps.len() > 0 && steps.last() is None {
        lemma_reach(steps.drop_last());
        assert forall|i: int| reach(steps) <= i < steps.len() implies (
        #[trigger] steps[i]) is None by {
            if i < steps.len() - 1 {
                assert(steps.drop_last()[i] == steps[i]);
            }
        }
    }
}

/// The cursors behind a snapshot: at the end of each planner step that it
/// holds, and elsewhere as they were.
pub open spec fn moved(steps: Seq<Option<Planner>>, cursors: Seq<Cursor>) -> Seq<Cursor> {
    Seq::new(
        if reach(steps) > cursors.len() {
            reach(steps)
        } else {
            cursors.len()
        },
        |i: int|
            if 0 <= i < steps.len() && steps[i] is Some {
                Cursor {
                    text_len: size(steps[i]->0.response),
                    thinking_len: size(steps[i]->0.thinking),
                }
            } else {
                cursor_at(cursors, i)
            },
    )
}

/// The length of `s` in bytes.
pub fn byte_len(s: &str) -> (n: usize)
    ensures
        n == size(s@),
{
    s.as_bytes().len()
}

/// Whether `s` can be cut behind its first `seen` bytes, where it has as
/// many.
pub(crate) fn is_readable(s: &str, seen: usize) -> (ok: bool)
    ensures
        ok == readable(s@, seen as nat),
{
    byte_len(s) < seen || s.is_char_boundary(seen)
}

/// What is new in `s` when its first `seen` bytes are known.
pub(crate) fn fresh_part(s: &str, seen: usize) -> (part: &str)
    requires
        readable(s@, seen as nat),
    ensures
        part@ == fresh(s@, seen as nat),
{
    if byte_len(s) < seen {
        s
    } else {
        let part = s.split_at(seen).1;
        proof {
            encode_utf8_decode_utf8(part@);
        }
        part
    }
}

} // verus!

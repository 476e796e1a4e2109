//! What each call on a poll does, in terms of the answer that it is given.

use vstd::prelude::*;
use vstd::utf8::*;

use crate::cascade::laws::{
    law_growth_is_fresh, lemma_encode_concat, lemma_items, lemma_items_concat, text_items,
    thinking_items,
};
use crate::cascade::poll::{as_texts, as_thinking, CascadePoll, Poll, PollAction, PollReport};
use crate::cascade::trajectory::{
    cursor_at, fresh, fresh_parts, lemma_reach, moved, planner, planners, readable, size,
    unless_empty, CascadeRunStatus, Channel, CortexStepType, Cursor, Planner, PlannerResponse,
    StepBody, TrajectoryResponse, TrajectoryStep,
};
use crate::grpc::Status;
use crate::mappers::delta::{deltas, CascadeDelta, Delta};

verus! {

/// The strings of the text increments in `list`, in order.
pub open spec fn text_strings(list: Seq<CascadeDelta>) -> Seq<Seq<char>>
    decreases list.len(),
{
    if list.len() == 0 {
        Seq::empty()
    } else {
        text_strings(list.drop_last()) + (match list.last() {
            CascadeDelta::Text(s) => seq![s@],
            CascadeDelta::Thinking(_) => Seq::empty(),
        })
    }
}

/// The strings of the reasoning increments in `list`, in order.
pub open spec fn thinking_strings(list: Seq<CascadeDelta>) -> Seq<Seq<char>>
    decreases list.len(),
{
    if list.len() == 0 {
        Seq::empty()
    } else {
        thinking_strings(list.drop_last()) + (match list.last() {
            CascadeDelta::Text(_) => Seq::empty(),
            CascadeDelta::Thinking(s) => seq![s@],
        })
    }
}

/// What a step says, where it both declares itself a planner response and
/// carries one.
pub open spec fn speech(step: TrajectoryStep) -> Option<PlannerResponse> {
    if step.kind == CortexStepType::PlannerResponse {
        match step.step {
            Some(StepBody::PlannerResponse(pr)) => Some(pr),
            _ => None,
        }
    } else {
        None
    }
}

/// The bytes of the text of step `i` that have been taken in.
pub open spec fn known_text(poll: Poll, i: int) -> nat {
    if 0 <= i < poll.cursors.len() {
        poll.cursors[i].text_len
    } else {
        0
    }
}

/// The bytes of the reasoning of step `i` that have been taken in.
pub open spec fn known_thinking(poll: Poll, i: int) -> nat {
    if 0 <= i < poll.cursors.len() {
        poll.cursors[i].thinking_len
    } else {
        0
    }
}

/// `added` is the end of `s` behind its first `known` bytes, or all of `s` where
/// it has fewer.
pub open spec fn is_added(s: Seq<char>, known: nat, added: Seq<char>) -> bool {
    if encode_utf8(s).len() < known {
        added == s
    } else {
        added.is_suffix_of(s) && known + encode_utf8(added).len() == encode_utf8(s).len()
    }
}

/// The list of `s`, where it has a character.
pub open spec fn as_item(s: Seq<char>) -> Seq<Seq<char>> {
    if s.len() > 0 {
        seq![s]
    } else {
        Seq::empty()
    }
}

/// `s` has characters that its first `known` bytes do not tell.
pub open spec fn has_news(s: Seq<char>, known: nat) -> bool {
    encode_utf8(s).len() > 0 && encode_utf8(s).len() != known
}

/// Step `i` of `steps` brings something new on either channel.
pub open spec fn brings_news(poll: Poll, steps: Seq<TrajectoryStep>, i: int) -> bool {
    speech(steps[i]) matches Some(pr) && (has_news(pr.thinking@, known_thinking(poll, i))
        || has_news(pr.response@, known_text(poll, i)))
}

/// A step as it speaks, by its characters.
proof fn lemma_speech(step: TrajectoryStep)
    ensures
        speech(step) matches Some(pr) ==> planner(step) == Some(
            Planner { response: pr.response@, thinking: pr.thinking@ },
        ),
        speech(step) is None ==> planner(step) is None,
{
}

/// What `is_added` says is what counts as new, and the text can be cut there.
proof fn lemma_added(s: Seq<char>, known: nat, added: Seq<char>)
    requires
        is_added(s, known, added),
    ensures
        fresh(s, known) == added,
        readable(s, known),
{
    if size(s) >= known {
        let front = s.take(s.len() - added.len());
        assert(s == front + added);
        lemma_encode_concat(front, added);
        law_growth_is_fresh(front, s);
        assert(front + fresh(s, known) == front + added);
        assert((front + fresh(s, known)).skip(front.len() as int) == fresh(s, known));
        assert((front + added).skip(front.len() as int) == added);
    }
}

/// Where a text can be cut, what is behind the cut is what is new.
proof fn lemma_readable(s: Seq<char>, known: nat)
    requires
        readable(s, known),
    ensures
        is_added(s, known, fresh(s, known)),
{
    if size(s) >= known {
        let bytes = encode_utf8(s);
        encode_utf8_valid_utf8(s);
        encode_utf8_decode_utf8(s);
        valid_utf8_split(bytes, known as int);
        decode_utf8_split(bytes, known as int);
        let front = bytes.subrange(0, known as int);
        let rest = bytes.subrange(known as int, bytes.len() as int);
        decode_utf8_encode_utf8(front);
        decode_utf8_encode_utf8(rest);
        assert(s == decode_utf8(front) + decode_utf8(rest));
        assert(fresh(s, known).is_suffix_of(s));
    }
}

/// Only the empty text takes up no bytes.
proof fn lemma_no_bytes(s: Seq<char>)
    ensures
        encode_utf8(s).len() == 0 <==> s.len() == 0,
{
    if s.len() > 0 {
        assert(encode_scalar(s[0] as u32).len() > 0);
    }
}

/// A text that can be cut has news where, and only where, something behind the
/// cut is new.
proof fn lemma_news(s: Seq<char>, known: nat)
    requires
        readable(s, known),
    ensures
        has_news(s, known) <==> fresh(s, known).len() > 0,
{
    lemma_readable(s, known);
    lemma_no_bytes(s);
    lemma_no_bytes(fresh(s, known));
}

/// The strings of increments are their characters.
proof fn lemma_strings(list: Seq<CascadeDelta>)
    ensures
        text_strings(list) == text_items(deltas(list)),
        thinking_strings(list) == thinking_items(deltas(list)),
    decreases list.len(),
{
    if list.len() > 0 {
        lemma_strings(list.drop_last());
        assert(deltas(list).drop_last() == deltas(list.drop_last()));
    }
}

/// The strings that an answer sends.
proof fn lemma_sent(list: Seq<CascadeDelta>, reasoning: Seq<Seq<char>>, text: Seq<Seq<char>>)
    requires
        deltas(list) == as_thinking(reasoning) + as_texts(text),
    ensures
        thinking_strings(list) == reasoning,
        text_strings(list) == text,
{
    lemma_strings(list);
    lemma_items(reasoning);
    lemma_items(text);
    lemma_items_concat(as_thinking(reasoning), as_texts(text));
}

/// What `receive` sends, holds back and reports, by the parts that are new.
proof fn lemma_received(
    poll: &mut CascadePoll,
    response: &TrajectoryResponse,
    out: (Vec<CascadeDelta>, PollReport),
)
    requires
        call_ensures(CascadePoll::receive, (poll, response), out),
        response.trajectory is Some,
    ensures
        ({
            let before = old(poll)@;
            let steps = planners(response.trajectory->0.steps@);
            let reasoning = fresh_parts(Channel::Thinking, steps, before.cursors);
            let text = fresh_parts(Channel::Text, steps, before.cursors);
            &&& thinking_strings(out.0@) == reasoning
            &&& text_strings(out.0@) == (if before.force_reasoning_before_text {
                Seq::empty()
            } else {
                before.pending + text
            })
            &&& final(poll)@.pending == (if before.force_reasoning_before_text {
                before.pending + text
            } else {
                Seq::empty()
            })
            &&& final(poll)@.cursors == moved(steps, before.cursors)
            &&& out.1 == (PollReport::Snapshot {
                made_progress: reasoning.len() > 0 || text.len() > 0,
                idle: response.status == CascadeRunStatus::Idle,
            })
            &&& deltas(out.0@) == as_thinking(reasoning) + as_texts(text_strings(out.0@))
        }),
{
    let before = old(poll)@;
    let steps = planners(response.trajectory->0.steps@);
    let reasoning = fresh_parts(Channel::Thinking, steps, before.cursors);
    let text = fresh_parts(Channel::Text, steps, before.cursors);
    if before.force_reasoning_before_text {
        assert(as_texts(Seq::<Seq<char>>::empty()) == Seq::<Delta>::empty());
        lemma_sent(out.0@, reasoning, Seq::empty());
    } else {
        lemma_sent(out.0@, reasoning, before.pending + text);
    }
}

/// One step more adds its own part, behind the others.
proof fn lemma_pushed(
    channel: Channel,
    steps: Seq<TrajectoryStep>,
    step: TrajectoryStep,
    cursors: Seq<Cursor>,
)
    ensures
        planners(steps.push(step)) == planners(steps).push(planner(step)),
        planner(step) is None ==> {
            &&& fresh_parts(channel, planners(steps.push(step)), cursors) == fresh_parts(
                channel,
                planners(steps),
                cursors,
            )
            &&& moved(planners(steps.push(step)), cursors) == moved(planners(steps), cursors)
        },
        planner(step) matches Some(p) ==> fresh_parts(
            channel,
            planners(steps.push(step)),
            cursors,
        ) == fresh_parts(channel, planners(steps), cursors) + unless_empty(
            match channel {
                Channel::Thinking => fresh(
                    p.thinking,
                    cursor_at(cursors, steps.len() as int).thinking_len,
                ),
                Channel::Text => fresh(
                    p.response,
                    cursor_at(cursors, steps.len() as int).text_len,
                ),
            },
        ),
{
    let all = planners(steps).push(planner(step));
    assert(planners(steps.push(step)) == all);
    assert(all.drop_last() == planners(steps));
    if planner(step) is None {
        assert(fresh_parts(channel, all, cursors) == fresh_parts(channel, planners(steps), cursors));
        assert(moved(all, cursors) == moved(planners(steps), cursors));
    }
}

/// A poll starts with nothing taken in, counted or held back.
pub proof fn law_new_poll_knows_nothing(force: bool, now: u64, poll: CascadePoll)
    requires
        call_ensures(CascadePoll::new, (force, now), poll),
    ensures
        forall|i: int| known_text(poll@, i) == 0 && #[trigger] known_thinking(poll@, i) == 0,
        poll@.errors == 0,
        poll@.idle == 0,
        poll@.last_progress == now,
        poll@.pending.len() == 0,
        poll@.force_reasoning_before_text == force,
{
}

/// An answer without a conversation sends nothing, says so, and ends a row of
/// failures; nothing else changes.
pub proof fn law_answer_without_conversation(
    poll: &mut CascadePoll,
    response: &TrajectoryResponse,
    out: (Vec<CascadeDelta>, PollReport),
)
    requires
        call_ensures(CascadePoll::receive, (poll, response), out),
        response.trajectory is None,
    ensures
        out.0@.len() == 0,
        out.1 == PollReport::Empty,
        final(poll)@ == (Poll { errors: 0, ..old(poll)@ }),
{
    assert(deltas(out.0@).len() == out.0@.len());
}

/// A conversation without steps adds nothing, whatever its status. It is still a
/// snapshot, idle where the status says so.
pub proof fn law_conversation_without_steps(
    poll: &mut CascadePoll,
    response: &TrajectoryResponse,
    out: (Vec<CascadeDelta>, PollReport),
)
    requires
        call_ensures(CascadePoll::receive, (poll, response), out),
        response.trajectory is Some,
        response.trajectory->0.steps@.len() == 0,
    ensures
        thinking_strings(out.0@).len() == 0,
        if old(poll)@.force_reasoning_before_text {
            text_strings(out.0@).len() == 0 && final(poll)@.pending == old(poll)@.pending
        } else {
            text_strings(out.0@) == old(poll)@.pending && final(poll)@.pending.len() == 0
        },
        out.1 == (PollReport::Snapshot {
            made_progress: false,
            idle: response.status == CascadeRunStatus::Idle,
        }),
        final(poll)@.cursors == old(poll)@.cursors,
{
    lemma_received(poll, response, out);
    lemma_reach(planners(response.trajectory->0.steps@));
}

/// One step more at the end of an answer adds to what is sent exactly what is
/// new in that step, behind all else on its channel, whatever the status of the
/// answer. Text that has to wait is added to what is held back instead. There is
/// progress where there was any without the step, or where the step brings
/// a character.
pub proof fn law_each_step_adds_what_is_new_in_it(
    shorter: &mut CascadePoll,
    answer: &TrajectoryResponse,
    out: (Vec<CascadeDelta>, PollReport),
    longer: &mut CascadePoll,
    longer_answer: &TrajectoryResponse,
    longer_out: (Vec<CascadeDelta>, PollReport),
    step: TrajectoryStep,
    thinking: Seq<char>,
    text: Seq<char>,
)
    requires
        call_ensures(CascadePoll::receive, (shorter, answer), out),
        call_ensures(CascadePoll::receive, (longer, longer_answer), longer_out),
        old(shorter)@ == old(longer)@,
        answer.trajectory is Some,
        longer_answer.trajectory is Some,
        longer_answer.trajectory->0.steps@ == answer.trajectory->0.steps@.push(step),
        match speech(step) {
            Some(pr) => {
                let i = answer.trajectory->0.steps@.len() as int;
                &&& is_added(pr.thinking@, known_thinking(old(shorter)@, i), thinking)
                &&& is_added(pr.response@, known_text(old(shorter)@, i), text)
            },
            None => thinking.len() == 0 && text.len() == 0,
        },
    ensures
        thinking_strings(longer_out.0@) == thinking_strings(out.0@) + as_item(thinking),
        if old(shorter)@.force_reasoning_before_text {
            &&& text_strings(longer_out.0@).len() == 0
            &&& final(longer)@.pending == final(shorter)@.pending + as_item(text)
        } else {
            &&& text_strings(longer_out.0@) == text_strings(out.0@) + as_item(text)
            &&& final(longer)@.pending.len() == 0
        },
        out.1 matches PollReport::Snapshot { made_progress, .. } && longer_out.1 == (
        PollReport::Snapshot {
            made_progress: made_progress || thinking.len() > 0 || text.len() > 0,
            idle: longer_answer.status == CascadeRunStatus::Idle,
        }),
{
    let before = old(shorter)@;
    let steps = answer.trajectory->0.steps@;
    lemma_received(shorter, answer, out);
    lemma_received(longer, longer_answer, longer_out);
    lemma_speech(step);
    lemma_pushed(Channel::Thinking, steps, step, before.cursors);
    lemma_pushed(Channel::Text, steps, step, before.cursors);
    if let Some(pr) = speech(step) {
        let i = steps.len() as int;
        lemma_added(pr.thinking@, known_thinking(before, i), thinking);
        lemma_added(pr.response@, known_text(before, i), text);
    }
    let text_parts = fresh_parts(Channel::Text, planners(steps), before.cursors);
    assert(before.pending + text_parts + as_item(text) == before.pending + (text_parts + as_item(
        text,
    )));
    assert(thinking_strings(out.0@) + as_item(thinking) == thinking_strings(longer_out.0@));
}

/// An answer takes in every step that speaks, to its end, and no other; what was
/// counted and the way to send text stay as they are.
pub proof fn law_answer_is_taken_in(
    poll: &mut CascadePoll,
    response: &TrajectoryResponse,
    out: (Vec<CascadeDelta>, PollReport),
    i: int,
)
    requires
        call_ensures(CascadePoll::receive, (poll, response), out),
        response.trajectory is Some,
        0 <= i,
    ensures
        ({
            let steps = response.trajectory->0.steps@;
            let here = if i < steps.len() {
                speech(steps[i])
            } else {
                None
            };
            match here {
                Some(pr) => {
                    &&& known_thinking(final(poll)@, i) == encode_utf8(pr.thinking@).len()
                    &&& known_text(final(poll)@, i) == encode_utf8(pr.response@).len()
                },
                None => {
                    &&& known_thinking(final(poll)@, i) == known_thinking(old(poll)@, i)
                    &&& known_text(final(poll)@, i) == known_text(old(poll)@, i)
                },
            }
        }),
        final(poll)@.errors == 0,
        final(poll)@.idle == old(poll)@.idle,
        final(poll)@.last_progress == old(poll)@.last_progress,
        final(poll)@.force_reasoning_before_text == old(poll)@.force_reasoning_before_text,
{
    let steps = response.trajectory->0.steps@;
    lemma_received(poll, response, out);
    lemma_reach(planners(steps));
    if i < steps.len() {
        lemma_speech(steps[i]);
        assert(planners(steps)[i] == planner(steps[i]));
    }
}

/// Within an answer all reasoning is sent before any text.
pub proof fn law_answer_sends_text_last(
    poll: &mut CascadePoll,
    response: &TrajectoryResponse,
    out: (Vec<CascadeDelta>, PollReport),
)
    requires
        call_ensures(CascadePoll::receive, (poll, response), out),
    ensures
        forall|i: int, j: int|
            0 <= i < j < out.0@.len() && #[trigger] out.0@[i] is Text ==> #[trigger] out.0@[j]
                is Text,
{
    if response.trajectory is Some {
        lemma_received(poll, response, out);
        assert forall|i: int, j: int|
            0 <= i < j < out.0@.len() && #[trigger] out.0@[i] is Text implies
            #[trigger] out.0@[j] is Text by {
            assert(deltas(out.0@)[i] == out.0@[i]@);
            assert(deltas(out.0@)[j] == out.0@[j]@);
        }
    } else {
        assert(deltas(out.0@).len() == out.0@.len());
    }
}

/// The responses of all steps that speak, end to end.
pub open spec fn responses(steps: Seq<TrajectoryStep>) -> Seq<char>
    decreases steps.len(),
{
    if steps.len() == 0 {
        Seq::empty()
    } else {
        responses(steps.drop_last()) + (match speech(steps.last()) {
            Some(pr) => pr.response@,
            None => Seq::empty(),
        })
    }
}

/// The reasoning of all steps that speak, end to end.
pub open spec fn reasonings(steps: Seq<TrajectoryStep>) -> Seq<char>
    decreases steps.len(),
{
    if steps.len() == 0 {
        Seq::empty()
    } else {
        reasonings(steps.drop_last()) + (match speech(steps.last()) {
            Some(pr) => pr.thinking@,
            None => Seq::empty(),
        })
    }
}

/// The strings `list`, end to end.
pub open spec fn end_to_end(list: Seq<Seq<char>>) -> Seq<char>
    decreases list.len(),
{
    if list.len() == 0 {
        Seq::empty()
    } else {
        end_to_end(list.drop_last()) + list.last()
    }
}

/// Before the first answer everything in it is new.
proof fn lemma_all_new(steps: Seq<TrajectoryStep>)
    ensures
        end_to_end(fresh_parts(Channel::Text, planners(steps), Seq::empty())) == responses(steps),
        end_to_end(fresh_parts(Channel::Thinking, planners(steps), Seq::empty())) == reasonings(
            steps,
        ),
    decreases steps.len(),
{
    if steps.len() > 0 {
        let earlier = steps.drop_last();
        let step = steps.last();
        lemma_all_new(earlier);
        assert(steps == earlier.push(step));
        lemma_speech(step);
        lemma_pushed(Channel::Thinking, earlier, step, Seq::empty());
        lemma_pushed(Channel::Text, earlier, step, Seq::empty());
        if let Some(pr) = speech(step) {
            lemma_added(pr.thinking@, 0, pr.thinking@);
            lemma_added(pr.response@, 0, pr.response@);
            lemma_end_to_end(
                fresh_parts(Channel::Thinking, planners(earlier), Seq::empty()),
                pr.thinking@,
            );
            lemma_end_to_end(
                fresh_parts(Channel::Text, planners(earlier), Seq::empty()),
                pr.response@,
            );
        }
    }
}

/// An item more adds its characters, and an empty one is not missed.
proof fn lemma_end_to_end(list: Seq<Seq<char>>, s: Seq<char>)
    ensures
        end_to_end(list + unless_empty(s)) == end_to_end(list) + s,
{
    if s.len() > 0 {
        assert((list + seq![s]).drop_last() == list);
    } else {
        assert(list + unless_empty(s) == list);
    }
}

/// The first answer is told whole, whatever its status: all that its steps have
/// said comes out on its channel, or is held back.
pub proof fn law_first_answer_is_told_whole(
    force: bool,
    now: u64,
    poll: &mut CascadePoll,
    response: &TrajectoryResponse,
    out: (Vec<CascadeDelta>, PollReport),
)
    requires
        call_ensures(CascadePoll::new, (force, now), *old(poll)),
        call_ensures(CascadePoll::receive, (poll, response), out),
        response.trajectory is Some,
    ensures
        end_to_end(thinking_strings(out.0@)) == reasonings(response.trajectory->0.steps@),
        end_to_end(text_strings(out.0@) + final(poll)@.pending) == responses(
            response.trajectory->0.steps@,
        ),
        force ==> text_strings(out.0@).len() == 0,
        !force ==> final(poll)@.pending.len() == 0,
        out.1 == (PollReport::Snapshot {
            made_progress: reasonings(response.trajectory->0.steps@).len() > 0 || responses(
                response.trajectory->0.steps@,
            ).len() > 0,
            idle: response.status == CascadeRunStatus::Idle,
        }),
{
    let steps = response.trajectory->0.steps@;
    lemma_received(poll, response, out);
    lemma_all_new(steps);
    let text = fresh_parts(Channel::Text, planners(steps), Seq::empty());
    let reasoning = fresh_parts(Channel::Thinking, planners(steps), Seq::empty());
    assert(old(poll)@.cursors == Seq::<Cursor>::empty());
    assert(text_strings(out.0@) + final(poll)@.pending == text);
    lemma_parts_have_characters(Channel::Text, planners(steps), Seq::empty());
    lemma_parts_have_characters(Channel::Thinking, planners(steps), Seq::empty());
    lemma_any_characters(text);
    lemma_any_characters(reasoning);
}

/// No part that counts as new is empty.
proof fn lemma_parts_have_characters(
    channel: Channel,
    steps: Seq<Option<Planner>>,
    cursors: Seq<Cursor>,
)
    ensures
        forall|i: int|
            0 <= i < fresh_parts(channel, steps, cursors).len() ==> (#[trigger] fresh_parts(
                channel,
                steps,
                cursors,
            )[i]).len() > 0,
    decreases steps.len(),
{
    if steps.len() > 0 {
        let earlier = fresh_parts(channel, steps.drop_last(), cursors);
        lemma_parts_have_characters(channel, steps.drop_last(), cursors);
        let all = fresh_parts(channel, steps, cursors);
        assert forall|i: int| 0 <= i < all.len() implies (#[trigger] all[i]).len() > 0 by {
            if i < earlier.len() {
                assert(all[i] == earlier[i]);
            }
        }
    }
}

/// Items with characters have characters end to end.
proof fn lemma_any_characters(list: Seq<Seq<char>>)
    requires
        forall|i: int| 0 <= i < list.len() ==> (#[trigger] list[i]).len() > 0,
    ensures
        list.len() > 0 <==> end_to_end(list).len() > 0,
{
}

/// There is a part where, and only where, a step brings one.
proof fn lemma_any_part(poll: Poll, steps: Seq<TrajectoryStep>)
    requires
        forall|i: int| #![trigger steps[i]]
            0 <= i < steps.len() ==> (speech(steps[i]) matches Some(pr) ==> {
                &&& readable(pr.thinking@, known_thinking(poll, i))
                &&& readable(pr.response@, known_text(poll, i))
            }),
    ensures
        fresh_parts(Channel::Thinking, planners(steps), poll.cursors).len() > 0 || fresh_parts(
            Channel::Text,
            planners(steps),
            poll.cursors,
        ).len() > 0 <==> exists|i: int|
            0 <= i < steps.len() && #[trigger] brings_news(poll, steps, i),
    decreases steps.len(),
{
    if steps.len() > 0 {
        let earlier = steps.drop_last();
        let step = steps.last();
        let last = steps.len() - 1;
        assert forall|i: int| #![trigger earlier[i]]
            0 <= i < earlier.len() implies (speech(earlier[i]) matches Some(pr) ==> {
                &&& readable(pr.thinking@, known_thinking(poll, i))
                &&& readable(pr.response@, known_text(poll, i))
            }) by {
            assert(earlier[i] == steps[i]);
        }
        lemma_any_part(poll, earlier);
        assert(steps == earlier.push(step));
        assert(step == steps[last]);
        lemma_speech(step);
        lemma_pushed(Channel::Thinking, earlier, step, poll.cursors);
        lemma_pushed(Channel::Text, earlier, step, poll.cursors);
        if let Some(pr) = speech(step) {
            lemma_news(pr.thinking@, known_thinking(poll, last));
            lemma_news(pr.response@, known_text(poll, last));
        }
        if exists|i: int| 0 <= i < earlier.len() && #[trigger] brings_news(poll, earlier, i) {
            let i = choose|i: int|
                0 <= i < earlier.len() && #[trigger] brings_news(poll, earlier, i);
            assert(brings_news(poll, steps, i));
        }
        if exists|i: int| 0 <= i < steps.len() && #[trigger] brings_news(poll, steps, i) {
            let i = choose|i: int| 0 <= i < steps.len() && #[trigger] brings_news(poll, steps, i);
            if i < last {
                assert(brings_news(poll, earlier, i));
            } else {
                assert(brings_news(poll, steps, last));
            }
        }
        if brings_news(poll, steps, last) {
            assert(speech(step) is Some);
        }
    }
}

/// An answer can be taken in where, and only where, each text in it is shorter
/// than what is known of it, or begins with characters that take up just as many
/// bytes.
pub proof fn law_answers_that_can_be_received(
    poll: &CascadePoll,
    response: &TrajectoryResponse,
    ok: bool,
)
    requires
        call_ensures(CascadePoll::can_receive, (poll, response), ok),
    ensures
        response.trajectory is None ==> ok,
        response.trajectory matches Some(t) ==> (ok <==> forall|i: int|
            #![trigger t.steps@[i]]
            0 <= i < t.steps@.len() ==> (speech(t.steps@[i]) matches Some(pr) ==> {
                &&& exists|added: Seq<char>| #[trigger]
                    is_added(pr.thinking@, known_thinking(poll@, i), added)
                &&& exists|added: Seq<char>| #[trigger]
                    is_added(pr.response@, known_text(poll@, i), added)
            })),
{
    if let Some(t) = response.trajectory {
        let steps = t.steps@;
        assert forall|i: int|
            #![trigger steps[i]]
            0 <= i < steps.len() && speech(steps[i]) is Some implies ({
            let pr = speech(steps[i])->0;
            &&& readable(pr.thinking@, known_thinking(poll@, i)) <==> exists|added: Seq<char>|
                #[trigger] is_added(pr.thinking@, known_thinking(poll@, i), added)
            &&& readable(pr.response@, known_text(poll@, i)) <==> exists|added: Seq<char>|
                #[trigger] is_added(pr.response@, known_text(poll@, i), added)
        }) by {
            let pr = speech(steps[i])->0;
            lemma_can_be_cut(pr.thinking@, known_thinking(poll@, i));
            lemma_can_be_cut(pr.response@, known_text(poll@, i));
        }
        assert forall|i: int|
            #![trigger steps[i]]
            #![trigger planners(steps)[i]]
            0 <= i < steps.len() implies planners(steps)[i] == planner(steps[i]) by {}
    }
}

/// A text can be cut where, and only where, something is behind the cut.
proof fn lemma_can_be_cut(s: Seq<char>, known: nat)
    ensures
        readable(s, known) <==> exists|added: Seq<char>| #[trigger] is_added(s, known, added),
{
    if readable(s, known) {
        lemma_readable(s, known);
    }
    if exists|added: Seq<char>| #[trigger] is_added(s, known, added) {
        let added = choose|added: Seq<char>| #[trigger] is_added(s, known, added);
        lemma_added(s, known, added);
    }
}

/// An answer that can be received may be, whatever its status and however the
/// polling has gone; and every answer can be asked about.
pub proof fn law_answer_may_be_received(
    asked: &CascadePoll,
    poll: &mut CascadePoll,
    response: &TrajectoryResponse,
)
    requires
        asked@ == old(poll)@,
        call_ensures(CascadePoll::can_receive, (asked, response), true),
    ensures
        call_requires(CascadePoll::receive, (poll, response)),
        call_requires(CascadePoll::can_receive, (asked, response)),
{
}

/// As long as no more than ten idle answers and five failures were counted, which
/// holds of a new poll and of each that is to go on, an answer can be settled and
/// a failure taken.
pub proof fn law_polling_can_go_on(
    poll: &mut CascadePoll,
    report: PollReport,
    now: u64,
    status: Status,
)
    requires
        old(poll)@.idle <= 10,
        old(poll)@.errors <= 5,
    ensures
        call_requires(CascadePoll::settle, (poll, report, now)),
        call_requires(CascadePoll::fail, (poll, status)),
{
}

/// An answer makes progress where, and only where, some step of it has said
/// something new on either channel; and that is so wherever anything is sent or
/// held back for it.
pub proof fn law_progress_is_any_new_character(
    asked: &CascadePoll,
    poll: &mut CascadePoll,
    response: &TrajectoryResponse,
    out: (Vec<CascadeDelta>, PollReport),
)
    requires
        asked@ == old(poll)@,
        call_ensures(CascadePoll::can_receive, (asked, response), true),
        call_ensures(CascadePoll::receive, (poll, response), out),
        response.trajectory is Some,
        old(poll)@.force_reasoning_before_text || old(poll)@.pending.len() == 0,
    ensures
        ({
            let steps = response.trajectory->0.steps@;
            let made_progress = out.1 matches PollReport::Snapshot { made_progress, .. }
                && made_progress;
            &&& made_progress <==> exists|i: int|
                0 <= i < steps.len() && #[trigger] brings_news(old(poll)@, steps, i)
            &&& made_progress <==> {
                ||| out.0@.len() > 0
                ||| final(poll)@.pending.len() > old(poll)@.pending.len()
            }
        }),
{
    let steps = response.trajectory->0.steps@;
    lemma_received(poll, response, out);
    assert forall|i: int| #![trigger steps[i]]
        0 <= i < steps.len() implies (speech(steps[i]) matches Some(pr) ==> {
            &&& readable(pr.thinking@, known_thinking(old(poll)@, i))
            &&& readable(pr.response@, known_text(old(poll)@, i))
        }) by {
        lemma_speech(steps[i]);
        assert(planners(steps)[i] == planner(steps[i]));
    }
    lemma_any_part(old(poll)@, steps);
    assert(deltas(out.0@).len() == out.0@.len());
}

/// An answer that brings a character keeps the polling going, however late it
/// comes and however often the engine was idle before.
pub proof fn law_news_keep_the_polling_going(
    poll: &mut CascadePoll,
    response: &TrajectoryResponse,
    out: (Vec<CascadeDelta>, PollReport),
    settled: &mut CascadePoll,
    now: u64,
    action: PollAction,
)
    requires
        call_ensures(CascadePoll::receive, (poll, response), out),
        old(poll)@.force_reasoning_before_text || old(poll)@.pending.len() == 0,
        out.0@.len() > 0 || final(poll)@.pending.len() > old(poll)@.pending.len(),
        old(settled)@ == final(poll)@,
        call_ensures(CascadePoll::settle, (settled, out.1, now), action),
    ensures
        action == PollAction::Wait(500),
        final(settled)@.last_progress == now,
        final(settled)@.idle <= 1,
        final(settled)@.pending == final(poll)@.pending,
{
    assert(deltas(out.0@).len() == out.0@.len());
    if response.trajectory is Some {
        lemma_received(poll, response, out);
    }
}

/// The polling ends after more than ten idle answers in a row, or more than
/// three hundred seconds after the last news, and not before; then all text that
/// was held back is sent, in order. Otherwise it goes on in half a second, and
/// keeps that text. An answer with news starts the row of idle answers anew, one
/// that is not idle ends it, and one without a conversation is not counted.
pub proof fn law_when_the_polling_ends(
    poll: &mut CascadePoll,
    report: PollReport,
    now: u64,
    action: PollAction,
)
    requires
        call_ensures(CascadePoll::settle, (poll, report, now), action),
    ensures
        final(poll)@.cursors == old(poll)@.cursors,
        final(poll)@.errors == old(poll)@.errors,
        final(poll)@.force_reasoning_before_text == old(poll)@.force_reasoning_before_text,
        report is Empty ==> final(poll)@.idle == old(poll)@.idle && final(poll)@.last_progress
            == old(poll)@.last_progress,
        report matches PollReport::Snapshot { made_progress, idle } ==> {
            &&& made_progress ==> final(poll)@.last_progress == now
            &&& !made_progress ==> final(poll)@.last_progress == old(poll)@.last_progress
            &&& !idle ==> final(poll)@.idle == 0
            &&& idle && made_progress ==> final(poll)@.idle == 1
            &&& idle && !made_progress ==> final(poll)@.idle == old(poll)@.idle + 1
        },
        if (report is Snapshot && final(poll)@.idle > 10) || now > final(poll)@.last_progress
            + 300_000_000_000 {
            &&& action matches PollAction::Finish(out) && text_strings(out@) == old(poll)@.pending
                && thinking_strings(out@).len() == 0
            &&& final(poll)@.pending.len() == 0
        } else {
            &&& action == PollAction::Wait(500)
            &&& final(poll)@.pending == old(poll)@.pending
        },
{
    if let PollAction::Finish(out) = action {
        lemma_strings(out@);
        lemma_items(old(poll)@.pending);
    }
}

/// A failed poll is tried again five times, after one, two, four, eight and
/// sixteen seconds and the usual half of one; the sixth failure in a row is
/// passed on as it is. Nothing but the count of failures changes.
pub proof fn law_failures_are_retried(poll: &mut CascadePoll, status: Status, action: PollAction)
    requires
        call_ensures(CascadePoll::fail, (poll, status), action),
    ensures
        old(poll)@.errors == 0 ==> action == PollAction::Wait(1_500),
        old(poll)@.errors == 1 ==> action == PollAction::Wait(2_500),
        old(poll)@.errors == 2 ==> action == PollAction::Wait(4_500),
        old(poll)@.errors == 3 ==> action == PollAction::Wait(8_500),
        old(poll)@.errors == 4 ==> action == PollAction::Wait(16_500),
        old(poll)@.errors >= 5 ==> action == PollAction::Fail(status),
        final(poll)@ == (Poll { errors: final(poll)@.errors, ..old(poll)@ }),
        final(poll)@.errors == (if old(poll)@.errors < 5 {
            old(poll)@.errors + 1
        } else {
            old(poll)@.errors
        }),
{
    vstd::arithmetic::power2::lemma2_to64();
}

} // verus!

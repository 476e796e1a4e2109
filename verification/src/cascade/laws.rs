//! What holds of a polled conversation as a whole.

use vstd::prelude::*;
use vstd::utf8::*;

use crate::cascade::poll::{
    as_texts, as_thinking, Poll, PollReport, MAX_IDLE_POLLS, MAX_POLL_RETRIES,
};
use crate::cascade::trajectory::{
    all_readable, cursor_at, fresh, fresh_parts, lemma_reach, moved, readable, said, seen, size,
    unless_empty, CascadeRunStatus, Channel, Cursor, Planner,
};
use crate::mappers::delta::{lemma_concat, texts, thoughts, Delta};

verus! {

/// The strings `list`, end to end.
pub open spec fn joined(list: Seq<Seq<char>>) -> Seq<char>
    decreases list.len(),
{
    if list.len() == 0 {
        Seq::empty()
    } else {
        joined(list.drop_last()) + list.last()
    }
}

/// All that a conversation has said on one channel.
pub open spec fn spoken(channel: Channel, steps: Seq<Option<Planner>>) -> Seq<char>
    decreases steps.len(),
{
    if steps.len() == 0 {
        Seq::empty()
    } else {
        spoken(channel, steps.drop_last()) + (match steps.last() {
            Some(p) => said(p, channel),
            None => Seq::empty(),
        })
    }
}

/// A step that goes on where it stood.
pub open spec fn grows(old: Option<Planner>, new: Option<Planner>) -> bool {
    match (old, new) {
        (None, None) => true,
        (Some(a), Some(b)) => a.response.is_prefix_of(b.response) && a.thinking.is_prefix_of(
            b.thinking,
        ),
        _ => false,
    }
}

/// A conversation that goes on at its end: the last step grows, and steps may
/// follow it.
pub open spec fn appends(old: Seq<Option<Planner>>, new: Seq<Option<Planner>>) -> bool {
    &&& old.len() <= new.len()
    &&& forall|i: int| 0 <= i < old.len() - 1 ==> new[i] == #[trigger] old[i]
    &&& old.len() > 0 ==> grows(old.last(), new[old.len() - 1])
}

/// The cursors stand at the end of `steps`.
pub open spec fn tracks(cursors: Seq<Cursor>, steps: Seq<Option<Planner>>) -> bool {
    forall|i: int|
        0 <= i ==> #[trigger] cursor_at(cursors, i) == (if i < steps.len() && steps[i] is Some {
            Cursor {
                text_len: size(steps[i]->0.response),
                thinking_len: size(steps[i]->0.thinking),
            }
        } else {
            Cursor { text_len: 0, thinking_len: 0 }
        })
}

/// Characters put end to end take up their bytes end to end.
pub proof fn lemma_encode_concat(a: Seq<char>, b: Seq<char>)
    ensures
        encode_utf8(a + b) == encode_utf8(a) + encode_utf8(b),
        size(a + b) == size(a) + size(b),
    decreases a.len(),
{
    if a.len() > 0 {
        assert((a + b).drop_first() == a.drop_first() + b);
        lemma_encode_concat(a.drop_first(), b);
    }
}

/// A text that has grown can be cut where it ended before, and what is new in
/// it is what it has grown by.
pub proof fn law_growth_is_fresh(old: Seq<char>, new: Seq<char>)
    requires
        old.is_prefix_of(new),
    ensures
        readable(new, size(old)),
        old + fresh(new, size(old)) == new,
{
    let added = new.skip(old.len() as int);
    assert(new == old + added);
    lemma_encode_concat(old, added);
    let bytes = encode_utf8(new);
    let rest = encode_utf8(added);
    assert(bytes.subrange(size(old) as int, size(new) as int) == rest);
    encode_utf8_decode_utf8(added);
    encode_utf8_valid_utf8(new);
    encode_utf8_valid_utf8(added);
    if added.len() == 0 {
        is_char_boundary_start_end_of_seq(bytes);
    } else {
        encode_utf8_first_scalar(added);
        is_char_boundary_start_end_of_seq(rest);
        is_char_boundary_iff_not_is_continuation_byte(rest, 0);
        is_char_boundary_iff_not_is_continuation_byte(bytes, size(old) as int);
    }
}

/// A step that was never seen is streamed from its first character on, and so
/// is a text that has become shorter.
pub proof fn law_new_and_rewritten_texts_are_whole(s: Seq<char>, known: nat)
    ensures
        fresh(s, 0) == s,
        size(s) < known ==> fresh(s, known) == s && readable(s, known),
{
    law_growth_is_fresh(Seq::empty(), s);
}

/// A text that has not changed holds nothing new.
pub proof fn law_unchanged_text_is_not_fresh(s: Seq<char>)
    ensures
        fresh(s, size(s)) == Seq::<char>::empty(),
{
    law_growth_is_fresh(s, s);
}

/// Lists put end to end join end to end.
proof fn lemma_joined(a: Seq<Seq<char>>, b: Seq<Seq<char>>)
    ensures
        joined(a + b) == joined(a) + joined(b),
    decreases b.len(),
{
    if b.len() > 0 {
        assert((a + b).drop_last() == a + b.drop_last());
        lemma_joined(a, b.drop_last());
    }
}

/// What is left out for being empty is not missed.
proof fn lemma_joined_unless_empty(s: Seq<char>)
    ensures
        joined(unless_empty(s)) == s,
{
    if s.len() > 0 {
        assert(seq![s].drop_last() == Seq::<Seq<char>>::empty());
        assert(joined(Seq::<Seq<char>>::empty()) + s == s);
    }
}

/// What strings carry as increments.
proof fn lemma_carried(list: Seq<Seq<char>>)
    ensures
        texts(as_texts(list)) == joined(list),
        thoughts(as_texts(list)) == Seq::<char>::empty(),
        texts(as_thinking(list)) == Seq::<char>::empty(),
        thoughts(as_thinking(list)) == joined(list),
    decreases list.len(),
{
    if list.len() > 0 {
        lemma_carried(list.drop_last());
        assert(as_texts(list).drop_last() == as_texts(list.drop_last()));
        assert(as_thinking(list).drop_last() == as_thinking(list.drop_last()));
    }
}

/// The first `n` steps of a conversation that has gone on say what they said
/// before, and what is new in them.
proof fn lemma_appended(
    channel: Channel,
    old: Seq<Option<Planner>>,
    new: Seq<Option<Planner>>,
    cursors: Seq<Cursor>,
    n: int,
)
    requires
        appends(old, new),
        tracks(cursors, old),
        0 <= n <= new.len(),
    ensures
        spoken(channel, new.take(n)) == spoken(
            channel,
            old.take(if n < old.len() {
                n
            } else {
                old.len() as int
            }),
        ) + joined(fresh_parts(channel, new.take(n), cursors)),
        n < old.len() ==> fresh_parts(channel, new.take(n), cursors) == Seq::<Seq<char>>::empty(),
    decreases n,
{
    let upto = |k: int| old.take(if k < old.len() { k } else { old.len() as int });
    let now = new.take(n);
    if n > 0 {
        let i = n - 1;
        let before = new.take(i);
        lemma_appended(channel, old, new, cursors, i);
        assert(now.drop_last() == before);
        let parts = fresh_parts(channel, before, cursors);
        let known = seen(cursor_at(cursors, i), channel);
        if i < old.len() {
            assert(upto(n).drop_last() == upto(i));
        }
        match new[i] {
            Some(p) => {
                let part = fresh(said(p, channel), known);
                lemma_joined(parts, unless_empty(part));
                lemma_joined_unless_empty(part);
                if i < old.len() {
                    law_growth_is_fresh(said(old[i]->0, channel), said(p, channel));
                    law_unchanged_text_is_not_fresh(said(old[i]->0, channel));
                } else {
                    law_new_and_rewritten_texts_are_whole(said(p, channel), 0);
                }
                assert(spoken(channel, now) == spoken(channel, upto(n)) + joined(
                    fresh_parts(channel, now, cursors),
                ));
            },
            None => {
                assert(spoken(channel, now) == spoken(channel, upto(n)) + joined(
                    fresh_parts(channel, now, cursors),
                ));
            },
        }
    }
}

/// A conversation that goes on at its end can always be taken in, and each
/// snapshot adds on each channel exactly what the conversation has gone on by.
pub proof fn law_snapshot_adds_what_was_appended(
    channel: Channel,
    old: Seq<Option<Planner>>,
    new: Seq<Option<Planner>>,
    cursors: Seq<Cursor>,
)
    requires
        appends(old, new),
        tracks(cursors, old),
    ensures
        all_readable(new, cursors),
        spoken(channel, new) == spoken(channel, old) + joined(fresh_parts(channel, new, cursors)),
        tracks(moved(new, cursors), new),
{
    lemma_appended(channel, old, new, cursors, new.len() as int);
    assert(new.take(new.len() as int) == new);
    assert(old.take(old.len() as int) == old);
    assert forall|i: int| #![trigger new[i]] 0 <= i < new.len() implies (new[i] matches Some(p) ==> {
        &&& readable(p.thinking, cursor_at(cursors, i).thinking_len)
        &&& readable(p.response, cursor_at(cursors, i).text_len)
    }) by {
        if new[i] is Some {
            let p = new[i]->0;
            if i < old.len() {
                law_growth_is_fresh(old[i]->0.thinking, p.thinking);
                law_growth_is_fresh(old[i]->0.response, p.response);
            } else {
                law_growth_is_fresh(Seq::empty(), p.thinking);
                law_growth_is_fresh(Seq::empty(), p.response);
            }
        }
    }
    lemma_reach(new);
}

/// Asked again, a conversation that stands still adds nothing, and does not
/// count as progress.
pub proof fn law_same_snapshot_adds_nothing(
    poll: Poll,
    steps: Seq<Option<Planner>>,
    status: CascadeRunStatus,
)
    ensures
        poll.received(Some(steps)).sent(Some(steps)) == Seq::<Delta>::empty(),
        poll.received(Some(steps)).report(Some(steps), status) == (PollReport::Snapshot {
            made_progress: false,
            idle: status == CascadeRunStatus::Idle,
        }),
{
    lemma_same_snapshot(Channel::Thinking, steps, poll.cursors);
    lemma_same_snapshot(Channel::Text, steps, poll.cursors);
}

/// Behind a snapshot, nothing in it is new.
proof fn lemma_same_snapshot(channel: Channel, steps: Seq<Option<Planner>>, cursors: Seq<Cursor>)
    ensures
        fresh_parts(channel, steps, moved(steps, cursors)) == Seq::<Seq<char>>::empty(),
{
    let after = moved(steps, cursors);
    assert forall|i: int|
        #![trigger steps[i]]
        0 <= i < steps.len() && steps[i] is Some implies seen(cursor_at(after, i), channel) == size(
        said(steps[i]->0, channel),
    ) by {
        lemma_moved(steps, cursors, i);
    }
    lemma_nothing_fresh(channel, steps, after, steps.len() as int);
    assert(steps.take(steps.len() as int) == steps);
}

/// A snapshot moves the cursor of each planner step that it holds to the end of
/// that step, and no other.
proof fn lemma_moved(steps: Seq<Option<Planner>>, cursors: Seq<Cursor>, i: int)
    requires
        0 <= i,
    ensures
        cursor_at(moved(steps, cursors), i) == (if i < steps.len() && steps[i] is Some {
            Cursor {
                text_len: size(steps[i]->0.response),
                thinking_len: size(steps[i]->0.thinking),
            }
        } else {
            cursor_at(cursors, i)
        }),
{
    lemma_reach(steps);
}

/// Where the cursors stand at the end of each planner step, nothing is new.
proof fn lemma_nothing_fresh(
    channel: Channel,
    steps: Seq<Option<Planner>>,
    cursors: Seq<Cursor>,
    n: int,
)
    requires
        0 <= n <= steps.len(),
        forall|i: int|
            #![trigger steps[i]]
            0 <= i < steps.len() && steps[i] is Some ==> seen(cursor_at(cursors, i), channel)
                == size(said(steps[i]->0, channel)),
    ensures
        fresh_parts(channel, steps.take(n), cursors) == Seq::<Seq<char>>::empty(),
    decreases n,
{
    if n > 0 {
        lemma_nothing_fresh(channel, steps, cursors, n - 1);
        assert(steps.take(n).drop_last() == steps.take(n - 1));
        if steps[n - 1] is Some {
            law_unchanged_text_is_not_fresh(said(steps[n - 1]->0, channel));
        }
    }
}

/// One round of polling.
pub enum Round {
    /// An answer came, and was settled at `now`.
    Answer { steps: Option<Seq<Option<Planner>>>, status: CascadeRunStatus, now: nat },
    /// The poll failed.
    Failure,
}

/// Where the polling stands after a round.
pub open spec fn after_round(poll: Poll, round: Round) -> Poll {
    match round {
        Round::Answer { steps, status, now } => poll.received(steps).settled(
            poll.report(steps, status),
            now,
        ),
        Round::Failure => poll.failed(),
    }
}

/// What a round adds to the stream.
pub open spec fn round_sends(poll: Poll, round: Round) -> Seq<Delta> {
    match round {
        Round::Answer { steps, status, now } => poll.sent(steps),
        Round::Failure => Seq::empty(),
    }
}

/// Where the polling stands after all `rounds`.
pub open spec fn after(poll: Poll, rounds: Seq<Round>) -> Poll
    decreases rounds.len(),
{
    if rounds.len() == 0 {
        poll
    } else {
        after_round(after(poll, rounds.drop_last()), rounds.last())
    }
}

/// What all `rounds` add to the stream.
pub open spec fn streamed(poll: Poll, rounds: Seq<Round>) -> Seq<Delta>
    decreases rounds.len(),
{
    if rounds.len() == 0 {
        Seq::empty()
    } else {
        streamed(poll, rounds.drop_last()) + round_sends(
            after(poll, rounds.drop_last()),
            rounds.last(),
        )
    }
}

/// The stream of a conversation that ended without failure: what its rounds
/// sent, and the text that waited for the end.
pub open spec fn whole_stream(poll: Poll, rounds: Seq<Round>) -> Seq<Delta> {
    streamed(poll, rounds) + as_texts(after(poll, rounds).pending)
}

/// The conversation as the last answer that held it showed it.
pub open spec fn latest(rounds: Seq<Round>) -> Seq<Option<Planner>>
    decreases rounds.len(),
{
    if rounds.len() == 0 {
        Seq::empty()
    } else {
        match rounds.last() {
            Round::Answer { steps: Some(s), .. } => s,
            _ => latest(rounds.drop_last()),
        }
    }
}

/// Each answer shows the conversation gone on at its end.
pub open spec fn goes_on(rounds: Seq<Round>) -> bool
    decreases rounds.len(),
{
    rounds.len() > 0 ==> {
        &&& goes_on(rounds.drop_last())
        &&& (rounds.last() matches Round::Answer { steps: Some(s), .. } ==> appends(
            latest(rounds.drop_last()),
            s,
        ))
    }
}

/// All text follows on all reasoning.
pub open spec fn reasoning_first(list: Seq<Delta>) -> bool {
    forall|i: int, j: int|
        0 <= i < j < list.len() && (#[trigger] list[i]) is Text ==> (#[trigger] list[j]) is Text
}

/// However a conversation is polled, with failed polls and empty answers
/// between, the stream carries each character of its text and of its reasoning
/// exactly once and in order, and every answer can be taken in.
pub proof fn law_stream_carries_the_conversation(
    force_reasoning_before_text: bool,
    start: nat,
    rounds: Seq<Round>,
)
    requires
        goes_on(rounds),
    ensures
        ({
            let poll = Poll::initial(force_reasoning_before_text, start);
            &&& texts(whole_stream(poll, rounds)) == spoken(Channel::Text, latest(rounds))
            &&& thoughts(whole_stream(poll, rounds)) == spoken(Channel::Thinking, latest(rounds))
            &&& forall|s: Seq<Option<Planner>>|
                appends(latest(rounds), s) ==> #[trigger] after(poll, rounds).fits(Some(s))
        }),
{
    let poll = Poll::initial(force_reasoning_before_text, start);
    lemma_streamed(poll, rounds);
    let end = after(poll, rounds);
    lemma_concat(streamed(poll, rounds), as_texts(end.pending));
    lemma_carried(end.pending);
    assert(thoughts(streamed(poll, rounds)) + Seq::<char>::empty() == thoughts(
        streamed(poll, rounds),
    ));
    assert forall|s: Seq<Option<Planner>>| appends(latest(rounds), s) implies #[trigger] after(
        poll,
        rounds,
    ).fits(Some(s)) by {
        law_snapshot_adds_what_was_appended(Channel::Text, latest(rounds), s, end.cursors);
    }
}

/// What has been sent and what is held back make up the conversation.
proof fn lemma_streamed(poll: Poll, rounds: Seq<Round>)
    requires
        goes_on(rounds),
        poll.cursors == Seq::<Cursor>::empty(),
        poll.pending == Seq::<Seq<char>>::empty(),
    ensures
        tracks(after(poll, rounds).cursors, latest(rounds)),
        texts(streamed(poll, rounds)) + joined(after(poll, rounds).pending) == spoken(
            Channel::Text,
            latest(rounds),
        ),
        thoughts(streamed(poll, rounds)) == spoken(Channel::Thinking, latest(rounds)),
    decreases rounds.len(),
{
    if rounds.len() > 0 {
        let earlier = rounds.drop_last();
        lemma_streamed(poll, earlier);
        let here = after(poll, earlier);
        let sends = round_sends(here, rounds.last());
        lemma_concat(streamed(poll, earlier), sends);
        match rounds.last() {
            Round::Answer { steps: Some(s), status, now } => {
                let old = latest(earlier);
                law_snapshot_adds_what_was_appended(Channel::Text, old, s, here.cursors);
                law_snapshot_adds_what_was_appended(Channel::Thinking, old, s, here.cursors);
                let reasoning = fresh_parts(Channel::Thinking, s, here.cursors);
                let text = fresh_parts(Channel::Text, s, here.cursors);
                let shown = if here.force_reasoning_before_text {
                    Seq::<Delta>::empty()
                } else {
                    as_texts(here.pending + text)
                };
                lemma_concat(as_thinking(reasoning), shown);
                lemma_carried(reasoning);
                lemma_carried(here.pending + text);
                lemma_joined(here.pending, text);
                assert(texts(streamed(poll, rounds)) + joined(after(poll, rounds).pending)
                    == texts(streamed(poll, earlier)) + joined(here.pending) + joined(text));
            },
            _ => {},
        }
    }
}

/// Within one answer all reasoning is sent before any text.
pub proof fn law_answer_sends_reasoning_first(poll: Poll, round: Round)
    ensures
        reasoning_first(round_sends(poll, round)),
{
}

/// Where text has to wait, none is sent before the end of the polling, and in
/// the whole stream all text follows on all reasoning.
pub proof fn law_held_text_follows_all_reasoning(start: nat, rounds: Seq<Round>)
    ensures
        texts(streamed(Poll::initial(true, start), rounds)) == Seq::<char>::empty(),
        reasoning_first(whole_stream(Poll::initial(true, start), rounds)),
{
    lemma_only_reasoning(Poll::initial(true, start), rounds);
}

/// Where text has to wait, the rounds send reasoning only.
proof fn lemma_only_reasoning(poll: Poll, rounds: Seq<Round>)
    requires
        poll.force_reasoning_before_text,
    ensures
        after(poll, rounds).force_reasoning_before_text,
        forall|i: int|
            0 <= i < streamed(poll, rounds).len() ==> (#[trigger] streamed(
                poll,
                rounds,
            )[i]) is Thinking,
        texts(streamed(poll, rounds)) == Seq::<char>::empty(),
    decreases rounds.len(),
{
    if rounds.len() > 0 {
        let earlier = rounds.drop_last();
        lemma_only_reasoning(poll, earlier);
        let here = after(poll, earlier);
        let sends = round_sends(here, rounds.last());
        lemma_concat(streamed(poll, earlier), sends);
        if let Round::Answer { steps: Some(s), status, now } = rounds.last() {
            let reasoning = fresh_parts(Channel::Thinking, s, here.cursors);
            lemma_carried(reasoning);
        }
    }
}

/// The text increments in `list`, in order.
pub open spec fn text_items(list: Seq<Delta>) -> Seq<Seq<char>>
    decreases list.len(),
{
    if list.len() == 0 {
        Seq::empty()
    } else {
        text_items(list.drop_last()) + (match list.last() {
            Delta::Text(s) => seq![s],
            Delta::Thinking(_) => Seq::empty(),
        })
    }
}

/// The reasoning increments in `list`, in order.
pub open spec fn thinking_items(list: Seq<Delta>) -> Seq<Seq<char>>
    decreases list.len(),
{
    if list.len() == 0 {
        Seq::empty()
    } else {
        thinking_items(list.drop_last()) + (match list.last() {
            Delta::Text(_) => Seq::empty(),
            Delta::Thinking(s) => seq![s],
        })
    }
}

/// Lists put end to end carry their increments end to end.
pub(crate) proof fn lemma_items_concat(a: Seq<Delta>, b: Seq<Delta>)
    ensures
        text_items(a + b) == text_items(a) + text_items(b),
        thinking_items(a + b) == thinking_items(a) + thinking_items(b),
    decreases b.len(),
{
    if b.len() > 0 {
        assert((a + b).drop_last() == a + b.drop_last());
        lemma_items_concat(a, b.drop_last());
    } else {
        assert(a + b == a);
    }
}

/// The increments that strings come to.
pub(crate) proof fn lemma_items(list: Seq<Seq<char>>)
    ensures
        text_items(as_texts(list)) == list,
        thinking_items(as_texts(list)) == Seq::<Seq<char>>::empty(),
        text_items(as_thinking(list)) == Seq::<Seq<char>>::empty(),
        thinking_items(as_thinking(list)) == list,
    decreases list.len(),
{
    if list.len() > 0 {
        lemma_items(list.drop_last());
        assert(as_texts(list).drop_last() == as_texts(list.drop_last()));
        assert(as_thinking(list).drop_last() == as_thinking(list.drop_last()));
        assert(list == list.drop_last() + seq![list.last()]);
    }
}

/// Holding text back changes when it is sent, and nothing else: whatever the
/// rounds bring, the whole stream carries the same reasoning increments and the
/// same text increments, each in the same order, and the polling goes the same
/// way.
pub proof fn law_holding_text_back_changes_no_item(start: nat, rounds: Seq<Round>)
    ensures
        ({
            let held = Poll::initial(true, start);
            let eager = Poll::initial(false, start);
            &&& thinking_items(whole_stream(held, rounds)) == thinking_items(
                whole_stream(eager, rounds),
            )
            &&& text_items(whole_stream(held, rounds)) == text_items(whole_stream(eager, rounds))
            &&& after(eager, rounds) == (Poll {
                pending: Seq::empty(),
                force_reasoning_before_text: false,
                ..after(held, rounds)
            })
        }),
{
    let held = Poll::initial(true, start);
    let eager = Poll::initial(false, start);
    lemma_held(start, rounds);
    lemma_items_concat(streamed(held, rounds), as_texts(after(held, rounds).pending));
    lemma_items_concat(streamed(eager, rounds), as_texts(after(eager, rounds).pending));
    lemma_items(after(held, rounds).pending);
    lemma_items(after(eager, rounds).pending);
}

/// After any rounds, what is held back is the text that would have been sent.
proof fn lemma_held(start: nat, rounds: Seq<Round>)
    ensures
        ({
            let held = Poll::initial(true, start);
            let eager = Poll::initial(false, start);
            &&& thinking_items(streamed(held, rounds)) == thinking_items(streamed(eager, rounds))
            &&& text_items(streamed(held, rounds)) == Seq::<Seq<char>>::empty()
            &&& after(held, rounds).pending == text_items(streamed(eager, rounds))
            &&& after(held, rounds).force_reasoning_before_text
            &&& after(eager, rounds) == (Poll {
                pending: Seq::empty(),
                force_reasoning_before_text: false,
                ..after(held, rounds)
            })
        }),
    decreases rounds.len(),
{
    if rounds.len() > 0 {
        let earlier = rounds.drop_last();
        let held = Poll::initial(true, start);
        let eager = Poll::initial(false, start);
        lemma_held(start, earlier);
        let here = after(held, earlier);
        let there = after(eager, earlier);
        lemma_items_concat(streamed(held, earlier), round_sends(here, rounds.last()));
        lemma_items_concat(streamed(eager, earlier), round_sends(there, rounds.last()));
        if let Round::Answer { steps: Some(s), .. } = rounds.last() {
            let reasoning = fresh_parts(Channel::Thinking, s, here.cursors);
            let text = fresh_parts(Channel::Text, s, here.cursors);
            lemma_items(reasoning);
            lemma_items(text);
            assert(round_sends(here, rounds.last()) == as_thinking(reasoning));
            assert(there.pending + text == text);
            lemma_items_concat(as_thinking(reasoning), as_texts(text));
        }
    }
}

/// What a round adds to the stream of step `i` on one channel.
pub open spec fn step_part(channel: Channel, poll: Poll, round: Round, i: int) -> Seq<char> {
    match round {
        Round::Answer { steps: Some(s), .. } if 0 <= i < s.len() && s[i] is Some => fresh(
            said(s[i]->0, channel),
            seen(cursor_at(poll.cursors, i), channel),
        ),
        _ => Seq::empty(),
    }
}

/// What all `rounds` add to the stream of step `i` on one channel.
pub open spec fn step_streamed(
    channel: Channel,
    poll: Poll,
    rounds: Seq<Round>,
    i: int,
) -> Seq<char>
    decreases rounds.len(),
{
    if rounds.len() == 0 {
        Seq::empty()
    } else {
        step_streamed(channel, poll, rounds.drop_last(), i) + step_part(
            channel,
            after(poll, rounds.drop_last()),
            rounds.last(),
            i,
        )
    }
}

/// What step `i` had said on one channel when it was last seen.
pub open spec fn last_said(channel: Channel, rounds: Seq<Round>, i: int) -> Seq<char>
    decreases rounds.len(),
{
    if rounds.len() == 0 {
        Seq::empty()
    } else {
        match rounds.last() {
            Round::Answer { steps: Some(s), .. } if 0 <= i < s.len() && s[i] is Some => said(
                s[i]->0,
                channel,
            ),
            _ => last_said(channel, rounds.drop_last(), i),
        }
    }
}

/// Whenever step `i` is seen, it has gone on where it stood.
pub open spec fn step_goes_on(channel: Channel, rounds: Seq<Round>, i: int) -> bool
    decreases rounds.len(),
{
    rounds.len() > 0 ==> {
        &&& step_goes_on(channel, rounds.drop_last(), i)
        &&& last_said(channel, rounds.drop_last(), i).is_prefix_of(last_said(channel, rounds, i))
    }
}

/// Whatever else happens in a conversation, a step that goes on is streamed once
/// and in order, also while other steps come before or behind it.
pub proof fn law_each_step_is_streamed_once(
    channel: Channel,
    force_reasoning_before_text: bool,
    start: nat,
    rounds: Seq<Round>,
    i: int,
)
    requires
        0 <= i,
        step_goes_on(channel, rounds, i),
    ensures
        step_streamed(channel, Poll::initial(force_reasoning_before_text, start), rounds, i)
            == last_said(channel, rounds, i),
        seen(
            cursor_at(after(Poll::initial(force_reasoning_before_text, start), rounds).cursors, i),
            channel,
        ) == size(last_said(channel, rounds, i)),
    decreases rounds.len(),
{
    let poll = Poll::initial(force_reasoning_before_text, start);
    if rounds.len() > 0 {
        let earlier = rounds.drop_last();
        law_each_step_is_streamed_once(channel, force_reasoning_before_text, start, earlier, i);
        let here = after(poll, earlier);
        law_growth_is_fresh(last_said(channel, earlier, i), last_said(channel, rounds, i));
        if let Round::Answer { steps: Some(s), status, now } = rounds.last() {
            lemma_moved(s, here.cursors, i);
        }
    }
}

/// A conversation that keeps bringing something is never left: after an answer
/// with anything new in it the polling goes on, however long it has lasted.
pub proof fn law_progress_keeps_polling(poll: Poll, idle: bool, now: nat)
    ensures
        !poll.ends(PollReport::Snapshot { made_progress: true, idle }, now),
        poll.settled(PollReport::Snapshot { made_progress: true, idle }, now).idle <= 1,
{
}

/// Idle answers without anything new, at the times `nows`.
pub open spec fn idled(poll: Poll, nows: Seq<nat>) -> Poll
    decreases nows.len(),
{
    if nows.len() == 0 {
        poll
    } else {
        idled(poll, nows.drop_last()).settled(
            PollReport::Snapshot { made_progress: false, idle: true },
            nows.last(),
        )
    }
}

/// The polling outlasts as many idle answers in a row as it has patience for,
/// and ends with the next one.
pub proof fn law_idle_answers_end_the_polling(poll: Poll, nows: Seq<nat>, now: nat)
    requires
        poll.idle == 0,
    ensures
        ({
            let report = PollReport::Snapshot { made_progress: false, idle: true };
            let here = idled(poll, nows);
            &&& here.idle == nows.len()
            &&& nows.len() >= MAX_IDLE_POLLS ==> here.ends(report, now)
            &&& nows.len() < MAX_IDLE_POLLS && !poll.timed_out(now) ==> !here.ends(report, now)
        }),
{
    lemma_idled(poll, nows);
}

/// Idle answers are counted, and nothing else.
proof fn lemma_idled(poll: Poll, nows: Seq<nat>)
    ensures
        idled(poll, nows) == (Poll { idle: poll.idle + nows.len(), ..poll }),
    decreases nows.len(),
{
    if nows.len() > 0 {
        lemma_idled(poll, nows.drop_last());
    }
}

/// Failures in a row are counted up to the last retry, and any answer starts
/// the count anew.
pub proof fn law_failures_are_counted(
    poll: Poll,
    failures: Seq<Round>,
    steps: Option<Seq<Option<Planner>>>,
)
    requires
        poll.errors == 0,
        forall|i: int| 0 <= i < failures.len() ==> (#[trigger] failures[i]) is Failure,
    ensures
        after(poll, failures).errors == (if failures.len() < MAX_POLL_RETRIES {
            failures.len()
        } else {
            MAX_POLL_RETRIES as nat
        }),
        after(poll, failures).received(steps).errors == 0,
        after(poll, failures).cursors == poll.cursors,
        after(poll, failures).pending == poll.pending,
        streamed(poll, failures) == Seq::<Delta>::empty(),
    decreases failures.len(),
{
    if failures.len() > 0 {
        law_failures_are_counted(poll, failures.drop_last(), steps);
    }
}

} // verus!

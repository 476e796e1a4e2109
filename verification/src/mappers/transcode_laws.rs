//! What each call on the transcoding of a stream does, in terms of the frames
//! that it is given.

use vstd::prelude::*;
use vstd::utf8::encode_utf8;

use crate::grpc::{code_description, Status};
use crate::mappers::delta::{lemma_concat, lemma_single, texts, CascadeDelta, Delta};
use crate::mappers::transcode::{
    all_mapped, characters, count_tokens, delta_of, law_empty_stream_is_noticed, session_after,
    stream_metadata, MapperCall, Session, StreamMetadata, TranscodeSession, Usage,
};
use crate::mappers::vcot::{
    as_text, as_thought, law_closing_tag_ends_a_thought, law_opening_tag_starts_a_thought,
    law_plain_stretch_is_kept, split, state_after, VCoTState,
};
use crate::text;

verus! {

/// What is still to be handed on of the last frame.
pub open spec fn remaining(session: Session) -> Seq<Delta> {
    match session.rest {
        Some(Delta::Text(s)) if session.is_lite => split(session.state, s),
        Some(d) => seq![d],
        None => Seq::empty(),
    }
}

/// The state once all of the last frame has been handed on.
pub open spec fn state_at_the_end(session: Session) -> VCoTState {
    match session.rest {
        Some(Delta::Text(s)) if session.is_lite => state_after(session.state, s),
        _ => session.state,
    }
}

/// Every frame can be taken in, and its pieces asked for, at any time.
pub proof fn law_every_frame_is_taken(
    session: &mut TranscodeSession,
    frame: Result<CascadeDelta, Status>,
)
    ensures
        call_requires(TranscodeSession::process_one_delta, (session, frame)),
        call_requires(TranscodeSession::next_delta, (session, )),
{
}

/// Every stream can be closed and charged, at any time.
pub proof fn law_every_stream_is_closed(
    session: &TranscodeSession,
    last_error: Option<String>,
    prompt: &str,
    model_name: &str,
    account_email: &Option<String>,
)
    ensures
        call_requires(TranscodeSession::closing_calls, (session, last_error)),
        call_requires(TranscodeSession::usage, (session, prompt, model_name, account_email)),
        call_requires(TranscodeSession::saw_any_delta, (session, )),
        call_requires(count_tokens, (prompt, )),
{
}

/// `next` is the text `s`.
pub open spec fn is_text(next: Option<CascadeDelta>, s: Seq<char>) -> bool {
    next matches Some(CascadeDelta::Text(t)) && t@ == s
}

/// `next` is the reasoning `s`.
pub open spec fn is_thinking(next: Option<CascadeDelta>, s: Seq<char>) -> bool {
    next matches Some(CascadeDelta::Thinking(t)) && t@ == s
}

/// A stream starts outside of a thought, with nothing handed on, seen or left.
pub proof fn law_new_session(is_lite: bool, session: TranscodeSession)
    requires
        call_ensures(TranscodeSession::new, (is_lite, ), session),
    ensures
        session@.is_lite == is_lite,
        session@.state == VCoTState::Outside,
        session@.content.len() == 0,
        !session@.saw_any_delta,
        session@.rest is None,
{
}

/// A frame is taken in as it is, and nothing of it is handed on yet. From then on
/// something has come, if the frame has a character.
pub proof fn law_frame_is_taken_in(
    session: &mut TranscodeSession,
    delta: CascadeDelta,
    out: Result<(), String>,
)
    requires
        call_ensures(
            TranscodeSession::process_one_delta,
            (session, Ok::<CascadeDelta, Status>(delta)),
            out,
        ),
    ensures
        out is Ok,
        final(session)@.is_lite == old(session)@.is_lite,
        final(session)@.state == old(session)@.state,
        final(session)@.content == old(session)@.content,
        match delta {
            CascadeDelta::Text(s) => {
                &&& final(session)@.rest == Some(Delta::Text(s@))
                &&& final(session)@.saw_any_delta == (old(session)@.saw_any_delta || s@.len() > 0)
            },
            CascadeDelta::Thinking(s) => {
                &&& final(session)@.rest == Some(Delta::Thinking(s@))
                &&& final(session)@.saw_any_delta == (old(session)@.saw_any_delta || s@.len() > 0)
            },
        },
{
}

/// A failure is told in a line with what its code means and its whole message,
/// whatever the code, and changes nothing.
pub proof fn law_failure_is_told(
    session: &mut TranscodeSession,
    status: Status,
    out: Result<(), String>,
)
    requires
        call_ensures(
            TranscodeSession::process_one_delta,
            (session, Err::<CascadeDelta, Status>(status)),
            out,
        ),
    ensures
        out matches Err(line) && line@ == "gRPC"@ + (" 错误 ["@ + code_description(status.code)
            + "]: "@) + status.message@,
        final(session)@ == old(session)@,
{
    assert(out->Err_0@ == "gRPC"@ + (" 错误 ["@ + code_description(status.code) + "]: "@)
        + status.message@);
}

/// What holds of every piece: the content grows by it where it is text, and by
/// nothing else; nothing of the frame is lost, repeated or put out of order; and
/// after the last piece the state is the one at the end of the frame.
pub proof fn law_piece_is_handed_on(session: &mut TranscodeSession, next: Option<CascadeDelta>)
    requires
        call_ensures(TranscodeSession::next_delta, (session, ), next),
    ensures
        final(session)@.is_lite == old(session)@.is_lite,
        final(session)@.saw_any_delta == old(session)@.saw_any_delta,
        state_at_the_end(final(session)@) == state_at_the_end(old(session)@),
        match next {
            Some(CascadeDelta::Text(s)) => {
                &&& remaining(old(session)@) == seq![Delta::Text(s@)] + remaining(final(session)@)
                &&& final(session)@.content == old(session)@.content + s@
            },
            Some(CascadeDelta::Thinking(s)) => {
                &&& remaining(old(session)@) == seq![Delta::Thinking(s@)] + remaining(
                    final(session)@,
                )
                &&& final(session)@.content == old(session)@.content
            },
            None => {
                &&& remaining(old(session)@).len() == 0
                &&& final(session)@.rest is None
                &&& final(session)@.content == old(session)@.content
                &&& final(session)@.state == state_at_the_end(old(session)@)
            },
        },
{
    let before = old(session)@;
    let after = final(session)@;
    assert(remaining(before) == before.left());
    assert(remaining(after) == after.left());
    assert(state_at_the_end(before) == before.end_state());
    assert(state_at_the_end(after) == after.end_state());
}

/// Reasoning, and all that a model with a reasoning channel of its own says, is
/// handed on in one piece as it came, also where it is empty or has tags in it.
pub proof fn law_frame_without_tags_is_one_piece(
    session: &mut TranscodeSession,
    next: Option<CascadeDelta>,
)
    requires
        call_ensures(TranscodeSession::next_delta, (session, ), next),
        old(session)@.rest matches Some(d) && (!old(session)@.is_lite || d is Thinking),
    ensures
        match old(session)@.rest->0 {
            Delta::Text(s) => is_text(next, s),
            Delta::Thinking(s) => is_thinking(next, s),
        },
        final(session)@.rest is None,
        final(session)@.state == old(session)@.state,
{
    let d = old(session)@.rest->0;
    law_piece_is_handed_on(session, next);
    assert(remaining(old(session)@) == seq![d]);
    assert(remaining(old(session)@)[0] == d);
}

/// Where nothing is left, nothing is handed on, and nothing changes.
pub proof fn law_nothing_is_handed_on_twice(
    session: &mut TranscodeSession,
    next: Option<CascadeDelta>,
)
    requires
        call_ensures(TranscodeSession::next_delta, (session, ), next),
        old(session)@.rest is None,
    ensures
        next is None,
        final(session)@ == old(session)@,
{
    law_piece_is_handed_on(session, next);
    if next is Some {
        assert(remaining(old(session)@).len() == 0);
    }
}

/// Outside of a thought, the text of a lite model up to the opening tag, or to
/// the end where there is none, is the next piece of text; the state stays until
/// the piece has been taken.
pub proof fn law_text_before_a_thought(
    session: &mut TranscodeSession,
    next: Option<CascadeDelta>,
    before: Seq<char>,
    behind: Option<Seq<char>>,
)
    requires
        call_ensures(TranscodeSession::next_delta, (session, ), next),
        old(session)@.is_lite,
        old(session)@.state == VCoTState::Outside,
        before.len() > 0,
        !text::has_stretch(before, "<thought>"@),
        old(session)@.rest == Some(
            Delta::Text(
                match behind {
                    Some(b) => before + "<thought>"@ + b,
                    None => before,
                },
            ),
        ),
    ensures
        is_text(next, before),
        final(session)@.content == old(session)@.content + before,
        final(session)@.state == VCoTState::Outside,
        remaining(final(session)@) == (match behind {
            Some(b) => split(VCoTState::Inside, b),
            None => Seq::empty(),
        }),
{
    law_piece_is_handed_on(session, next);
    law_plain_stretch_is_kept(before);
    let rest = match behind {
        Some(b) => split(VCoTState::Inside, b),
        None => Seq::empty(),
    };
    if let Some(b) = behind {
        law_opening_tag_starts_a_thought(before, b);
    }
    let all = remaining(old(session)@);
    assert(all == seq![Delta::Text(before)] + rest);
    assert(all[0] == Delta::Text(before));
    assert(all.skip(1) == rest);
    assert(all.skip(1) == remaining(final(session)@));
}

/// Inside a thought, the text of a lite model up to the closing tag, or to the
/// end where there is none, is the next piece of reasoning.
pub proof fn law_reasoning_in_a_thought(
    session: &mut TranscodeSession,
    next: Option<CascadeDelta>,
    before: Seq<char>,
    behind: Option<Seq<char>>,
)
    requires
        call_ensures(TranscodeSession::next_delta, (session, ), next),
        old(session)@.is_lite,
        old(session)@.state == VCoTState::Inside,
        before.len() > 0,
        !text::has_stretch(before, "</thought>"@),
        old(session)@.rest == Some(
            Delta::Text(
                match behind {
                    Some(b) => before + "</thought>"@ + b,
                    None => before,
                },
            ),
        ),
    ensures
        is_thinking(next, before),
        final(session)@.content == old(session)@.content,
        final(session)@.state == VCoTState::Inside,
        remaining(final(session)@) == (match behind {
            Some(b) => split(VCoTState::Outside, b),
            None => Seq::empty(),
        }),
{
    law_piece_is_handed_on(session, next);
    law_plain_stretch_is_kept(before);
    let rest = match behind {
        Some(b) => split(VCoTState::Outside, b),
        None => Seq::empty(),
    };
    if let Some(b) = behind {
        law_closing_tag_ends_a_thought(before, b);
    }
    let all = remaining(old(session)@);
    assert(all == seq![Delta::Thinking(before)] + rest);
    assert(all[0] == Delta::Thinking(before));
    assert(all.skip(1) == rest);
    assert(all.skip(1) == remaining(final(session)@));
}

/// A tag at the front is nothing but the turn from one state to the other: what
/// is handed on is what would be with the tag gone and the state turned.
#[verifier::spinoff_prover]
pub proof fn law_tag_in_front_turns_the_state(
    tagged: &mut TranscodeSession,
    next: Option<CascadeDelta>,
    turned: &mut TranscodeSession,
    turned_next: Option<CascadeDelta>,
    behind: Seq<char>,
)
    requires
        call_ensures(TranscodeSession::next_delta, (tagged, ), next),
        call_ensures(TranscodeSession::next_delta, (turned, ), turned_next),
        old(tagged)@.is_lite,
        old(tagged)@.state == VCoTState::Outside ==> {
            &&& old(tagged)@.rest == Some(Delta::Text("<thought>"@ + behind))
            &&& old(turned)@ == (Session {
                state: VCoTState::Inside,
                rest: Some(Delta::Text(behind)),
                ..old(tagged)@
            })
        },
        old(tagged)@.state == VCoTState::Inside ==> {
            &&& old(tagged)@.rest == Some(Delta::Text("</thought>"@ + behind))
            &&& old(turned)@ == (Session {
                state: VCoTState::Outside,
                rest: Some(Delta::Text(behind)),
                ..old(tagged)@
            })
        },
    ensures
        delta_of(next) == delta_of(turned_next),
        final(tagged)@.content == final(turned)@.content,
        final(tagged)@.state == final(turned)@.state,
        remaining(final(tagged)@) == remaining(final(turned)@),
        state_at_the_end(final(tagged)@) == state_at_the_end(final(turned)@),
{
    let nothing = Seq::<char>::empty();
    reveal_strlit("<thought>");
    reveal_strlit("</thought>");
    assert(!text::has_stretch(nothing, "<thought>"@));
    assert(!text::has_stretch(nothing, "</thought>"@));
    law_opening_tag_starts_a_thought(nothing, behind);
    law_closing_tag_ends_a_thought(nothing, behind);
    assert(nothing + "<thought>"@ + behind == "<thought>"@ + behind);
    assert(nothing + "</thought>"@ + behind == "</thought>"@ + behind);
    law_piece_is_handed_on(tagged, next);
    law_piece_is_handed_on(turned, turned_next);
    let one = remaining(old(tagged)@);
    let other = remaining(old(turned)@);
    assert(as_text(nothing) + split(VCoTState::Inside, behind) == split(VCoTState::Inside, behind));
    assert(as_thought(nothing) + split(VCoTState::Outside, behind) == split(
        VCoTState::Outside,
        behind,
    ));
    assert(one == other);
    assert(next is None <==> one.len() == 0);
    assert(turned_next is None <==> other.len() == 0);
    if next is Some {
        assert(one[0] == next->0@);
        assert(other[0] == turned_next->0@);
        assert(one.skip(1) == remaining(final(tagged)@));
        assert(other.skip(1) == remaining(final(turned)@));
    } else {
        assert(remaining(final(tagged)@) == Seq::<Delta>::empty());
        assert(remaining(final(turned)@) == Seq::<Delta>::empty());
    }
}

/// Where something has come, the stream is closed with one empty text. Where
/// nothing has, the user is told so before that: by the last error as it is, or
/// in general terms. The last call is final, and no other.
pub proof fn law_stream_is_closed(
    session: &TranscodeSession,
    last_error: Option<String>,
    calls: Vec<MapperCall>,
)
    requires
        call_ensures(TranscodeSession::closing_calls, (session, last_error), calls),
    ensures
        calls@.len() == (if session@.saw_any_delta { 1int } else { 2 }),
        calls@.last().is_final,
        calls@.last().delta matches CascadeDelta::Text(s) && s@.len() == 0,
        !session@.saw_any_delta ==> {
            &&& !calls@[0].is_final
            &&& calls@[0].delta matches CascadeDelta::Text(line) && line@ == (match last_error {
                Some(raw) => raw@,
                None => "内核返回内容为空，可能触发了 403 权限或网络异常。"@,
            })
        },
{
    let views = calls@.map_values(|c: MapperCall| c@);
    assert(views.len() == calls@.len());
    assert(views[0] == calls@[0]@);
    assert(views.last() == calls@.last()@);
}

/// The deltas of the calls that close a stream.
pub open spec fn closing_deltas(session: Session, last_error: Option<Seq<char>>) -> Seq<Delta> {
    session.closing(last_error).map_values(|c: (Delta, bool)| c.0)
}

/// Over a whole stream in which any character came, all calls of the mapper
/// together carry the text of the stream's own pieces: closing it adds none.
pub proof fn law_closing_adds_no_text(
    is_lite: bool,
    stream: Seq<Delta>,
    last_error: Option<Seq<char>>,
    i: int,
)
    requires
        0 <= i < stream.len(),
        characters(stream[i]).len() > 0,
    ensures
        ({
            let first = Session::initial(is_lite);
            let pieces = all_mapped(first, stream);
            let closing = closing_deltas(session_after(first, stream), last_error);
            &&& texts(pieces + closing) == texts(pieces)
            &&& closing.len() == 1
        }),
{
    let first = Session::initial(is_lite);
    let end = session_after(first, stream);
    law_empty_stream_is_noticed(is_lite, stream);
    let closing = closing_deltas(end, last_error);
    assert(closing == seq![Delta::Text(Seq::<char>::empty())]);
    lemma_single(Delta::Text(Seq::<char>::empty()));
    lemma_concat(all_mapped(first, stream), closing);
    assert(texts(all_mapped(first, stream)) + Seq::<char>::empty() == texts(
        all_mapped(first, stream),
    ));
}

/// Whether anything has come is what the session has seen.
pub proof fn law_seen(session: &TranscodeSession, saw: bool)
    requires
        call_ensures(TranscodeSession::saw_any_delta, (session, ), saw),
    ensures
        saw == session@.saw_any_delta,
{
}

/// `count` is one for every four whole bytes, and at least one, in 32 bits.
pub open spec fn is_count(bytes: nat, count: u32) -> bool {
    &&& bytes < 8 ==> count == 1
    &&& 8 <= bytes < 0x4_0000_0000 ==> 4 * count <= bytes < 4 * count + 4
    &&& 8 <= bytes ==> count == bytes / 4 % 0x1_0000_0000
}

/// A text counts by its bytes.
pub proof fn law_tokens_of_a_text(s: &str, count: u32)
    requires
        call_ensures(count_tokens, (s, ), count),
    ensures
        is_count(encode_utf8(s@).len(), count),
{
}

/// A stream is charged for the prompt and for the text that was handed on, to
/// its account, or to "anonymous" where it has none.
pub proof fn law_charge(
    session: &TranscodeSession,
    prompt: &str,
    model_name: &str,
    account_email: &Option<String>,
    usage: Usage,
)
    requires
        call_ensures(
            TranscodeSession::usage,
            (session, prompt, model_name, account_email),
            usage,
        ),
    ensures
        is_count(encode_utf8(prompt@).len(), usage.input_tokens),
        is_count(encode_utf8(session@.content).len(), usage.output_tokens),
        usage.model_name@ == model_name@,
        *account_email matches Some(email) ==> usage.account@ == email@,
        *account_email is None ==> usage.account@ == "anonymous"@,
{
}

/// What is told of a stream is what it is charged with, and no error.
pub proof fn law_told_of_a_stream(usage: &Usage, metadata: StreamMetadata)
    requires
        call_ensures(stream_metadata, (usage, ), metadata),
    ensures
        metadata.input_tokens == usage.input_tokens,
        metadata.output_tokens == usage.output_tokens,
        metadata.error is None,
{
}

} // verus!

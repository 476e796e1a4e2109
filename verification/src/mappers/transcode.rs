//! Transcoding a stream: what each delta comes to, and what remains to be said
//! and counted when the stream has ended.

use vstd::prelude::*;

use crate::cascade::laws::{
    goes_on, latest, law_stream_carries_the_conversation, spoken, whole_stream, Round,
};
use crate::cascade::poll::Poll;
use crate::cascade::trajectory::{byte_len, size, Channel};
use crate::grpc::{failure_line, failure_text, Status};
use crate::mappers::delta::{lemma_concat, lemma_single, texts, thoughts, CascadeDelta, Delta};
use crate::mappers::vcot::{
    cuts_tag, law_stretches_join, lemma_nothing_left, next_run, split, state_after, VCoTState,
};

verus! {

/// Where the transcoding of a stream stands.
pub struct Session {
    /// Whether reasoning stands between tags in the text.
    pub is_lite: bool,
    pub state: VCoTState,
    /// The text that has been handed on.
    pub content: Seq<char>,
    /// Whether any character has come.
    pub saw_any_delta: bool,
    /// What of the last frame has not been handed on.
    pub rest: Option<Delta>,
}

/// The characters of a delta.
pub open spec fn characters(d: Delta) -> Seq<char> {
    match d {
        Delta::Thinking(s) => s,
        Delta::Text(s) => s,
    }
}

impl Session {
    /// A stream before its first delta.
    pub open spec fn initial(is_lite: bool) -> Session {
        Session {
            is_lite,
            state: VCoTState::Outside,
            content: Seq::empty(),
            saw_any_delta: false,
            rest: None,
        }
    }

    /// What the mapper is handed for a delta, all in all.
    pub open spec fn mapped(self, d: Delta) -> Seq<Delta> {
        match d {
            Delta::Text(s) if self.is_lite => split(self.state, s),
            _ => seq![d],
        }
    }

    /// What the mapper is handed when the stream has ended.
    pub open spec fn closing(self, last_error: Option<Seq<char>>) -> Seq<(Delta, bool)> {
        let last = (Delta::Text(Seq::empty()), true);
        if self.saw_any_delta {
            seq![last]
        } else {
            let line = match last_error {
                Some(raw) => raw,
                None => "内核返回内容为空，可能触发了 403 权限或网络异常。"@,
            };
            seq![(Delta::Text(line), false), last]
        }
    }

    /// Where the transcoding stands when a delta has come and nothing of it has
    /// been handed on. What was left of a delta before it is given up.
    pub open spec fn accepted(self, d: Delta) -> Session {
        Session {
            saw_any_delta: self.saw_any_delta || characters(d).len() > 0,
            rest: Some(d),
            ..self
        }
    }

    /// Where the transcoding stands when all of a delta has been handed on.
    pub open spec fn taken(self, d: Delta) -> Session {
        Session {
            is_lite: self.is_lite,
            state: match d {
                Delta::Text(s) if self.is_lite => state_after(self.state, s),
                _ => self.state,
            },
            content: self.content + texts(self.mapped(d)),
            saw_any_delta: self.saw_any_delta || characters(d).len() > 0,
            rest: None,
        }
    }

    /// What is left is text that may hold thought tags.
    pub open spec fn is_tagged(self) -> bool {
        self.is_lite && self.rest matches Some(Delta::Text(_))
    }

    /// What is still to be handed on of the last delta.
    pub open spec fn left(self) -> Seq<Delta> {
        match self.rest {
            None => Seq::empty(),
            Some(d) => self.mapped(d),
        }
    }

    /// The state behind all that is left.
    pub open spec fn end_state(self) -> VCoTState {
        match self.rest {
            Some(Delta::Text(s)) if self.is_lite => state_after(self.state, s),
            _ => self.state,
        }
    }

    /// From here, handing on `next` leads to `after`. The content grows by that
    /// piece alone, and the state is that of the piece: it flips only when the
    /// piece behind the tag is handed on, or when nothing is left.
    pub open spec fn hands_on(self, next: Option<Delta>, after: Session) -> bool {
        &&& self.left() == (match next {
            Some(d) => seq![d],
            None => Seq::empty(),
        }) + after.left()
        &&& after.content == (match next {
            Some(Delta::Text(s)) => self.content + s,
            _ => self.content,
        })
        &&& after.end_state() == self.end_state()
        &&& after.is_lite == self.is_lite
        &&& after.saw_any_delta == self.saw_any_delta
        &&& next matches Some(d) ==> if self.is_tagged() {
            after.is_tagged() && (d is Text <==> after.state == VCoTState::Outside)
        } else {
            after.rest is None && after.state == self.state
        }
        &&& next is None ==> after.rest is None && after.state == self.end_state()
    }
}

/// A delta that the mapper is handed, and whether it is the last one.
#[derive(Debug, PartialEq, Eq)]
pub struct MapperCall {
    pub delta: CascadeDelta,
    pub is_final: bool,
}

impl View for MapperCall {
    type V = (Delta, bool);

    open spec fn view(&self) -> (Delta, bool) {
        (self.delta@, self.is_final)
    }
}

/// The number of tokens that so many bytes are taken for.
pub open spec fn token_estimate(bytes: nat) -> nat {
    if bytes / 4 > 1 {
        bytes / 4
    } else {
        1
    }
}

/// What an account is charged for a stream.
#[derive(Debug, PartialEq, Eq)]
pub struct Usage {
    pub account: String,
    pub model_name: String,
    pub input_tokens: u32,
    pub output_tokens: u32,
}

/// What is told of a stream that has ended.
#[derive(Debug, PartialEq, Eq)]
pub struct StreamMetadata {
    pub input_tokens: u32,
    pub output_tokens: u32,
    pub error: Option<String>,
}

/// The transcoding of one stream.
pub struct TranscodeSession {
    is_lite: bool,
    vcot_state: VCoTState,
    full_response_content: String,
    saw_any_delta: bool,
    rest: Option<CascadeDelta>,
}

impl View for TranscodeSession {
    type V = Session;

    closed spec fn view(&self) -> Session {
        Session {
            is_lite: self.is_lite,
            state: self.vcot_state,
            content: self.full_response_content@,
            saw_any_delta: self.saw_any_delta,
            rest: delta_of(self.rest),
        }
    }
}

/// A delta that may be missing, by its characters.
pub open spec fn delta_of(delta: Option<CascadeDelta>) -> Option<Delta> {
    match delta {
        Some(d) => Some(d@),
        None => None,
    }
}

/// The number of tokens that a text is taken for, in the 32 bits in which it is
/// counted.
pub fn count_tokens(text: &str) -> (count: u32)
    ensures
        count == token_estimate(size(text@)) % 0x1_0000_0000,
{
    let bytes: u64 = byte_len(text) as u64;
    let tokens: u64 = if bytes / 4 > 1 {
        bytes / 4
    } else {
        1
    };
    assert(tokens as u32 == tokens % 0x1_0000_0000) by (bit_vector);
    #[verifier::truncate]
    (tokens as u32)
}

impl TranscodeSession {
    /// Starts to transcode the stream of a model.
    pub fn new(is_lite: bool) -> (session: Self)
        ensures
            session@ == Session::initial(is_lite),
    {
        TranscodeSession {
            is_lite,
            vcot_state: VCoTState::Outside,
            full_response_content: String::new(),
            saw_any_delta: false,
            rest: None,
        }
    }

    /// Takes in the next frame of the stream, for `next_delta` to give piece by
    /// piece; it takes the place of what was left of the frame before. Where the
    /// stream failed, gives the line that tells the user of it, and changes
    /// nothing.
    pub fn process_one_delta(&mut self, frame: Result<CascadeDelta, Status>) -> (out: Result<
        (),
        String,
    >)
        ensures
            match frame {
                Ok(delta) => {
                    &&& out is Ok
                    &&& final(self)@ == old(self)@.accepted(delta@)
                    &&& final(self)@.left() == old(self)@.mapped(delta@)
                },
                Err(status) => {
                    &&& out is Err
                    &&& out->Err_0@ == failure_text("gRPC"@, status.code, status.message@)
                    &&& final(self)@ == old(self)@
                },
            },
    {
        let delta = match frame {
            Ok(delta) => delta,
            Err(status) => {
                return Err(failure_line("gRPC", &status));
            },
        };
        let is_empty = match &delta {
            CascadeDelta::Text(s) => s.as_str().is_empty(),
            CascadeDelta::Thinking(s) => s.as_str().is_empty(),
        };
        if !is_empty {
            self.saw_any_delta = true;
        }
        self.rest = Some(delta);
        Ok(())
    }

    /// The next piece of the frame to hand to the mapper, if any is left. It is
    /// to be called again only when the mapper has taken the piece before: up to
    /// then, what is left of the frame has no effect.
    pub fn next_delta(&mut self) -> (next: Option<CascadeDelta>)
        ensures
            old(self)@.hands_on(delta_of(next), final(self)@),
    {
        let next = match self.rest.take() {
            None => None,
            Some(CascadeDelta::Text(s)) => if self.is_lite {
                let (piece, left) = next_run(&mut self.vcot_state, s.as_str());
                if piece.is_some() {
                    self.rest = Some(CascadeDelta::Text(left.to_owned()));
                }
                piece
            } else {
                Some(CascadeDelta::Text(s))
            },
            Some(CascadeDelta::Thinking(s)) => Some(CascadeDelta::Thinking(s)),
        };
        if let Some(CascadeDelta::Text(s)) = &next {
            self.full_response_content.append(s.as_str());
        }
        proof {
            lemma_nothing_left(self.vcot_state);
            let piece: Seq<Delta> = match delta_of(next) {
                Some(d) => seq![d],
                None => Seq::empty(),
            };
            assert(old(self)@.left() == piece + self@.left());
        }
        next
    }

    /// Whether any character has come.
    pub fn saw_any_delta(&self) -> (saw: bool)
        ensures
            saw == self@.saw_any_delta,
    {
        self.saw_any_delta
    }

    /// What the mapper is handed when the stream has ended: where no character
    /// has come, the last error of the engine or in general terms that there
    /// was nothing; then the empty text that closes the answer.
    pub fn closing_calls(&self, last_error: Option<String>) -> (calls: Vec<MapperCall>)
        ensures
            calls@.map_values(|c: MapperCall| c@) == self@.closing(
                match last_error {
                    Some(raw) => Some(raw@),
                    None => None,
                },
            ),
    {
        let mut calls: Vec<MapperCall> = Vec::new();
        if !self.saw_any_delta {
            let line = match last_error {
                Some(raw) => raw,
                None => "内核返回内容为空，可能触发了 403 权限或网络异常。".to_owned(),
            };
            calls.push(MapperCall { delta: CascadeDelta::Text(line), is_final: false });
        }
        calls.push(MapperCall { delta: CascadeDelta::Text(String::new()), is_final: true });
        calls
    }

    /// What the stream is charged with, to its account or to nobody by name.
    pub fn usage(
        &self,
        prompt: &str,
        model_name: &str,
        account_email: &Option<String>,
    ) -> (usage: Usage)
        ensures
            usage.account@ == (match *account_email {
                Some(email) => email@,
                None => "anonymous"@,
            }),
            usage.model_name@ == model_name@,
            usage.input_tokens == token_estimate(size(prompt@)) % 0x1_0000_0000,
            usage.output_tokens == token_estimate(size(self@.content)) % 0x1_0000_0000,
    {
        let account = match account_email {
            Some(email) => email.clone(),
            None => "anonymous".to_owned(),
        };
        Usage {
            account,
            model_name: model_name.to_owned(),
            input_tokens: count_tokens(prompt),
            output_tokens: count_tokens(self.full_response_content.as_str()),
        }
    }
}

/// What is told of a stream with this usage.
pub fn stream_metadata(usage: &Usage) -> (metadata: StreamMetadata)
    ensures
        metadata.input_tokens == usage.input_tokens,
        metadata.output_tokens == usage.output_tokens,
        metadata.error is None,
{
    StreamMetadata {
        input_tokens: usage.input_tokens,
        output_tokens: usage.output_tokens,
        error: None,
    }
}

/// Where the transcoding stands after all of `stream`.
pub open spec fn session_after(session: Session, stream: Seq<Delta>) -> Session
    decreases stream.len(),
{
    if stream.len() == 0 {
        session
    } else {
        session_after(session, stream.drop_last()).taken(stream.last())
    }
}

/// All that the mapper is handed for `stream`.
pub open spec fn all_mapped(session: Session, stream: Seq<Delta>) -> Seq<Delta>
    decreases stream.len(),
{
    if stream.len() == 0 {
        Seq::empty()
    } else {
        all_mapped(session, stream.drop_last()) + session_after(
            session,
            stream.drop_last(),
        ).mapped(stream.last())
    }
}

/// From the first of `stages` to the last, `pieces` were handed on one by one.
pub open spec fn hands_over(stages: Seq<Session>, pieces: Seq<Delta>) -> bool {
    &&& stages.len() == pieces.len() + 1
    &&& forall|i: int|
        0 <= i < pieces.len() ==> (#[trigger] stages[i]).hands_on(Some(pieces[i]), stages[i + 1])
}

/// At every stage of a frame, what was handed on and what is left make up the
/// frame; the content has grown by what was handed on alone, and the state is
/// that of the last piece. So where the mapper fails on a piece, nothing behind
/// that piece has had an effect.
#[verifier::spinoff_prover]
pub proof fn law_frame_is_handed_on_in_order(
    session: Session,
    d: Delta,
    stages: Seq<Session>,
    pieces: Seq<Delta>,
)
    requires
        hands_over(stages, pieces),
        stages[0] == session.accepted(d),
    ensures
        pieces + stages.last().left() == session.mapped(d),
        stages.last().content == session.content + texts(pieces),
        stages.last().end_state() == session.taken(d).state,
        stages.last().is_lite == session.is_lite,
        stages.last().saw_any_delta == session.taken(d).saw_any_delta,
        if pieces.len() > 0 && session.accepted(d).is_tagged() {
            pieces.last() is Text <==> stages.last().state == VCoTState::Outside
        } else {
            stages.last().state == session.state
        },
    decreases pieces.len(),
{
    if pieces.len() > 0 {
        let i = pieces.len() - 1;
        let before = stages.drop_last();
        assert forall|j: int| 0 <= j < i implies (#[trigger] before[j]).hands_on(
            Some(pieces.drop_last()[j]),
            before[j + 1],
        ) by {
            assert(stages[j].hands_on(Some(pieces[j]), stages[j + 1]));
        }
        law_frame_is_handed_on_in_order(session, d, before, pieces.drop_last());
        lemma_frame_stays_tagged(session.accepted(d), before, pieces.drop_last());
        assert(stages[i].hands_on(Some(pieces[i]), stages[i + 1]));
        assert(before.last() == stages[i]);
        assert(stages.last() == stages[i + 1]);
        assert(pieces + stages.last().left() == pieces.drop_last() + stages[i].left());
        let part = match pieces[i] {
            Delta::Text(s) => s,
            Delta::Thinking(_) => Seq::empty(),
        };
        assert(texts(pieces) == texts(pieces.drop_last()) + part);
        assert(stages.last().content == stages[i].content + part);
        assert(session.content + texts(pieces.drop_last()) + part == session.content + texts(pieces));
    } else {
        assert(stages.last() == stages[0]);
        assert(stages.last().left() == session.mapped(d));
        assert(pieces + stages.last().left() == stages.last().left());
        assert(session.content + texts(pieces) == session.content);
    }
}

/// A piece of a tagged text leaves a tagged text.
proof fn lemma_frame_stays_tagged(start: Session, stages: Seq<Session>, pieces: Seq<Delta>)
    requires
        hands_over(stages, pieces),
        stages[0] == start,
    ensures
        start.is_tagged() ==> stages.last().is_tagged(),
        !start.is_tagged() ==> !stages.last().is_tagged(),
    decreases pieces.len(),
{
    if pieces.len() > 0 {
        let i = pieces.len() - 1;
        let before = stages.drop_last();
        assert forall|j: int| 0 <= j < i implies (#[trigger] before[j]).hands_on(
            Some(pieces.drop_last()[j]),
            before[j + 1],
        ) by {
            assert(stages[j].hands_on(Some(pieces[j]), stages[j + 1]));
        }
        lemma_frame_stays_tagged(start, before, pieces.drop_last());
        assert(stages[i].hands_on(Some(pieces[i]), stages[i + 1]));
    }
}

/// The pieces of a frame, once nothing is left, are together what the frame is
/// mapped to, and the transcoding stands where the whole frame takes it.
pub proof fn law_pieces_make_up_the_frame(
    session: Session,
    d: Delta,
    stages: Seq<Session>,
    pieces: Seq<Delta>,
    end: Session,
)
    requires
        hands_over(stages, pieces),
        stages[0] == session.accepted(d),
        stages.last().hands_on(None, end),
    ensures
        pieces == session.mapped(d),
        end == session.taken(d),
{
    law_frame_is_handed_on_in_order(session, d, stages, pieces);
    assert(stages.last().left() == Seq::<Delta>::empty() + end.left());
    assert(pieces + stages.last().left() == pieces);
}

/// The text that is charged is the text that the mapper was handed; reasoning
/// is not charged.
pub proof fn law_charged_text_is_mapped_text(is_lite: bool, stream: Seq<Delta>)
    ensures
        session_after(Session::initial(is_lite), stream).content == texts(
            all_mapped(Session::initial(is_lite), stream),
        ),
    decreases stream.len(),
{
    if stream.len() > 0 {
        law_charged_text_is_mapped_text(is_lite, stream.drop_last());
        lemma_concat(
            all_mapped(Session::initial(is_lite), stream.drop_last()),
            session_after(Session::initial(is_lite), stream.drop_last()).mapped(stream.last()),
        );
    }
}

/// A stream counts as empty where, and only where, no delta of it held a
/// character.
pub proof fn law_empty_stream_is_noticed(is_lite: bool, stream: Seq<Delta>)
    ensures
        session_after(Session::initial(is_lite), stream).saw_any_delta <==> exists|i: int|
            0 <= i < stream.len() && characters(#[trigger] stream[i]).len() > 0,
    decreases stream.len(),
{
    if stream.len() > 0 {
        let earlier = stream.drop_last();
        law_empty_stream_is_noticed(is_lite, earlier);
        if exists|i: int| 0 <= i < stream.len() && characters(#[trigger] stream[i]).len() > 0 {
            let i = choose|i: int|
                0 <= i < stream.len() && characters(#[trigger] stream[i]).len() > 0;
            if i < earlier.len() {
                assert(earlier[i] == stream[i]);
            }
        }
    }
}

/// A model with a reasoning channel of its own has its stream handed on as it
/// is, delta by delta.
pub proof fn law_stream_passes_unchanged(stream: Seq<Delta>)
    ensures
        all_mapped(Session::initial(false), stream) == stream,
        !session_after(Session::initial(false), stream).is_lite,
    decreases stream.len(),
{
    if stream.len() > 0 {
        law_stream_passes_unchanged(stream.drop_last());
    }
}

/// Reasoning that comes on its own channel is handed on, for any model, and
/// leaves the state of the tags as it is.
pub proof fn law_reasoning_passes(session: Session, s: Seq<char>)
    ensures
        session.mapped(Delta::Thinking(s)) == seq![Delta::Thinking(s)],
        session.taken(Delta::Thinking(s)).state == session.state,
        session.taken(Delta::Thinking(s)).content == session.content,
{
    lemma_single(Delta::Thinking(s));
}

/// No seam between two deltas of `stream` cuts a thought tag in its text.
pub open spec fn keeps_tags_whole(stream: Seq<Delta>) -> bool
    decreases stream.len(),
{
    stream.len() > 0 ==> {
        &&& keeps_tags_whole(stream.drop_last())
        &&& (stream.last() matches Delta::Text(s) ==> !cuts_tag(
            VCoTState::Outside,
            texts(stream.drop_last()),
            s,
        ))
    }
}

/// Of a lite model's stream the mapper is handed the text outside the thought
/// tags as text, however the stream is cut into deltas outside the tags. Where
/// all reasoning stands between tags, it is handed that as reasoning.
pub proof fn law_lite_stream_is_stripped(stream: Seq<Delta>)
    requires
        keeps_tags_whole(stream),
    ensures
        texts(all_mapped(Session::initial(true), stream)) == texts(
            split(VCoTState::Outside, texts(stream)),
        ),
        thoughts(stream) == Seq::<char>::empty() ==> thoughts(
            all_mapped(Session::initial(true), stream),
        ) == thoughts(split(VCoTState::Outside, texts(stream))),
        session_after(Session::initial(true), stream).is_lite,
        session_after(Session::initial(true), stream).state == state_after(
            VCoTState::Outside,
            texts(stream),
        ),
    decreases stream.len(),
{
    let first = Session::initial(true);
    if stream.len() == 0 {
        lemma_nothing_left(VCoTState::Outside);
    } else {
        let earlier = stream.drop_last();
        law_lite_stream_is_stripped(earlier);
        let here = session_after(first, earlier);
        let last = stream.last();
        lemma_concat(all_mapped(first, earlier), here.mapped(last));
        match last {
            Delta::Text(s) => {
                law_stretches_join(VCoTState::Outside, texts(earlier), s);
            },
            Delta::Thinking(s) => {
                lemma_single(last);
                if thoughts(stream) == Seq::<char>::empty() {
                    assert(thoughts(all_mapped(first, stream)) == thoughts(
                        all_mapped(first, earlier),
                    ));
                }
            },
        }
    }
}

/// From the engine to the mapper nothing of a conversation is lost, repeated or
/// put out of order: for a model with a reasoning channel of its own, what the
/// mapper is handed carries the text and the reasoning of the conversation as it
/// last stood.
pub proof fn law_mapper_gets_the_conversation(
    force_reasoning_before_text: bool,
    start: nat,
    rounds: Seq<Round>,
)
    requires
        goes_on(rounds),
    ensures
        ({
            let poll = Poll::initial(force_reasoning_before_text, start);
            let out = all_mapped(Session::initial(false), whole_stream(poll, rounds));
            &&& texts(out) == spoken(Channel::Text, latest(rounds))
            &&& thoughts(out) == spoken(Channel::Thinking, latest(rounds))
        }),
{
    let poll = Poll::initial(force_reasoning_before_text, start);
    law_stream_passes_unchanged(whole_stream(poll, rounds));
    law_stream_carries_the_conversation(force_reasoning_before_text, start, rounds);
}

/// A text counts as at least one token, and as one for every four whole bytes
/// of it, as long as that fits in the 32 bits in which it is counted.
pub proof fn law_token_counts(bytes: nat)
    requires
        bytes < 0x4_0000_0000,
    ensures
        token_estimate(bytes) % 0x1_0000_0000 == token_estimate(bytes),
        token_estimate(bytes) >= 1,
        bytes >= 4 ==> token_estimate(bytes) == bytes / 4,
{
}

} // verus!

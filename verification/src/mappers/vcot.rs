//! Virtual chains of thought: a model without a reasoning channel writes its
//! reasoning between tags, and the tags are taken out of the stream again.

use vstd::prelude::*;

use crate::mappers::delta::{lemma_concat, lemma_single, texts, thoughts, CascadeDelta, Delta};
use crate::text;

verus! {

/// Whether the stream stands inside a chain of thought.
#[derive(Debug, Clone, Copy, PartialEq, Eq, Structural)]
pub enum VCoTState {
    Outside,
    Inside,
}

/// The tag that ends the present state.
pub open spec fn awaited_tag(state: VCoTState) -> Seq<char> {
    match state {
        VCoTState::Outside => "<thought>"@,
        VCoTState::Inside => "</thought>"@,
    }
}

/// The state behind the tag that ends `state`.
pub open spec fn flipped(state: VCoTState) -> VCoTState {
    match state {
        VCoTState::Outside => VCoTState::Inside,
        VCoTState::Inside => VCoTState::Outside,
    }
}

/// A run of characters without the awaited tag; an empty run is nothing.
pub open spec fn run(state: VCoTState, s: Seq<char>) -> Seq<Delta> {
    if s.len() == 0 {
        Seq::empty()
    } else {
        match state {
            VCoTState::Outside => seq![Delta::Text(s)],
            VCoTState::Inside => seq![Delta::Thinking(s)],
        }
    }
}

/// What stands behind the first awaited tag in `s`.
pub open spec fn behind_tag(state: VCoTState, s: Seq<char>) -> Seq<char> {
    s.skip(text::first_occurrence(s, awaited_tag(state)) + awaited_tag(state).len())
}

/// Both tags have characters.
pub proof fn lemma_tags(state: VCoTState)
    ensures
        awaited_tag(state).len() == (if state == VCoTState::Outside { 9int } else { 10 }),
        awaited_tag(state)[0] == '<',
        forall|i: int| 0 < i < awaited_tag(state).len() ==> awaited_tag(state)[i] != '<',
{
    reveal_strlit("<thought>");
    reveal_strlit("</thought>");
}

/// Behind the awaited tag there is less left.
pub proof fn lemma_behind_tag(state: VCoTState, s: Seq<char>)
    requires
        text::contains(s, awaited_tag(state)),
    ensures
        text::is_first_occurrence(
            s,
            awaited_tag(state),
            text::first_occurrence(s, awaited_tag(state)),
        ),
        behind_tag(state, s).len() < s.len(),
        behind_tag(state, s).len() == s.len() - text::first_occurrence(s, awaited_tag(state))
            - awaited_tag(state).len(),
{
    text::lemma_first_occurrence(s, awaited_tag(state));
    lemma_tags(state);
}

/// The increments that a stretch `s` of the stream comes to, from `state`.
pub open spec fn split(state: VCoTState, s: Seq<char>) -> Seq<Delta>
    decreases s.len(),
    via split_decreases
{
    if text::contains(s, awaited_tag(state)) {
        run(state, s.take(text::first_occurrence(s, awaited_tag(state)))) + split(
            flipped(state),
            behind_tag(state, s),
        )
    } else {
        run(state, s)
    }
}

/// The state at the end of the stretch `s`.
pub open spec fn state_after(state: VCoTState, s: Seq<char>) -> VCoTState
    decreases s.len(),
    via state_after_decreases
{
    if text::contains(s, awaited_tag(state)) {
        state_after(flipped(state), behind_tag(state, s))
    } else {
        state
    }
}

#[via_fn]
proof fn split_decreases(state: VCoTState, s: Seq<char>) {
    if text::contains(s, awaited_tag(state)) {
        lemma_behind_tag(state, s);
    }
}

#[via_fn]
proof fn state_after_decreases(state: VCoTState, s: Seq<char>) {
    if text::contains(s, awaited_tag(state)) {
        lemma_behind_tag(state, s);
    }
}

/// One run of characters as an increment.
fn as_run(state: VCoTState, s: &str) -> (delta: CascadeDelta)
    ensures
        delta@ == (match state {
            VCoTState::Outside => Delta::Text(s@),
            VCoTState::Inside => Delta::Thinking(s@),
        }),
{
    match state {
        VCoTState::Outside => CascadeDelta::Text(s.to_owned()),
        VCoTState::Inside => CascadeDelta::Thinking(s.to_owned()),
    }
}

/// A tag that stands at the front of `s` may be taken off, and the state
/// flipped, without a change to what comes of `s`.
proof fn lemma_tag_in_front(state: VCoTState, s: Seq<char>)
    requires
        text::is_first_occurrence(s, awaited_tag(state), 0),
    ensures
        behind_tag(state, s) == s.skip(awaited_tag(state).len() as int),
        split(state, s) == split(flipped(state), behind_tag(state, s)),
        state_after(state, s) == state_after(flipped(state), behind_tag(state, s)),
{
    text::lemma_first_occurrence_is(s, awaited_tag(state), 0);
    assert(split(state, s) == split(flipped(state), behind_tag(state, s)));
}

/// A run before the first tag may be taken off the front of `s`, and the tag
/// left there.
proof fn lemma_run_in_front(state: VCoTState, s: Seq<char>)
    requires
        text::contains(s, awaited_tag(state)),
    ensures
        ({
            let at = text::first_occurrence(s, awaited_tag(state));
            &&& split(state, s) == run(state, s.take(at)) + split(state, s.skip(at))
            &&& state_after(state, s) == state_after(state, s.skip(at))
        }),
{
    let tag = awaited_tag(state);
    let at = text::first_occurrence(s, tag);
    lemma_behind_tag(state, s);
    let rest = s.skip(at);
    assert(rest.subrange(0, tag.len() as int) == s.subrange(at, at + tag.len()));
    lemma_tag_in_front(state, rest);
    assert(behind_tag(state, rest) == behind_tag(state, s));
}

/// Where nothing is left, nothing comes of it.
pub proof fn lemma_nothing_left(state: VCoTState)
    ensures
        split(state, Seq::<char>::empty()) == Seq::<Delta>::empty(),
        state_after(state, Seq::<char>::empty()) == state,
{
    lemma_tags(state);
    assert(!text::contains(Seq::<char>::empty(), awaited_tag(state)));
}

/// Takes the next run off the front of `stretch`, and gives what is left of it.
/// Tags in front of the run are taken off with it; the tag behind it stays, so
/// that the state is that of the run until the next call.
pub fn next_run<'a>(state: &mut VCoTState, stretch: &'a str) -> (next: (
    Option<CascadeDelta>,
    &'a str,
))
    ensures
        split(*old(state), stretch@) == (match next.0 {
            Some(d) => seq![d@],
            None => Seq::empty(),
        }) + split(*final(state), next.1@),
        state_after(*final(state), next.1@) == state_after(*old(state), stretch@),
        next.0 matches Some(d) ==> (d@ is Text <==> *final(state) == VCoTState::Outside),
        next.0 is None ==> next.1@ == Seq::<char>::empty() && *final(state) == state_after(
            *old(state),
            stretch@,
        ),
{
    let mut current: &'a str = stretch;
    while !current.is_empty()
        invariant
            split(*state, current@) == split(*old(state), stretch@),
            state_after(*state, current@) == state_after(*old(state), stretch@),
        decreases current@.len(),
    {
        let (tag, behind) = match *state {
            VCoTState::Outside => ("<thought>", VCoTState::Inside),
            VCoTState::Inside => ("</thought>", VCoTState::Outside),
        };
        let length: usize = current.unicode_len();
        let ghost whole = current@;
        match text::find(current, tag) {
            Some(at) => {
                proof {
                    lemma_behind_tag(*state, whole);
                }
                if at > 0 {
                    proof {
                        lemma_run_in_front(*state, whole);
                    }
                    let head = current.substring_char(0, at);
                    return (Some(as_run(*state, head)), current.substring_char(at, length));
                }
                proof {
                    lemma_tag_in_front(*state, whole);
                }
                *state = behind;
                current = current.substring_char(tag.unicode_len(), length);
            },
            None => {
                proof {
                    reveal_strlit("");
                    lemma_nothing_left(*state);
                    assert(""@ == Seq::<char>::empty());
                }
                return (Some(as_run(*state, current)), "");
            },
        }
    }
    proof {
        lemma_nothing_left(*state);
        assert(current@ == Seq::<char>::empty());
    }
    (None, current)
}

/// What the stretch `s` leaves behind its last tag, from `state`.
pub open spec fn tail(state: VCoTState, s: Seq<char>) -> Seq<char>
    decreases s.len(),
    via tail_decreases
{
    if text::contains(s, awaited_tag(state)) {
        tail(flipped(state), behind_tag(state, s))
    } else {
        s
    }
}

#[via_fn]
proof fn tail_decreases(state: VCoTState, s: Seq<char>) {
    if text::contains(s, awaited_tag(state)) {
        lemma_behind_tag(state, s);
    }
}

/// The seam between the stretches `a` and `b` cuts a tag that was awaited at
/// the end of `a`.
pub open spec fn cuts_tag(state: VCoTState, a: Seq<char>, b: Seq<char>) -> bool {
    let left = tail(state, a);
    let tag = awaited_tag(state_after(state, a));
    exists|i: int| #[trigger]
        text::occurs_at(left + b, tag, i) && i < left.len() < i + tag.len()
}

/// Every increment has characters, no text holds an opening tag and no
/// reasoning holds a closing tag.
pub open spec fn is_stripped(d: Delta) -> bool {
    match d {
        Delta::Text(s) => s.len() > 0 && !text::contains(s, "<thought>"@),
        Delta::Thinking(s) => s.len() > 0 && !text::contains(s, "</thought>"@),
    }
}

/// What a run carries.
proof fn lemma_run(state: VCoTState, s: Seq<char>)
    ensures
        texts(run(state, s)) == (if state == VCoTState::Outside { s } else { Seq::empty() }),
        thoughts(run(state, s)) == (if state == VCoTState::Inside { s } else { Seq::empty() }),
{
    if s.len() > 0 {
        lemma_single(run(state, s)[0]);
    }
}

/// An occurrence in a front part is one in the whole, and the other way
/// round where it ends within the front part.
proof fn lemma_occurs_in_front(a: Seq<char>, b: Seq<char>, tag: Seq<char>, i: int)
    requires
        i + tag.len() <= a.len(),
    ensures
        text::occurs_at(a + b, tag, i) == text::occurs_at(a, tag, i),
{
    if 0 <= i {
        assert((a + b).subrange(i, i + tag.len()) == a.subrange(i, i + tag.len()));
    }
}

/// An occurrence behind a front part is one in what follows it.
proof fn lemma_occurs_behind(a: Seq<char>, b: Seq<char>, tag: Seq<char>, i: int)
    requires
        a.len() <= i,
    ensures
        text::occurs_at(a + b, tag, i) == text::occurs_at(b, tag, i - a.len()),
{
    if i + tag.len() <= (a + b).len() {
        assert((a + b).subrange(i, i + tag.len()) == b.subrange(
            i - a.len(),
            i - a.len() + tag.len(),
        ));
    }
}

/// The first occurrence in a front part is the first in the whole.
proof fn lemma_first_in_front(a: Seq<char>, b: Seq<char>, tag: Seq<char>)
    requires
        text::contains(a, tag),
    ensures
        text::contains(a + b, tag),
        text::first_occurrence(a + b, tag) == text::first_occurrence(a, tag),
{
    text::lemma_first_occurrence(a, tag);
    let k = text::first_occurrence(a, tag);
    lemma_occurs_in_front(a, b, tag, k);
    assert forall|j: int| 0 <= j < k implies !text::occurs_at(a + b, tag, j) by {
        lemma_occurs_in_front(a, b, tag, j);
    }
    text::lemma_first_occurrence_is(a + b, tag, k);
}

/// A stripped stream holds no empty increment, no opening tag in its text
/// and no closing tag in its reasoning.
pub proof fn law_split_is_stripped(state: VCoTState, s: Seq<char>)
    ensures
        forall|i: int|
            0 <= i < split(state, s).len() ==> is_stripped(#[trigger] split(state, s)[i]),
    decreases s.len(),
{
    let tag = awaited_tag(state);
    if text::contains(s, tag) {
        lemma_behind_tag(state, s);
        let k = text::first_occurrence(s, tag);
        let head = s.take(k);
        if text::contains(head, tag) {
            lemma_tags(state);
            text::lemma_first_occurrence(head, tag);
            let j = text::first_occurrence(head, tag);
            assert(head + s.skip(k) == s);
            lemma_occurs_in_front(head, s.skip(k), tag, j);
        }
        let rest = split(flipped(state), behind_tag(state, s));
        law_split_is_stripped(flipped(state), behind_tag(state, s));
        assert(split(state, s) == run(state, head) + rest);
    }
}

/// A stretch without the awaited tag passes whole, and leaves the state as
/// it is.
pub proof fn law_untagged_passes_whole(state: VCoTState, s: Seq<char>)
    requires
        !text::contains(s, awaited_tag(state)),
    ensures
        split(state, s) == run(state, s),
        state_after(state, s) == state,
{
}

/// A thought between its tags comes out as reasoning, what stands before it
/// as text, and the stream goes on behind it as if it started there.
pub proof fn law_tagged_thought_is_reasoning(
    before: Seq<char>,
    thought: Seq<char>,
    after: Seq<char>,
)
    requires
        !text::contains(before, "<thought>"@),
        !text::contains(thought, "</thought>"@),
    ensures
        ({
            let whole = before + "<thought>"@ + thought + "</thought>"@ + after;
            &&& split(VCoTState::Outside, whole) == run(VCoTState::Outside, before) + run(
                VCoTState::Inside,
                thought,
            ) + split(VCoTState::Outside, after)
            &&& state_after(VCoTState::Outside, whole) == state_after(VCoTState::Outside, after)
        }),
{
    let whole = before + "<thought>"@ + thought + "</thought>"@ + after;
    let inner = thought + "</thought>"@ + after;
    assert(whole == before + "<thought>"@ + inner);
    lemma_tag_found(VCoTState::Outside, before, inner);
    lemma_tag_found(VCoTState::Inside, thought, after);
}

/// Behind characters without the awaited tag, that tag is the first one.
proof fn lemma_tag_found(state: VCoTState, head: Seq<char>, rest: Seq<char>)
    requires
        !text::contains(head, awaited_tag(state)),
    ensures
        text::contains(head + awaited_tag(state) + rest, awaited_tag(state)),
        split(state, head + awaited_tag(state) + rest) == run(state, head) + split(
            flipped(state),
            rest,
        ),
        state_after(state, head + awaited_tag(state) + rest) == state_after(flipped(state), rest),
{
    let tag = awaited_tag(state);
    let s = head + tag + rest;
    let k = head.len() as int;
    lemma_tags(state);
    assert(s.subrange(k, k + tag.len()) == tag);
    assert(s == head + (tag + rest));
    assert forall|j: int| 0 <= j < k implies !text::occurs_at(s, tag, j) by {
        if text::occurs_at(s, tag, j) {
            if j + tag.len() <= k {
                lemma_occurs_in_front(head, tag + rest, tag, j);
            } else {
                assert(s.subrange(j, j + tag.len())[k - j] == tag[k - j]);
            }
        }
    }
    text::lemma_first_occurrence_is(s, tag, k);
    assert(s.take(k) == head);
    assert(behind_tag(state, s) == rest);
}

/// A stream may be cut into stretches anywhere but inside an awaited tag:
/// stripped one after the other, the two parts carry the text and the
/// reasoning of the whole, and end in the same state.
pub proof fn law_stretches_join(state: VCoTState, a: Seq<char>, b: Seq<char>)
    requires
        !cuts_tag(state, a, b),
    ensures
        texts(split(state, a + b)) == texts(split(state, a)) + texts(
            split(state_after(state, a), b),
        ),
        thoughts(split(state, a + b)) == thoughts(split(state, a)) + thoughts(
            split(state_after(state, a), b),
        ),
        state_after(state, a + b) == state_after(state_after(state, a), b),
    decreases a.len(),
{
    let tag = awaited_tag(state);
    let whole = a + b;
    lemma_tags(state);
    if text::contains(a, tag) {
        lemma_behind_tag(state, a);
        lemma_first_in_front(a, b, tag);
        let k = text::first_occurrence(a, tag);
        let rest = behind_tag(state, a);
        assert(behind_tag(state, whole) == rest + b);
        assert(whole.take(k) == a.take(k));
        assert(tail(state, a) == tail(flipped(state), rest));
        law_stretches_join(flipped(state), rest, b);
        lemma_concat(run(state, a.take(k)), split(flipped(state), rest));
        lemma_concat(run(state, a.take(k)), split(flipped(state), rest + b));
        assert(texts(split(state, whole)) == texts(split(state, a)) + texts(
            split(state_after(state, a), b),
        ));
    } else if text::contains(whole, tag) {
        text::lemma_first_occurrence(whole, tag);
        let k = text::first_occurrence(whole, tag);
        if k < a.len() {
            if k + tag.len() <= a.len() {
                lemma_occurs_in_front(a, b, tag, k);
            } else {
                assert(text::occurs_at(tail(state, a) + b, tag, k));
            }
        }
        let m = k - a.len();
        lemma_occurs_behind(a, b, tag, k);
        assert forall|j: int| 0 <= j < m implies !text::occurs_at(b, tag, j) by {
            lemma_occurs_behind(a, b, tag, j + a.len());
        }
        text::lemma_first_occurrence_is(b, tag, m);
        assert(behind_tag(state, whole) == behind_tag(state, b));
        assert(whole.take(k) == a + b.take(m));
        lemma_run(state, a);
        lemma_run(state, b.take(m));
        lemma_run(state, a + b.take(m));
        lemma_concat(run(state, b.take(m)), split(flipped(state), behind_tag(state, b)));
        lemma_concat(run(state, whole.take(k)), split(flipped(state), behind_tag(state, b)));
    } else {
        assert(!text::contains(b, tag)) by {
            if text::contains(b, tag) {
                text::lemma_first_occurrence(b, tag);
                lemma_occurs_behind(a, b, tag, text::first_occurrence(b, tag) + a.len());
            }
        }
        lemma_run(state, a);
        lemma_run(state, b);
        lemma_run(state, whole);
    }
}

/// The list of one text, where it has a character.
pub open spec fn as_text(s: Seq<char>) -> Seq<Delta> {
    if s.len() > 0 {
        seq![Delta::Text(s)]
    } else {
        Seq::empty()
    }
}

/// The list of one stretch of reasoning, where it has a character.
pub open spec fn as_thought(s: Seq<char>) -> Seq<Delta> {
    if s.len() > 0 {
        seq![Delta::Thinking(s)]
    } else {
        Seq::empty()
    }
}

/// Outside of a thought, characters without an opening tag are text, all of
/// them; inside, characters without a closing tag are reasoning.
pub proof fn law_plain_stretch_is_kept(s: Seq<char>)
    ensures
        !text::has_stretch(s, "<thought>"@) ==> split(VCoTState::Outside, s) == as_text(s)
            && state_after(VCoTState::Outside, s) == VCoTState::Outside,
        !text::has_stretch(s, "</thought>"@) ==> split(VCoTState::Inside, s) == as_thought(s)
            && state_after(VCoTState::Inside, s) == VCoTState::Inside,
{
    text::law_stretches_are_contained(s, "<thought>"@);
    text::law_stretches_are_contained(s, "</thought>"@);
}

/// The first opening tag ends the text before it, and what is behind it is read
/// from inside a thought.
pub proof fn law_opening_tag_starts_a_thought(before: Seq<char>, behind: Seq<char>)
    requires
        !text::has_stretch(before, "<thought>"@),
    ensures
        split(VCoTState::Outside, before + "<thought>"@ + behind) == as_text(before) + split(
            VCoTState::Inside,
            behind,
        ),
        state_after(VCoTState::Outside, before + "<thought>"@ + behind) == state_after(
            VCoTState::Inside,
            behind,
        ),
{
    text::law_stretches_are_contained(before, "<thought>"@);
    lemma_tag_found(VCoTState::Outside, before, behind);
}

/// The first closing tag ends the reasoning before it, and what is behind it is
/// read from outside.
pub proof fn law_closing_tag_ends_a_thought(before: Seq<char>, behind: Seq<char>)
    requires
        !text::has_stretch(before, "</thought>"@),
    ensures
        split(VCoTState::Inside, before + "</thought>"@ + behind) == as_thought(before) + split(
            VCoTState::Outside,
            behind,
        ),
        state_after(VCoTState::Inside, before + "</thought>"@ + behind) == state_after(
            VCoTState::Outside,
            behind,
        ),
{
    text::law_stretches_are_contained(before, "</thought>"@);
    lemma_tag_found(VCoTState::Inside, before, behind);
}

/// The runs are given one by one, in order, and none is lost: what was to come is
/// the run and what is still to come. The state is that of the run; when nothing
/// comes any more, nothing is left, and the state is the one at the end.
pub proof fn law_runs_come_in_order(
    state: &mut VCoTState,
    stretch: &str,
    next: (Option<CascadeDelta>, &str),
)
    requires
        call_ensures(next_run, (state, stretch), next),
    ensures
        state_after(*final(state), next.1@) == state_after(*old(state), stretch@),
        match next.0 {
            Some(CascadeDelta::Text(s)) => {
                &&& split(*old(state), stretch@) == seq![Delta::Text(s@)] + split(
                    *final(state),
                    next.1@,
                )
                &&& *final(state) == VCoTState::Outside
            },
            Some(CascadeDelta::Thinking(s)) => {
                &&& split(*old(state), stretch@) == seq![Delta::Thinking(s@)] + split(
                    *final(state),
                    next.1@,
                )
                &&& *final(state) == VCoTState::Inside
            },
            None => {
                &&& split(*old(state), stretch@).len() == 0
                &&& next.1@.len() == 0
                &&& *final(state) == state_after(*old(state), stretch@)
            },
        },
{
    lemma_nothing_left(*final(state));
}

} // verus!

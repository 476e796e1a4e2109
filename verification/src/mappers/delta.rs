//! The increments that travel from a Cascade conversation to a mapper.

use vstd::prelude::*;

verus! {

/// One increment of a conversation: reasoning, or text for the user.
#[derive(Debug, PartialEq, Eq)]
pub enum CascadeDelta {
    Thinking(String),
    Text(String),
}

/// A `CascadeDelta` by its characters.
pub enum Delta {
    Thinking(Seq<char>),
    Text(Seq<char>),
}

impl View for CascadeDelta {
    type V = Delta;

    open spec fn view(&self) -> Delta {
        match self {
            CascadeDelta::Thinking(s) => Delta::Thinking(s@),
            CascadeDelta::Text(s) => Delta::Text(s@),
        }
    }
}

/// The increments `list`, each by its characters.
pub open spec fn deltas(list: Seq<CascadeDelta>) -> Seq<Delta> {
    list.map_values(|d: CascadeDelta| d@)
}

/// All text in `list`, in order.
pub open spec fn texts(list: Seq<Delta>) -> Seq<char>
    decreases list.len(),
{
    if list.len() == 0 {
        Seq::empty()
    } else {
        texts(list.drop_last()) + (match list.last() {
            Delta::Text(s) => s,
            Delta::Thinking(_) => Seq::empty(),
        })
    }
}

/// All reasoning in `list`, in order.
pub open spec fn thoughts(list: Seq<Delta>) -> Seq<char>
    decreases list.len(),
{
    if list.len() == 0 {
        Seq::empty()
    } else {
        thoughts(list.drop_last()) + (match list.last() {
            Delta::Text(_) => Seq::empty(),
            Delta::Thinking(s) => s,
        })
    }
}

/// Lists put end to end carry their text and their reasoning end to end.
pub proof fn lemma_concat(a: Seq<Delta>, b: Seq<Delta>)
    ensures
        texts(a + b) == texts(a) + texts(b),
        thoughts(a + b) == thoughts(a) + thoughts(b),
    decreases b.len(),
{
    if b.len() > 0 {
        assert((a + b).drop_last() == a + b.drop_last());
        lemma_concat(a, b.drop_last());
    }
}

/// What a list of one increment carries.
pub proof fn lemma_single(d: Delta)
    ensures
        texts(seq![d]) == (match d {
            Delta::Text(s) => s,
            Delta::Thinking(_) => Seq::<char>::empty(),
        }),
        thoughts(seq![d]) == (match d {
            Delta::Text(_) => Seq::<char>::empty(),
            Delta::Thinking(s) => s,
        }),
{
    assert(seq![d].drop_last() == Seq::<Delta>::empty());
    assert(texts(Seq::<Delta>::empty()) == Seq::<char>::empty());
    assert(thoughts(Seq::<Delta>::empty()) == Seq::<char>::empty());
}

} // verus!

//! Searching and assembling text, with positions counted in characters.

use vstd::prelude::*;

verus! {

/// `needle` stands in `hay`, starting at character `i`.
pub open spec fn occurs_at(hay: Seq<char>, needle: Seq<char>, i: int) -> bool {
    &&& 0 <= i
    &&& i + needle.len() <= hay.len()
    &&& hay.subrange(i, i + needle.len()) == needle
}

/// `needle` stands somewhere in `hay`.
pub open spec fn contains(hay: Seq<char>, needle: Seq<char>) -> bool {
    exists|i: int| occurs_at(hay, needle, i)
}

/// `i` is the leftmost place at which `needle` stands in `hay`.
pub open spec fn is_first_occurrence(hay: Seq<char>, needle: Seq<char>, i: int) -> bool {
    &&& occurs_at(hay, needle, i)
    &&& forall|j: int| 0 <= j < i ==> !occurs_at(hay, needle, j)
}

/// The leftmost place at which `needle` stands in `hay`, where it does.
pub open spec fn first_occurrence(hay: Seq<char>, needle: Seq<char>) -> int {
    choose|i: int| is_first_occurrence(hay, needle, i)
}

/// `prefix` opens `s`.
pub open spec fn opens_with(s: Seq<char>, prefix: Seq<char>) -> bool {
    occurs_at(s, prefix, 0)
}

/// From any occurrence the leftmost one is reached.
proof fn lemma_leftmost(hay: Seq<char>, needle: Seq<char>, i: int)
    requires
        occurs_at(hay, needle, i),
    ensures
        exists|k: int| is_first_occurrence(hay, needle, k),
    decreases i,
{
    if exists|j: int| 0 <= j < i && occurs_at(hay, needle, j) {
        let j = choose|j: int| 0 <= j < i && occurs_at(hay, needle, j);
        lemma_leftmost(hay, needle, j);
    } else {
        assert(is_first_occurrence(hay, needle, i));
    }
}

/// Text that is contained has a leftmost occurrence.
pub proof fn lemma_first_occurrence(hay: Seq<char>, needle: Seq<char>)
    requires
        contains(hay, needle),
    ensures
        is_first_occurrence(hay, needle, first_occurrence(hay, needle)),
{
    let i = choose|i: int| occurs_at(hay, needle, i);
    lemma_leftmost(hay, needle, i);
}

/// A leftmost occurrence is the one that `first_occurrence` gives.
pub proof fn lemma_first_occurrence_is(hay: Seq<char>, needle: Seq<char>, i: int)
    requires
        is_first_occurrence(hay, needle, i),
    ensures
        contains(hay, needle),
        first_occurrence(hay, needle) == i,
{
    lemma_first_occurrence(hay, needle);
}

/// The characters of `s`.
fn to_chars(s: &str) -> (chars: Vec<char>)
    ensures
        chars@ == s@,
{
    let mut chars: Vec<char> = Vec::new();
    for c in it: s.chars()
        invariant
            it.seq() == s@,
            chars@ == s@.take(it.index() as int),
    {
        chars.push(c);
    }
    chars
}

/// Whether `needle` stands in `hay` at `at`.
fn stands_at(hay: &Vec<char>, needle: &Vec<char>, at: usize) -> (found: bool)
    requires
        at + needle@.len() <= hay@.len(),
    ensures
        found == occurs_at(hay@, needle@, at as int),
{
    let total: usize = hay.len();
    let mut i: usize = 0;
    while i < needle.len()
        invariant
            i <= needle@.len(),
            at + needle@.len() <= total,
            total == hay@.len(),
            forall|j: int| 0 <= j < i ==> hay@[at + j] == needle@[j],
        decreases needle@.len() - i,
    {
        if hay[at + i] != needle[i] {
            return false;
        }
        i = i + 1;
    }
    assert(hay@.subrange(at as int, at + needle@.len()) == needle@);
    true
}

/// The character position at which `needle` first stands in `hay`.
pub fn find(hay: &str, needle: &str) -> (at: Option<usize>)
    ensures
        at is Some <==> contains(hay@, needle@),
        at matches Some(i) ==> i == first_occurrence(hay@, needle@)
            && is_first_occurrence(hay@, needle@, i as int),
{
    let hay_chars = to_chars(hay);
    let needle_chars = to_chars(needle);
    if needle_chars.len() > hay_chars.len() {
        return None;
    }
    let last: usize = hay_chars.len() - needle_chars.len();
    let mut at: usize = 0;
    loop
        invariant
            hay_chars@ == hay@,
            needle_chars@ == needle@,
            last + needle@.len() == hay@.len(),
            at <= last,
            forall|j: int| 0 <= j < at ==> !occurs_at(hay@, needle@, j),
        decreases last - at,
    {
        if stands_at(&hay_chars, &needle_chars, at) {
            proof {
                lemma_first_occurrence_is(hay@, needle@, at as int);
            }
            return Some(at);
        }
        if at == last {
            return None;
        }
        at = at + 1;
    }
}

/// Whether `needle` stands somewhere in `hay`.
pub fn has(hay: &str, needle: &str) -> (found: bool)
    ensures
        found == contains(hay@, needle@),
{
    match find(hay, needle) {
        Some(_) => true,
        None => false,
    }
}

/// What is left of `s` once `prefix` is taken off its front as often as it
/// stands there.
pub open spec fn without_prefixes(s: Seq<char>, prefix: Seq<char>) -> Seq<char>
    decreases s.len(),
{
    if prefix.len() > 0 && opens_with(s, prefix) {
        without_prefixes(s.skip(prefix.len() as int), prefix)
    } else {
        s
    }
}

/// Whether `prefix` opens `s`.
pub fn begins_with(s: &str, prefix: &str) -> (found: bool)
    ensures
        found == opens_with(s@, prefix@),
{
    let s_chars = to_chars(s);
    let prefix_chars = to_chars(prefix);
    prefix_chars.len() <= s_chars.len() && stands_at(&s_chars, &prefix_chars, 0)
}

/// Takes `prefix` off the front of `s` as often as it stands there.
pub fn trim_prefixes<'a>(s: &'a str, prefix: &str) -> (rest: &'a str)
    requires
        prefix@.len() > 0,
    ensures
        rest@ == without_prefixes(s@, prefix@),
{
    let width: usize = prefix.unicode_len();
    let mut rest = s;
    while begins_with(rest, prefix)
        invariant
            width == prefix@.len(),
            width > 0,
            without_prefixes(rest@, prefix@) == without_prefixes(s@, prefix@),
        decreases rest@.len(),
    {
        let length: usize = rest.unicode_len();
        rest = rest.substring_char(width, length);
    }
    rest
}

/// What is left without prefixes does not open with one.
pub proof fn lemma_without_prefixes(s: Seq<char>, prefix: Seq<char>)
    requires
        prefix.len() > 0,
    ensures
        !opens_with(without_prefixes(s, prefix), prefix),
    decreases s.len(),
{
    if opens_with(s, prefix) {
        lemma_without_prefixes(s.skip(prefix.len() as int), prefix);
    }
}

/// The lower case of `s`, as std maps it by Unicode's tables.
pub uninterp spec fn lowercase(s: Seq<char>) -> Seq<char>;

/// Calls `str::to_lowercase`; the result depends on the characters of `s`
/// alone.
#[verifier::external_body]
pub(crate) fn to_lowercase(s: &str) -> (lower: String)
    ensures
        lower@ == lowercase(s@),
{
    s.to_lowercase()
}

/// Some stretch of `hay` is `needle`.
pub open spec fn has_stretch(hay: Seq<char>, needle: Seq<char>) -> bool {
    exists|i: int|
        0 <= i <= hay.len() - needle.len() && #[trigger] hay.subrange(i, i + needle.len()) == needle
}

/// `s`, `times` times end to end.
pub open spec fn repeated(s: Seq<char>, times: nat) -> Seq<char>
    decreases times,
{
    if times == 0 {
        Seq::empty()
    } else {
        s + repeated(s, (times - 1) as nat)
    }
}

/// Text is found where a stretch is equal to it, and nowhere else.
pub proof fn law_stretches_are_contained(hay: Seq<char>, needle: Seq<char>)
    ensures
        contains(hay, needle) <==> has_stretch(hay, needle),
{
    if contains(hay, needle) {
        let i = choose|i: int| occurs_at(hay, needle, i);
        assert(hay.subrange(i, i + needle.len()) == needle);
    }
    if has_stretch(hay, needle) {
        let i = choose|i: int|
            0 <= i <= hay.len() - needle.len() && #[trigger] hay.subrange(i, i + needle.len())
                == needle;
        assert(occurs_at(hay, needle, i));
    }
}

/// What is found is the leftmost stretch that is equal to the needle, and it is
/// found wherever there is one.
pub proof fn law_leftmost_stretch_is_found(hay: &str, needle: &str, at: Option<usize>)
    requires
        call_ensures(find, (hay, needle), at),
    ensures
        at is Some <==> has_stretch(hay@, needle@),
        at matches Some(i) ==> {
            &&& i + needle@.len() <= hay@.len()
            &&& hay@ == hay@.take(i as int) + needle@ + hay@.skip(i + needle@.len())
            &&& forall|j: int|
                0 <= j < i ==> #[trigger] hay@.subrange(j, j + needle@.len()) != needle@
        },
{
    law_stretches_are_contained(hay@, needle@);
    if let Some(i) = at {
        assert(hay@.subrange(i as int, i + needle@.len()) == needle@);
        assert(hay@ == hay@.take(i as int) + hay@.subrange(i as int, i + needle@.len())
            + hay@.skip(i + needle@.len()));
        assert forall|j: int| 0 <= j < i implies #[trigger] hay@.subrange(j, j + needle@.len())
            != needle@ by {
            assert(!occurs_at(hay@, needle@, j));
        }
    }
}

/// Whether text is there is whether a stretch is equal to it.
pub proof fn law_presence(hay: &str, needle: &str, found: bool)
    requires
        call_ensures(has, (hay, needle), found),
    ensures
        found <==> has_stretch(hay@, needle@),
{
    law_stretches_are_contained(hay@, needle@);
}

/// A text begins with its prefixes.
pub proof fn law_prefixes(s: &str, prefix: &str, found: bool)
    requires
        call_ensures(begins_with, (s, prefix), found),
    ensures
        found <==> prefix@.is_prefix_of(s@),
{
    lemma_prefix(s@, prefix@);
}

/// To open with a prefix is to have it as a prefix.
pub proof fn lemma_prefix(s: Seq<char>, prefix: Seq<char>)
    ensures
        opens_with(s, prefix) <==> prefix.is_prefix_of(s),
{
    if prefix.len() <= s.len() {
        assert(s.subrange(0, prefix.len() as int) == s.take(prefix.len() as int));
    }
}

/// What is taken off a text is its prefix, as often as it stands there, and
/// nothing else.
pub proof fn law_prefixes_are_taken_off(s: &str, prefix: &str, rest: &str)
    requires
        prefix@.len() > 0,
        call_ensures(trim_prefixes, (s, prefix), rest),
    ensures
        exists|times: nat| s@ == #[trigger] repeated(prefix@, times) + rest@,
        !prefix@.is_prefix_of(rest@),
{
    lemma_taken_off(s@, prefix@);
    lemma_without_prefixes(s@, prefix@);
    lemma_prefix(rest@, prefix@);
}

/// A text is its prefixes and what is left without them.
pub proof fn lemma_taken_off(s: Seq<char>, prefix: Seq<char>)
    requires
        prefix.len() > 0,
    ensures
        exists|times: nat| s == #[trigger] repeated(prefix, times) + without_prefixes(s, prefix),
    decreases s.len(),
{
    if opens_with(s, prefix) {
        let behind = s.skip(prefix.len() as int);
        lemma_taken_off(behind, prefix);
        let times = choose|times: nat|
            behind == #[trigger] repeated(prefix, times) + without_prefixes(behind, prefix);
        assert(s == prefix + behind);
        assert(repeated(prefix, times + 1) + without_prefixes(behind, prefix) == prefix + (repeated(
            prefix,
            times,
        ) + without_prefixes(behind, prefix)));
        assert(s == repeated(prefix, times + 1) + without_prefixes(s, prefix));
    } else {
        assert(s == repeated(prefix, 0) + without_prefixes(s, prefix));
    }
}

} // verus!

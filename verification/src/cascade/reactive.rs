//! Reactive diffs: trees of field updates, and the text that a path of field
//! numbers leads to in one.

use vstd::prelude::*;
use vstd::slice::slice_subrange;

verus! {

/// The updates of one message.
#[derive(Debug)]
pub struct MessageDiff {
    pub field_diffs: Vec<FieldDiff>,
}

/// The update of one field.
#[derive(Debug)]
pub struct FieldDiff {
    pub field_number: u32,
    pub diff: Option<Diff>,
}

/// How a field is updated.
#[derive(Debug)]
pub enum Diff {
    UpdateSingular(SingularValue),
    UpdateRepeated(RepeatedDiff),
    /// Any other kind of update.
    Other,
}

/// The update of a repeated field.
#[derive(Debug)]
pub struct RepeatedDiff {
    pub update_values: Vec<SingularValue>,
}

/// One value.
#[derive(Debug)]
pub struct SingularValue {
    pub value: Option<Value>,
}

/// What a value holds.
#[derive(Debug)]
pub enum Value {
    StringValue(String),
    MessageValue(MessageDiff),
    /// A value of any other type.
    Other,
}

/// The text to which `path` leads in `diff`.
pub open spec fn text_at(diff: MessageDiff, path: Seq<u32>) -> Option<Seq<char>>
    decreases path.len(), 2int, 0int,
{
    if path.len() == 0 {
        None
    } else {
        first_answer(diff.field_diffs@, path)
    }
}

/// What the first of `fields` that has an answer says.
pub open spec fn first_answer(fields: Seq<FieldDiff>, path: Seq<u32>) -> Option<Seq<char>>
    decreases path.len(), 1int, fields.len(),
{
    if fields.len() == 0 {
        None
    } else {
        match answer(fields.first(), path) {
            Some(found) => found,
            None => first_answer(fields.drop_first(), path),
        }
    }
}

/// What one field says to `path`, `None` where the search goes on behind it. A
/// message at the field answers for good, with or without a text; a repeated
/// field answers only with a text.
pub open spec fn answer(field: FieldDiff, path: Seq<u32>) -> Option<Option<Seq<char>>>
    decreases path.len(), 0int, 0int,
{
    if path.len() == 0 || field.field_number != path[0] {
        None
    } else {
        match field.diff {
            Some(Diff::UpdateSingular(SingularValue { value: Some(Value::StringValue(s)) })) => {
                if path.len() == 1 {
                    Some(Some(s@))
                } else {
                    None
                }
            },
            Some(Diff::UpdateSingular(SingularValue { value: Some(Value::MessageValue(m)) })) => {
                if path.len() > 1 {
                    Some(text_at(m, path.drop_first()))
                } else {
                    None
                }
            },
            Some(Diff::UpdateRepeated(r)) => {
                if path[0] == 1 && path.len() > 1 {
                    match last_text(r.update_values@, path.drop_first()) {
                        Some(text) => Some(Some(text)),
                        None => None,
                    }
                } else {
                    None
                }
            },
            _ => None,
        }
    }
}

/// The text of the last of `values` that is a message in which `path` leads to
/// one.
pub open spec fn last_text(values: Seq<SingularValue>, path: Seq<u32>) -> Option<Seq<char>>
    decreases path.len(), 3int, values.len(),
{
    if values.len() == 0 {
        None
    } else {
        match values.last().value {
            Some(Value::MessageValue(m)) if text_at(m, path) is Some => text_at(m, path),
            _ => last_text(values.drop_last(), path),
        }
    }
}

/// The text that `found` holds.
pub open spec fn found_text(found: Option<String>) -> Option<Seq<char>> {
    match found {
        Some(s) => Some(s@),
        None => None,
    }
}

/// The text to which `path` leads in `diff`. In a repeated field, which is
/// appended to at its end, the last value that has a text is taken.
pub fn extract_text_from_diff(diff: &MessageDiff, path: &[u32]) -> (found: Option<String>)
    ensures
        found_text(found) == text_at(*diff, path@),
    decreases path@.len(),
{
    if path.len() == 0 {
        return None;
    }
    let target_field: u32 = path[0];
    let rest = slice_subrange(path, 1, path.len());
    let fields = &diff.field_diffs;
    let mut i: usize = 0;
    assert(fields@.skip(0) == fields@);
    while i < fields.len()
        invariant
            i <= fields@.len(),
            fields@ == diff.field_diffs@,
            path@.len() > 0,
            target_field == path@[0],
            rest@ == path@.drop_first(),
            first_answer(fields@, path@) == first_answer(fields@.skip(i as int), path@),
        decreases fields@.len() - i,
    {
        let field = &fields[i];
        assert(fields@.skip(i as int).drop_first() == fields@.skip(i + 1));
        if field.field_number == target_field {
            match &field.diff {
                Some(Diff::UpdateSingular(value)) => match &value.value {
                    Some(Value::StringValue(s)) => {
                        if path.len() == 1 {
                            return Some(s.clone());
                        }
                    },
                    Some(Value::MessageValue(inner)) => {
                        if path.len() > 1 {
                            return extract_text_from_diff(inner, rest);
                        }
                    },
                    _ => {},
                },
                Some(Diff::UpdateRepeated(repeated)) => {
                    if target_field == 1 && path.len() > 1 {
                        let values = &repeated.update_values;
                        let mut j: usize = values.len();
                        assert(values@.take(j as int) == values@);
                        while j > 0
                            invariant
                                j <= values@.len(),
                                rest@ == path@.drop_first(),
                                path@.len() > 0,
                                last_text(values@, rest@) == last_text(
                                    values@.take(j as int),
                                    rest@,
                                ),
                                answer(*field, path@) == (match last_text(values@, rest@) {
                                    Some(text) => Some(Some(text)),
                                    None => None,
                                }),
                                first_answer(fields@, path@) == (match answer(*field, path@) {
                                    Some(text) => text,
                                    None => first_answer(fields@.skip(i + 1), path@),
                                }),
                                fields@ == diff.field_diffs@,
                            decreases j,
                        {
                            j = j - 1;
                            assert(values@.take(j + 1).drop_last() == values@.take(j as int));
                            if let Some(Value::MessageValue(inner)) = &values[j].value {
                                let text = extract_text_from_diff(inner, rest);
                                if text.is_some() {
                                    return text;
                                }
                            }
                        }
                    }
                },
                _ => {},
            }
        }
        i = i + 1;
    }
    None
}

/// `value` is a message in which `path` leads to a text.
pub open spec fn has_text(value: SingularValue, path: Seq<u32>) -> bool {
    value.value matches Some(Value::MessageValue(m)) && text_at(m, path) is Some
}

/// A field that the path does not name changes nothing, wherever it stands.
pub proof fn law_other_fields_do_not_matter(
    before: Seq<FieldDiff>,
    field: FieldDiff,
    behind: Seq<FieldDiff>,
    path: Seq<u32>,
)
    requires
        path.len() > 0,
        field.field_number != path[0],
    ensures
        first_answer(before + seq![field] + behind, path) == first_answer(before + behind, path),
    decreases before.len(),
{
    let with = before + seq![field] + behind;
    let without = before + behind;
    if before.len() == 0 {
        assert(answer(field, path) is None);
        assert(with.drop_first() == behind);
    } else {
        assert(with.drop_first() == before.drop_first() + seq![field] + behind);
        assert(without.drop_first() == before.drop_first() + behind);
        law_other_fields_do_not_matter(before.drop_first(), field, behind, path);
    }
}

/// Where the first field is a message at the first number of a path, the rest
/// of the path is followed in that message, and no field behind it is asked.
pub proof fn law_path_descends_into_message(
    diff: MessageDiff,
    number: u32,
    inner: MessageDiff,
    path: Seq<u32>,
)
    requires
        path.len() > 0,
        diff.field_diffs@.len() > 0,
        diff.field_diffs@[0].field_number == number,
        diff.field_diffs@[0].diff == Some(
            Diff::UpdateSingular(SingularValue { value: Some(Value::MessageValue(inner)) }),
        ),
    ensures
        text_at(diff, seq![number] + path) == text_at(inner, path),
{
    let whole = seq![number] + path;
    assert(whole.drop_first() == path);
}

/// Of the values of a repeated field, the last one that has a text gives it,
/// whatever stands before it.
pub proof fn law_last_value_with_text_wins(
    before: Seq<SingularValue>,
    value: SingularValue,
    behind: Seq<SingularValue>,
    path: Seq<u32>,
)
    requires
        has_text(value, path),
        forall|i: int| 0 <= i < behind.len() ==> !has_text(#[trigger] behind[i], path),
    ensures
        last_text(before + seq![value] + behind, path) == text_at(
            value.value->0->MessageValue_0,
            path,
        ),
    decreases behind.len(),
{
    let values = before + seq![value] + behind;
    if behind.len() > 0 {
        assert(values.drop_last() == before + seq![value] + behind.drop_last());
        law_last_value_with_text_wins(before, value, behind.drop_last(), path);
    }
}

/// The field holds neither a string at the end of `path`, nor anything to follow
/// `path` into: its number is another one, it is updated in another way, it is a
/// string before the end or a message at the end, or it is a list at the end or
/// at another number than that of the steps.
pub open spec fn leads_nowhere(field: FieldDiff, path: Seq<u32>) -> bool {
    ||| field.field_number != path[0]
    ||| field.diff is None
    ||| field.diff == Some(Diff::Other)
    ||| (field.diff matches Some(Diff::UpdateSingular(v)) && {
        ||| v.value is None
        ||| v.value == Some(Value::Other)
        ||| v.value matches Some(Value::StringValue(_)) && path.len() > 1
        ||| v.value matches Some(Value::MessageValue(_)) && path.len() == 1
    })
    ||| field.diff matches Some(Diff::UpdateRepeated(_)) && (field.field_number != 1 || path.len()
        == 1)
}

/// What is extracted is the text to which the path leads, where it leads to one,
/// in every diff and along every path.
pub proof fn law_extracted_text(diff: &MessageDiff, path: &[u32], found: Option<String>)
    requires
        call_ensures(extract_text_from_diff, (diff, path), found),
    ensures
        call_requires(extract_text_from_diff, (diff, path)),
        found is Some <==> text_at(*diff, path@) is Some,
        found matches Some(s) ==> text_at(*diff, path@) == Some(s@),
{
}

/// An empty path leads nowhere, and so does any path where there are no fields.
pub proof fn law_nothing_leads_nowhere(diff: MessageDiff, path: Seq<u32>)
    ensures
        path.len() == 0 ==> text_at(diff, path) is None,
        diff.field_diffs@.len() == 0 ==> text_at(diff, path) is None,
{
}

/// A string at the end of the path is the text that it leads to, whatever stands
/// behind that field.
pub proof fn law_string_ends_the_path(diff: MessageDiff, number: u32, s: String)
    requires
        diff.field_diffs@.len() > 0,
        diff.field_diffs@[0].field_number == number,
        diff.field_diffs@[0].diff == Some(
            Diff::UpdateSingular(SingularValue { value: Some(Value::StringValue(s)) }),
        ),
    ensures
        text_at(diff, seq![number]) == Some(s@),
{
}

/// A field that leads nowhere is passed over: the path leads where it leads in
/// the fields behind.
pub proof fn law_search_goes_on(diff: MessageDiff, behind: MessageDiff, path: Seq<u32>)
    requires
        path.len() > 0,
        diff.field_diffs@.len() > 0,
        behind.field_diffs@ == diff.field_diffs@.drop_first(),
        leads_nowhere(diff.field_diffs@[0], path),
    ensures
        text_at(diff, path) == text_at(behind, path),
{
    assert(answer(diff.field_diffs@[0], path) is None);
}

/// The message of value `i` has a text at `path`.
pub open spec fn tells(values: Seq<SingularValue>, i: int, path: Seq<u32>) -> bool {
    values[i].value matches Some(Value::MessageValue(m)) && text_at(m, path) is Some
}

/// In a list of steps of any length, the last one in which the rest of the path
/// leads to a text gives it.
pub proof fn law_last_step_with_text_answers(
    diff: MessageDiff,
    list: RepeatedDiff,
    i: int,
    inner: MessageDiff,
    path: Seq<u32>,
)
    requires
        path.len() > 0,
        diff.field_diffs@.len() > 0,
        diff.field_diffs@[0].field_number == 1,
        diff.field_diffs@[0].diff == Some(Diff::UpdateRepeated(list)),
        0 <= i < list.update_values@.len(),
        list.update_values@[i].value == Some(Value::MessageValue(inner)),
        text_at(inner, path) is Some,
        forall|j: int|
            i < j < list.update_values@.len() ==> !#[trigger] tells(list.update_values@, j, path),
    ensures
        text_at(diff, seq![1u32] + path) == text_at(inner, path),
{
    let values = list.update_values@;
    let before = values.take(i);
    let behind = values.skip(i + 1);
    assert(values == before + seq![values[i]] + behind);
    assert forall|k: int| 0 <= k < behind.len() implies !has_text(#[trigger] behind[k], path) by {
        assert(!tells(values, i + 1 + k, path));
    }
    law_last_value_with_text_wins(before, values[i], behind, path);
    assert((seq![1u32] + path).drop_first() == path);
}

/// A list of steps none of which has a text there is passed over.
pub proof fn law_steps_without_text_are_passed_over(
    diff: MessageDiff,
    behind: MessageDiff,
    list: RepeatedDiff,
    path: Seq<u32>,
)
    requires
        path.len() > 0,
        diff.field_diffs@.len() > 0,
        behind.field_diffs@ == diff.field_diffs@.drop_first(),
        diff.field_diffs@[0].diff == Some(Diff::UpdateRepeated(list)),
        forall|j: int|
            0 <= j < list.update_values@.len() ==> !#[trigger] tells(list.update_values@, j, path),
    ensures
        text_at(diff, seq![1u32] + path) == text_at(behind, seq![1u32] + path),
{
    let whole = seq![1u32] + path;
    assert(whole.drop_first() == path);
    lemma_no_text(list.update_values@, path);
    assert(answer(diff.field_diffs@[0], whole) is None);
}

/// Where no value has a text, none is found.
proof fn lemma_no_text(values: Seq<SingularValue>, path: Seq<u32>)
    requires
        forall|j: int| 0 <= j < values.len() ==> !#[trigger] tells(values, j, path),
    ensures
        last_text(values, path) is None,
    decreases values.len(),
{
    if values.len() > 0 {
        assert(!tells(values, values.len() - 1, path));
        let earlier = values.drop_last();
        assert forall|j: int| 0 <= j < earlier.len() implies !#[trigger] tells(earlier, j, path) by {
            assert(!tells(values, j, path));
        }
        lemma_no_text(earlier, path);
    }
}

} // verus!

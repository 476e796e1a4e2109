use transcoder_core::cascade::reactive::{
    extract_text_from_diff, Diff, FieldDiff, MessageDiff, RepeatedDiff, SingularValue, Value,
};

fn message(fields: Vec<FieldDiff>) -> MessageDiff {
    MessageDiff { field_diffs: fields }
}

fn string(number: u32, s: &str) -> FieldDiff {
    FieldDiff {
        field_number: number,
        diff: Some(Diff::UpdateSingular(SingularValue {
            value: Some(Value::StringValue(s.to_string())),
        })),
    }
}

fn nested(number: u32, inner: MessageDiff) -> FieldDiff {
    FieldDiff {
        field_number: number,
        diff: Some(Diff::UpdateSingular(SingularValue {
            value: Some(Value::MessageValue(inner)),
        })),
    }
}

fn repeated(number: u32, values: Vec<Option<Value>>) -> FieldDiff {
    let mut update_values = Vec::new();
    for value in values {
        update_values.push(SingularValue { value });
    }
    FieldDiff {
        field_number: number,
        diff: Some(Diff::UpdateRepeated(RepeatedDiff { update_values })),
    }
}

fn step(s: &str) -> Option<Value> {
    Some(Value::MessageValue(message(vec![nested(
        20,
        message(vec![string(1, s)]),
    )])))
}

fn at(diff: &MessageDiff, path: &[u32]) -> Option<String> {
    extract_text_from_diff(diff, path)
}

#[test]
fn planner_response_of_the_last_step() {
    let diff = message(vec![repeated(1, vec![step("one"), step("two")])]);
    assert_eq!(at(&diff, &[1, 20, 1]), Some("two".to_string()));
}

#[test]
fn last_value_with_text_wins() {
    let diff = message(vec![repeated(
        1,
        vec![
            step("one"),
            step("two"),
            Some(Value::MessageValue(message(vec![]))),
            Some(Value::StringValue("loose".to_string())),
            Some(Value::Other),
            None,
        ],
    )]);
    assert_eq!(at(&diff, &[1, 20, 1]), Some("two".to_string()));
}

#[test]
fn empty_path_and_unknown_fields_lead_nowhere() {
    let diff = message(vec![string(1, "x")]);
    assert_eq!(at(&diff, &[]), None);
    assert_eq!(at(&diff, &[2]), None);
    assert_eq!(at(&message(vec![]), &[1]), None);
    assert_eq!(at(&diff, &[1]), Some("x".to_string()));
}

#[test]
fn other_fields_do_not_matter() {
    let diff = message(vec![string(7, "no"), string(3, "yes"), string(3, "late")]);
    assert_eq!(at(&diff, &[3]), Some("yes".to_string()));
}

#[test]
fn a_message_answers_for_good() {
    let diff = message(vec![
        nested(5, message(vec![string(8, "elsewhere")])),
        nested(5, message(vec![string(9, "here")])),
    ]);
    assert_eq!(at(&diff, &[5, 9]), None);
    assert_eq!(at(&diff, &[5, 8]), Some("elsewhere".to_string()));
}

#[test]
fn a_repeated_field_without_text_is_passed_over() {
    let diff = message(vec![
        repeated(1, vec![Some(Value::MessageValue(message(vec![])))]),
        nested(1, message(vec![string(2, "found")])),
    ]);
    assert_eq!(at(&diff, &[1, 2]), Some("found".to_string()));
}

#[test]
fn only_field_one_is_searched_as_a_list() {
    let diff = message(vec![repeated(
        2,
        vec![Some(Value::MessageValue(message(vec![string(3, "x")])))],
    )]);
    assert_eq!(at(&diff, &[2, 3]), None);
    let diff = message(vec![repeated(1, vec![Some(Value::StringValue("x".to_string()))])]);
    assert_eq!(at(&diff, &[1]), None);
}

#[test]
fn kinds_that_do_not_fit_the_path_are_passed_over() {
    let diff = message(vec![
        string(4, "too early"),
        FieldDiff { field_number: 4, diff: None },
        FieldDiff { field_number: 4, diff: Some(Diff::Other) },
        nested(4, message(vec![string(6, "deep")])),
    ]);
    assert_eq!(at(&diff, &[4, 6]), Some("deep".to_string()));
    let diff = message(vec![nested(4, message(vec![])), string(4, "flat")]);
    assert_eq!(at(&diff, &[4]), Some("flat".to_string()));
}

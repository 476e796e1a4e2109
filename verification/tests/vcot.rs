use transcoder_core::mappers::delta::CascadeDelta;
use transcoder_core::mappers::vcot::{next_run, VCoTState};

fn text(s: &str) -> CascadeDelta {
    CascadeDelta::Text(s.to_string())
}

fn thinking(s: &str) -> CascadeDelta {
    CascadeDelta::Thinking(s.to_string())
}

fn strip(state: VCoTState, s: &str) -> (VCoTState, Vec<CascadeDelta>) {
    let mut state = state;
    let mut out = vec![];
    let mut rest = s;
    while let (Some(piece), left) = next_run(&mut state, rest) {
        out.push(piece);
        rest = left;
    }
    (state, out)
}

#[test]
fn state_is_that_of_the_run_until_the_next_call() {
    let mut state = VCoTState::Outside;
    assert_eq!(
        next_run(&mut state, "a<thought>b</thought>"),
        (Some(text("a")), "<thought>b</thought>")
    );
    assert_eq!(state, VCoTState::Outside);
    assert_eq!(next_run(&mut state, "<thought>b</thought>"), (Some(thinking("b")), "</thought>"));
    assert_eq!(state, VCoTState::Inside);
    assert_eq!(next_run(&mut state, "</thought>"), (None, ""));
    assert_eq!(state, VCoTState::Outside);
}

#[test]
fn thought_between_tags_is_reasoning() {
    let (state, out) = strip(VCoTState::Outside, "前言<thought>想一想</thought>答案");
    assert_eq!(state, VCoTState::Outside);
    assert_eq!(out, vec![text("前言"), thinking("想一想"), text("答案")]);
}

#[test]
fn untagged_text_passes_whole() {
    assert_eq!(
        strip(VCoTState::Outside, "a </thought> b"),
        (VCoTState::Outside, vec![text("a </thought> b")])
    );
    assert_eq!(
        strip(VCoTState::Inside, "a <thought> b"),
        (VCoTState::Inside, vec![thinking("a <thought> b")])
    );
}

#[test]
fn empty_runs_are_left_out() {
    assert_eq!(strip(VCoTState::Outside, ""), (VCoTState::Outside, vec![]));
    assert_eq!(strip(VCoTState::Outside, "<thought>"), (VCoTState::Inside, vec![]));
    assert_eq!(
        strip(VCoTState::Outside, "<thought></thought>"),
        (VCoTState::Outside, vec![])
    );
    assert_eq!(
        strip(VCoTState::Inside, "</thought>x"),
        (VCoTState::Outside, vec![text("x")])
    );
}

#[test]
fn several_thoughts_alternate() {
    let (state, out) = strip(
        VCoTState::Outside,
        "<thought>a</thought>b<thought>c</thought><thought>d",
    );
    assert_eq!(state, VCoTState::Inside);
    assert_eq!(out, vec![thinking("a"), text("b"), thinking("c"), thinking("d")]);
}

#[test]
fn stretches_cut_outside_tags_join() {
    let (state, mut out) = strip(VCoTState::Outside, "a<thought>b");
    assert_eq!(state, VCoTState::Inside);
    let (state, rest) = strip(state, "c</thought>d");
    assert_eq!(state, VCoTState::Outside);
    out.extend(rest);
    assert_eq!(out, vec![text("a"), thinking("b"), thinking("c"), text("d")]);
}

#[test]
fn tag_cut_by_a_seam_stays_in_the_text() {
    let (state, out) = strip(VCoTState::Outside, "a<thou");
    assert_eq!((state, out), (VCoTState::Outside, vec![text("a<thou")]));
    let (state, out) = strip(state, "ght>b");
    assert_eq!((state, out), (VCoTState::Outside, vec![text("ght>b")]));
}

#[test]
fn broken_tag_before_a_tag_is_text() {
    assert_eq!(
        strip(VCoTState::Outside, "<thought<thought>x"),
        (VCoTState::Inside, vec![text("<thought"), thinking("x")])
    );
}

use transcoder_core::cascade::poll::{CascadePoll, PollAction, PollReport};
use transcoder_core::cascade::trajectory::{
    CascadeRunStatus, CortexStepType, PlannerResponse, StepBody, Trajectory, TrajectoryResponse,
    TrajectoryStep,
};
use transcoder_core::grpc::Status;
use transcoder_core::mappers::delta::CascadeDelta;

fn text(s: &str) -> CascadeDelta {
    CascadeDelta::Text(s.to_string())
}

fn thinking(s: &str) -> CascadeDelta {
    CascadeDelta::Thinking(s.to_string())
}

fn planner(reasoning: &str, response: &str) -> TrajectoryStep {
    TrajectoryStep {
        kind: CortexStepType::PlannerResponse,
        step: Some(StepBody::PlannerResponse(PlannerResponse {
            response: response.to_string(),
            thinking: reasoning.to_string(),
        })),
    }
}

fn other() -> TrajectoryStep {
    TrajectoryStep { kind: CortexStepType::Other, step: Some(StepBody::Other) }
}

fn answer(steps: Vec<TrajectoryStep>) -> TrajectoryResponse {
    TrajectoryResponse {
        status: CascadeRunStatus::Other,
        trajectory: Some(Trajectory { steps }),
    }
}

fn receive(poll: &mut CascadePoll, response: &TrajectoryResponse) -> Vec<CascadeDelta> {
    assert!(poll.can_receive(response));
    poll.receive(response).0
}

fn status() -> Status {
    Status { code: 14, message: "down".to_string() }
}

#[test]
fn growing_step_is_streamed_bit_by_bit() {
    let mut poll = CascadePoll::new(false, 0);
    assert_eq!(
        receive(&mut poll, &answer(vec![planner("想", "")])),
        vec![thinking("想")]
    );
    assert_eq!(
        receive(&mut poll, &answer(vec![planner("想法", "答")])),
        vec![thinking("法"), text("答")]
    );
    assert_eq!(
        receive(&mut poll, &answer(vec![planner("想法", "答案")])),
        vec![text("案")]
    );
}

#[test]
fn same_snapshot_adds_nothing() {
    let mut poll = CascadePoll::new(false, 0);
    let response = answer(vec![planner("a", "b")]);
    assert_eq!(receive(&mut poll, &response).len(), 2);
    let (out, report) = poll.receive(&response);
    assert_eq!(out.len(), 0);
    assert_eq!(report, PollReport::Snapshot { made_progress: false, idle: false });
}

#[test]
fn each_step_has_its_own_cursor() {
    let mut poll = CascadePoll::new(false, 0);
    assert_eq!(
        receive(&mut poll, &answer(vec![other(), planner("first phase", "x")])),
        vec![thinking("first phase"), text("x")]
    );
    assert_eq!(
        receive(
            &mut poll,
            &answer(vec![other(), planner("first phase", "x"), other(), planner("new", "y")])
        ),
        vec![thinking("new"), text("y")]
    );
}

#[test]
fn reasoning_of_all_steps_comes_first() {
    let mut poll = CascadePoll::new(false, 0);
    assert_eq!(
        receive(&mut poll, &answer(vec![planner("t1", "a"), planner("t2", "b")])),
        vec![thinking("t1"), thinking("t2"), text("a"), text("b")]
    );
}

#[test]
fn shorter_text_is_streamed_anew() {
    let mut poll = CascadePoll::new(false, 0);
    receive(&mut poll, &answer(vec![planner("long reasoning", "long text")]));
    assert_eq!(
        receive(&mut poll, &answer(vec![planner("short", "text")])),
        vec![thinking("short"), text("text")]
    );
    assert_eq!(receive(&mut poll, &answer(vec![planner("", "")])).len(), 0);
    assert_eq!(
        receive(&mut poll, &answer(vec![planner("r", "")])),
        vec![thinking("r")]
    );
}

#[test]
fn rewrite_across_a_character_cannot_be_received() {
    let mut poll = CascadePoll::new(false, 0);
    receive(&mut poll, &answer(vec![planner("", "ab")]));
    assert!(!poll.can_receive(&answer(vec![planner("", "案a")])));
    assert!(poll.can_receive(&answer(vec![planner("", "abc")])));
    assert!(poll.can_receive(&answer(vec![planner("", "a")])));
    receive(&mut poll, &answer(vec![planner("ab", "ab")]));
    assert!(!poll.can_receive(&answer(vec![planner("案", "ab")])));
}

#[test]
fn steps_that_are_no_planner_response_are_passed_over() {
    let mut poll = CascadePoll::new(false, 0);
    let declared_otherwise = TrajectoryStep {
        kind: CortexStepType::Other,
        step: Some(StepBody::PlannerResponse(PlannerResponse {
            response: "x".to_string(),
            thinking: "y".to_string(),
        })),
    };
    let without_body = TrajectoryStep { kind: CortexStepType::PlannerResponse, step: None };
    let with_other_body = TrajectoryStep {
        kind: CortexStepType::PlannerResponse,
        step: Some(StepBody::Other),
    };
    let (out, report) =
        poll.receive(&answer(vec![declared_otherwise, without_body, with_other_body]));
    assert_eq!(out.len(), 0);
    assert_eq!(report, PollReport::Snapshot { made_progress: false, idle: false });
}

#[test]
fn held_text_is_released_at_the_end() {
    let mut poll = CascadePoll::new(true, 0);
    assert_eq!(
        receive(&mut poll, &answer(vec![planner("t", "a")])),
        vec![thinking("t")]
    );
    assert_eq!(
        receive(&mut poll, &answer(vec![planner("tu", "ab")])),
        vec![thinking("u")]
    );
    assert_eq!(
        poll.settle(PollReport::Empty, 300_000_000_001),
        PollAction::Finish(vec![text("a"), text("b")])
    );
}

#[test]
fn answer_without_conversation_adds_nothing() {
    let mut poll = CascadePoll::new(false, 0);
    let response = TrajectoryResponse { status: CascadeRunStatus::Idle, trajectory: None };
    assert!(poll.can_receive(&response));
    let (out, report) = poll.receive(&response);
    assert_eq!(out.len(), 0);
    assert_eq!(report, PollReport::Empty);
    for _ in 0..20 {
        assert_eq!(poll.settle(PollReport::Empty, 1), PollAction::Wait(500));
    }
}

#[test]
fn eleventh_idle_answer_ends_the_polling() {
    let idle = PollReport::Snapshot { made_progress: false, idle: true };
    let mut poll = CascadePoll::new(false, 0);
    for _ in 0..10 {
        assert_eq!(poll.settle(idle, 1), PollAction::Wait(500));
    }
    assert_eq!(poll.settle(idle, 1), PollAction::Finish(vec![]));
}

#[test]
fn progress_and_work_start_the_idle_count_anew() {
    let idle = PollReport::Snapshot { made_progress: false, idle: true };
    let mut poll = CascadePoll::new(false, 0);
    for _ in 0..10 {
        poll.settle(idle, 1);
    }
    let news = PollReport::Snapshot { made_progress: true, idle: true };
    assert_eq!(poll.settle(news, 1), PollAction::Wait(500));
    for _ in 0..9 {
        assert_eq!(poll.settle(idle, 1), PollAction::Wait(500));
    }
    let busy = PollReport::Snapshot { made_progress: false, idle: false };
    assert_eq!(poll.settle(busy, 1), PollAction::Wait(500));
    for _ in 0..10 {
        assert_eq!(poll.settle(idle, 1), PollAction::Wait(500));
    }
    assert_eq!(poll.settle(idle, 1), PollAction::Finish(vec![]));
}

#[test]
fn five_minutes_without_news_end_the_polling() {
    let busy = PollReport::Snapshot { made_progress: false, idle: false };
    let news = PollReport::Snapshot { made_progress: true, idle: false };
    let mut poll = CascadePoll::new(false, 0);
    assert_eq!(poll.settle(busy, 300_000_000_000), PollAction::Wait(500));
    assert_eq!(poll.settle(news, 900_000_000_000), PollAction::Wait(500));
    assert_eq!(poll.settle(busy, 1_200_000_000_000), PollAction::Wait(500));
    assert_eq!(poll.settle(busy, 1_200_000_000_001), PollAction::Finish(vec![]));
}

#[test]
fn a_clock_that_goes_back_ends_nothing() {
    let mut poll = CascadePoll::new(false, 1_000_000_000_000);
    assert_eq!(poll.settle(PollReport::Empty, 0), PollAction::Wait(500));
}

#[test]
fn failures_are_retried_ever_later_and_then_passed_on() {
    let mut poll = CascadePoll::new(false, 0);
    for wait in vec![1500u64, 2500, 4500, 8500, 16500] {
        assert_eq!(poll.fail(status()), PollAction::Wait(wait));
    }
    assert_eq!(poll.fail(status()), PollAction::Fail(status()));
}

#[test]
fn an_answer_starts_the_failure_count_anew() {
    let mut poll = CascadePoll::new(false, 0);
    for _ in 0..5 {
        poll.fail(status());
    }
    receive(&mut poll, &TrajectoryResponse { status: CascadeRunStatus::Other, trajectory: None });
    assert_eq!(poll.fail(status()), PollAction::Wait(1500));
}

#[test]
fn the_stream_carries_the_conversation() {
    let snapshots = vec![
        vec![planner("思", "")],
        vec![planner("思考", "甲")],
        vec![planner("思考", "甲乙"), other(), planner("再想", "")],
        vec![planner("思考", "甲乙"), other(), planner("再想想", "丙丁")],
    ];
    let mut responses = Vec::new();
    for steps in snapshots {
        responses.push(answer(steps));
    }
    for force in vec![false, true] {
        let mut poll = CascadePoll::new(force, 0);
        let mut stream = Vec::new();
        for response in &responses {
            poll.fail(status());
            stream.extend(receive(&mut poll, response));
        }
        if let PollAction::Finish(held) = poll.settle(PollReport::Empty, u64::MAX) {
            stream.extend(held);
        } else {
            panic!("the polling goes on");
        }
        let mut said = String::new();
        let mut thought = String::new();
        let mut text_has_come = false;
        for delta in stream {
            match delta {
                CascadeDelta::Text(s) => {
                    text_has_come = true;
                    said.push_str(&s);
                }
                CascadeDelta::Thinking(s) => {
                    assert!(!(force && text_has_come));
                    thought.push_str(&s);
                }
            }
        }
        assert_eq!(said, "甲乙丙丁");
        assert_eq!(thought, "思考再想想");
    }
}

#[test]
fn earlier_step_goes_on_while_a_later_one_speaks() {
    let mut poll = CascadePoll::new(false, 0);
    receive(&mut poll, &answer(vec![planner("", "一"), planner("", "甲")]));
    assert_eq!(
        receive(&mut poll, &answer(vec![planner("", "一二"), planner("", "甲")])),
        vec![text("二")]
    );
    assert_eq!(receive(&mut poll, &answer(vec![other()])).len(), 0);
    assert_eq!(
        receive(&mut poll, &answer(vec![planner("", "一二三"), planner("", "甲乙")])),
        vec![text("三"), text("乙")]
    );
}

#[test]
fn holding_text_back_changes_no_item() {
    let responses = vec![
        answer(vec![planner("t", "一二三")]),
        answer(vec![planner("tu", "短")]),
        answer(vec![other(), planner("新", "甲")]),
        answer(vec![planner("tuv", "短长"), planner("新", "甲乙")]),
    ];
    let mut runs = Vec::new();
    for force in vec![false, true] {
        let mut poll = CascadePoll::new(force, 0);
        let mut stream = Vec::new();
        for response in &responses {
            stream.extend(receive(&mut poll, response));
        }
        if let PollAction::Finish(held) = poll.settle(PollReport::Empty, u64::MAX) {
            stream.extend(held);
        } else {
            panic!("the polling goes on");
        }
        let mut said = Vec::new();
        let mut thought = Vec::new();
        for delta in stream {
            match delta {
                CascadeDelta::Text(s) => said.push(s),
                CascadeDelta::Thinking(s) => thought.push(s),
            }
        }
        runs.push((said, thought));
    }
    assert_eq!(runs[0].0, vec!["一二三", "短", "甲", "长", "乙"]);
    assert_eq!(runs[0].1, vec!["t", "u", "新", "v"]);
    assert_eq!(runs[0], runs[1]);
}

//! A nested executor, driven by hand.
use qlib_core::order::Timestamp;
use qlib_core::report_indicator::{IndicatorConfig, IndicatorWeightMethod, OrderIndicatorAggregationConfig};
use qlib_core::resumable_nested_executor::{
    NestedCall, NestedDecisionTracking, NestedDelegate, NestedExecutorResume, NestedProgress, NestedReply, NestedStep,
    NestedTypes, ResumableNestedConfig, ResumableNestedEvent, ResumableNestedExecutor, ResumableNestedExecutorError,
};

struct Plain;

impl NestedTypes for Plain {
    type Decision = u32;
    type Outcome = u32;
    type Prompt = &'static str;
    type Control = &'static str;
    type Execution = u32;
    type Indicator = u32;
    type Volume = u32;
    type Failure = String;
}

fn time(seconds: i64) -> Timestamp {
    Timestamp { seconds, nanos: 0 }
}

fn config(settle_type: &str, outer: bool, inner: bool) -> ResumableNestedConfig<()> {
    ResumableNestedConfig {
        skip_empty_decision: true,
        align_range_limit: true,
        decision_tracking: NestedDecisionTracking { outer, inner },
        settle_type: settle_type.to_owned(),
        indicator_config: IndicatorConfig {
            fulfill_rate: IndicatorWeightMethod::Mean,
            price_advantage: IndicatorWeightMethod::Mean,
        },
        aggregation_config: OrderIndicatorAggregationConfig { base_price: () },
        level: 0,
    }
}

type Executor = ResumableNestedExecutor<(), Plain>;
type Step = Result<NestedStep<Plain>, ResumableNestedExecutorError<String>>;

/// Answers calls for one inner step out of two; the other lies outside the range.
fn drive(executor: &mut Executor, mut step: Step, seen: &mut Vec<String>, turns: &mut usize) -> Step {
    loop {
        let reply = match step {
            Ok(NestedStep::Call(call)) => match call {
                NestedCall::StepTime | NestedCall::BarTime => NestedReply::Interval(time(0), time(10)),
                NestedCall::InnerStepTime => NestedReply::Interval(time(5), time(6)),
                NestedCall::InnerFinished => NestedReply::Flag(*turns == 2),
                NestedCall::UpdateOuter => NestedReply::Flag(false),
                NestedCall::OuterIsEmpty => NestedReply::Flag(false),
                NestedCall::RangeLimit => NestedReply::Range(Some((1, 1))),
                NestedCall::TradeStep => NestedReply::Count(*turns as i64),
                NestedCall::StepInner => {
                    seen.push("skip".to_owned());
                    *turns += 1;
                    NestedReply::Done
                }
                NestedCall::BeginDecision => NestedReply::Decision(NestedProgress::Suspended("volume?")),
                NestedCall::ResumeDecision(volume) => {
                    seen.push(format!("volume {volume:?}"));
                    NestedReply::Decision(NestedProgress::Ready(1))
                }
                NestedCall::ModifyDecision(decision) => NestedReply::Modified(decision + 10),
                NestedCall::FrameworkControlled => NestedReply::Flag(true),
                NestedCall::BeginCollect(decision, level) => {
                    seen.push(format!("collect {decision} at {level}"));
                    NestedReply::Collected(NestedProgress::Suspended("inner"))
                }
                NestedCall::ResumeCollect(_) => NestedReply::Collected(NestedProgress::Ready((12, 7))),
                NestedCall::PostExecute(outcome) => NestedReply::Outcome(outcome),
                NestedCall::SnapshotResult(outcome) => {
                    *turns += 1;
                    NestedReply::Executions(outcome, vec![100, 200])
                }
                NestedCall::OrderIndicatorHandle => NestedReply::Handle(9),
                NestedCall::UpdateBarEnd(start, end) => {
                    seen.push(format!("bar {} to {}", start.seconds, end.seconds));
                    NestedReply::Done
                }
                NestedCall::SettleStart => {
                    seen.push("settle".to_owned());
                    NestedReply::Done
                }
                NestedCall::SettleCommit => {
                    seen.push("commit".to_owned());
                    NestedReply::Done
                }
                NestedCall::StoreResult => {
                    seen.push("store".to_owned());
                    NestedReply::Done
                }
                _ => NestedReply::Done,
            },
            other => return other,
        };
        assert!(executor.expects(&reply));
        step = executor.answer(reply);
    }
}

#[test]
fn runs_collect_what_their_inner_level_did() {
    let mut executor: Executor = ResumableNestedExecutor::new(config("cash", true, true), true);
    let mut seen = Vec::new();
    let mut turns = 0;
    let mut go = |executor: &mut Executor, input: NestedExecutorResume<u32>, seen: &mut Vec<String>| {
        let step = executor.resume(input);
        drive(executor, step, seen, &mut turns)
    };
    let step = go(&mut executor, NestedExecutorResume::Continue, &mut seen);
    assert!(matches!(step, Ok(NestedStep::Event(ResumableNestedEvent::OuterDecision))));
    let step = go(&mut executor, NestedExecutorResume::Continue, &mut seen);
    assert!(matches!(step, Ok(NestedStep::Event(ResumableNestedEvent::StrategyPrompt("volume?")))));
    let step = go(&mut executor, NestedExecutorResume::Action(Some(3)), &mut seen);
    assert!(matches!(step, Ok(NestedStep::Event(ResumableNestedEvent::TrackedDecision))));
    assert_eq!(executor.current_decision(), Some(&11));
    let step = go(&mut executor, NestedExecutorResume::Continue, &mut seen);
    assert!(matches!(step, Ok(NestedStep::Event(ResumableNestedEvent::Inner("inner")))));
    match go(&mut executor, NestedExecutorResume::Continue, &mut seen) {
        Ok(NestedStep::Event(ResumableNestedEvent::Complete(collection))) => {
            assert_eq!(collection.executions, vec![100, 200]);
            assert_eq!(collection.inner_order_indicators, vec![9]);
            assert_eq!(collection.decisions, vec![(12, (time(5), time(6)))]);
        }
        _ => panic!("the run is complete"),
    }
    assert_eq!(
        seen,
        vec!["settle", "skip", "volume Some(3)", "collect 11 at 1", "bar 0 to 10", "commit", "store"]
    );
    assert_eq!(executor.resume(NestedExecutorResume::Continue).err(), Some(ResumableNestedExecutorError::AlreadyComplete));
}

#[test]
fn first_inputs_are_not_actions() {
    let mut executor: Executor = ResumableNestedExecutor::new(config("None", false, false), false);
    assert_eq!(
        executor.resume(NestedExecutorResume::Action(Some(1))).err(),
        Some(ResumableNestedExecutorError::InvalidInitialAction)
    );
    assert!(matches!(executor.resume(NestedExecutorResume::Continue), Ok(NestedStep::Call(NestedCall::StepTime))));
    assert!(executor.is_waiting());
    assert_eq!(executor.fail("late".to_owned()), ResumableNestedExecutorError::Collection("late".to_owned()));
    assert_eq!(executor.resume(NestedExecutorResume::Continue).err(), Some(ResumableNestedExecutorError::Failed));
}

#[test]
fn failures_name_their_collaborator() {
    let mut executor: Executor = ResumableNestedExecutor::new(config("cash", false, false), false);
    assert!(matches!(executor.resume(NestedExecutorResume::Continue), Ok(NestedStep::Call(NestedCall::SettleStart))));
    assert_eq!(executor.fail("bank".to_owned()), ResumableNestedExecutorError::Account("bank".to_owned()));
    let mut closing: Executor = ResumableNestedExecutor::new(config("None", true, false), false);
    let _ = closing.resume(NestedExecutorResume::Continue);
    assert_eq!(closing.close(), NestedDelegate::Nobody);
    assert_eq!(closing.resume(NestedExecutorResume::Continue).err(), Some(ResumableNestedExecutorError::Closed));
    let mut waiting: Executor = ResumableNestedExecutor::new(config("None", false, false), false);
    let step = waiting.resume(NestedExecutorResume::Continue);
    let mut turns = 1;
    let _ = drive(&mut waiting, step, &mut Vec::new(), &mut turns);
    assert_eq!(waiting.close(), NestedDelegate::Strategy);
    assert_eq!(config("None", true, true).at_level(4).level, 4);
}

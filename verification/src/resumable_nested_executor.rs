//! Suspend/resume orchestration of one nested execution level.
//!
//! The executor is a stackless machine. It never calls a collaborator itself: every step answers
//! with the one call to make next, and the driver hands back what that call returned. Which calls
//! are made, in which order, and what is kept between them is fixed by [`resumed`] and
//! [`answered`].
use vstd::prelude::*;

use crate::order::Timestamp;
use crate::report_indicator::{IndicatorConfig, OrderIndicatorAggregationConfig};
use crate::text::same_text;

verus! {

/// Selects which decision yields are exposed to the caller.
#[derive(Clone, Copy, Debug, PartialEq, Eq, Structural)]
pub struct NestedDecisionTracking {
    /// Yield the outer decision once, before anything is reset.
    pub outer: bool,
    /// Yield every inner decision before it is executed.
    pub inner: bool,
}

impl Default for NestedDecisionTracking {
    fn default() -> (result: Self)
        ensures
            result == (NestedDecisionTracking { outer: false, inner: false }),
    {
        NestedDecisionTracking { outer: false, inner: false }
    }
}

/// Immutable behaviour and lifecycle settings for one resumable nested executor.
pub struct ResumableNestedConfig<B> {
    pub skip_empty_decision: bool,
    pub align_range_limit: bool,
    pub decision_tracking: NestedDecisionTracking,
    pub settle_type: String,
    pub indicator_config: IndicatorConfig,
    pub aggregation_config: OrderIndicatorAggregationConfig<B>,
    pub level: usize,
}

impl<B> ResumableNestedConfig<B> {
    /// Whether the account is settled around the run.
    pub open spec fn settles(&self) -> bool {
        self.settle_type@ != "None"@
    }

    fn settling(&self) -> (result: bool)
        ensures
            result == self.settles(),
    {
        !same_text(self.settle_type.as_str(), "None")
    }
}

impl<B: Copy> ResumableNestedConfig<B> {
    /// The same settings at another nesting level.
    pub fn at_level(&self, level: usize) -> (result: ResumableNestedConfig<B>)
        ensures
            result.level == level,
            result.skip_empty_decision == self.skip_empty_decision,
            result.align_range_limit == self.align_range_limit,
            result.decision_tracking == self.decision_tracking,
            result.settle_type@ == self.settle_type@,
            result.indicator_config == self.indicator_config,
            result.aggregation_config == self.aggregation_config,
    {
        ResumableNestedConfig {
            skip_empty_decision: self.skip_empty_decision,
            align_range_limit: self.align_range_limit,
            decision_tracking: self.decision_tracking,
            settle_type: self.settle_type.clone(),
            indicator_config: self.indicator_config,
            aggregation_config: OrderIndicatorAggregationConfig { base_price: self.aggregation_config.base_price },
            level,
        }
    }
}

/// The parts of a run: what binds it to its level, the inner executor, the strategy, the outer
/// decision, the account, and where results go.
pub struct ResumableNestedRun<B, I, S, O, A, R> {
    pub level_binding: B,
    pub inner: I,
    pub strategy: S,
    pub outer: O,
    pub account: A,
    pub return_sink: Option<R>,
}

/// What a caller hands to a suspended executor: nothing, or an action with an optional volume.
pub enum NestedExecutorResume<A> {
    Continue,
    Action(Option<A>),
}

/// What a nested component gave back: it is done, or it waits for input.
pub enum NestedProgress<R, P> {
    Ready(R),
    Suspended(P),
}

/// The values that an executor handles without looking into them.
pub trait NestedTypes {
    /// An order decision.
    type Decision;

    /// The shared result of one executed decision.
    type Outcome;

    /// What a suspended strategy asks.
    type Prompt;

    /// An event of the inner executor.
    type Control;

    /// A single execution.
    type Execution;

    /// A handle on order indicators.
    type Indicator;

    /// The volume of an action.
    type Volume;

    /// A failure of a collaborator.
    type Failure;
}

/// One externally observable event.
pub enum ResumableNestedEvent<N: NestedTypes> {
    /// The outer decision, before anything is reset.
    OuterDecision,
    /// A decision, before it is executed; it is still the executor's current decision.
    TrackedDecision,
    /// A strategy waits for an action.
    StrategyPrompt(N::Prompt),
    /// The inner executor yielded an event of its own.
    Inner(N::Control),
    /// The run is complete.
    Complete(NestedCollection<N>),
}

/// What a complete run collected.
pub struct NestedCollection<N: NestedTypes> {
    pub executions: Vec<N::Execution>,
    pub inner_order_indicators: Vec<N::Indicator>,
    pub decisions: Vec<(N::Decision, (Timestamp, Timestamp))>,
}

/// The one call that the executor needs next.
pub enum NestedCall<N: NestedTypes> {
    /// Start the account's settlement.
    SettleStart,
    /// Read the interval of the current calendar step, to reset the inner executor with it.
    StepTime,
    ResetWindow(Timestamp, Timestamp),
    BindInner,
    ResetStrategy,
    /// Ask whether the inner executor has finished.
    InnerFinished,
    /// Let the outer decision update itself; it may be replaced.
    UpdateOuter,
    /// Let the strategy alter the replaced outer decision.
    AlterOuter,
    OuterIsEmpty,
    RangeLimit,
    TradeLen,
    TradeStep,
    /// Advance the inner calendar without a decision.
    StepInner,
    /// Ask the strategy for a decision, given the previous result.
    BeginDecision,
    ResumeDecision(Option<N::Volume>),
    /// Let the outer decision modify the inner one.
    ModifyDecision(N::Decision),
    InnerStepTime,
    /// Ask whether the inner executor leaves decision tracking to this level.
    FrameworkControlled,
    /// Execute a decision one level below.
    BeginCollect(N::Decision, usize),
    ResumeCollect(NestedExecutorResume<N::Volume>),
    /// Hand the result to the strategy.
    PostExecute(N::Outcome),
    /// Freeze the result into single executions.
    SnapshotResult(N::Outcome),
    OrderIndicatorHandle,
    PostUpperLevel,
    /// Read the interval of the current calendar step, to close the bar with it.
    BarTime,
    /// Close the bar with the collected indicators and decisions.
    UpdateBarEnd(Timestamp, Timestamp),
    StepCalendar,
    SettleCommit,
    /// Hand the executions to the return sink.
    StoreResult,
}

/// What a call returned.
pub enum NestedReply<N: NestedTypes> {
    /// The call has no result.
    Done,
    Flag(bool),
    Interval(Timestamp, Timestamp),
    Range(Option<(i64, i64)>),
    Count(i64),
    Decision(NestedProgress<N::Decision, N::Prompt>),
    Modified(N::Decision),
    Collected(NestedProgress<(N::Decision, N::Outcome), N::Control>),
    Outcome(N::Outcome),
    Executions(N::Outcome, Vec<N::Execution>),
    Handle(N::Indicator),
}

/// Which call the executor waits for.
#[derive(Clone, Copy, Debug, PartialEq, Eq, Structural)]
pub enum NestedWait {
    Nothing,
    SettleStart,
    StepTime,
    ResetWindow,
    BindInner,
    ResetStrategy,
    InnerFinished,
    UpdateOuter,
    AlterOuter,
    OuterIsEmpty,
    RangeLimit,
    TradeLen,
    TradeStep,
    StepInner,
    Decision,
    ModifyDecision,
    InnerStepTime,
    FrameworkControlled,
    Collect,
    PostExecute,
    SnapshotResult,
    OrderIndicatorHandle,
    PostUpperLevel,
    BarTime,
    UpdateBarEnd,
    StepCalendar,
    SettleCommit,
    StoreResult,
}

/// How far an executor has come.
#[derive(Clone, Copy, Debug, PartialEq, Eq, Structural)]
pub enum NestedPhase {
    Start,
    AfterOuterTrack,
    Loop,
    AwaitStrategy,
    AfterInnerTrack,
    AwaitInner,
    Complete,
    Failed,
    Closed,
}

/// Failures of a resumable nested lifecycle.
#[derive(Debug, PartialEq, Eq)]
pub enum ResumableNestedExecutorError<E> {
    /// A new executor must be advanced without an action.
    InvalidInitialAction,
    AlreadyComplete,
    /// The executor stopped after an earlier failure.
    Failed,
    Closed,
    Collection(E),
    Account(E),
    Calendar(E),
    ReturnSink(E),
}

/// What a step of the executor leads to.
pub enum NestedStep<N: NestedTypes> {
    Call(NestedCall<N>),
    Event(ResumableNestedEvent<N>),
}

/// The suspended collaborator that a closed executor has to cancel.
#[derive(Clone, Copy, Debug, PartialEq, Eq, Structural)]
pub enum NestedDelegate {
    Nobody,
    Strategy,
    Inner,
}

/// The state of a nested executor.
#[verifier::ext_equal]
pub struct NestedState<N: NestedTypes> {
    pub phase: NestedPhase,
    pub wait: NestedWait,
    /// The index range that the outer decision allows in the current turn.
    pub range: Option<(i64, i64)>,
    pub executions: Seq<N::Execution>,
    pub inner_order_indicators: Seq<N::Indicator>,
    pub decisions: Seq<(N::Decision, (Timestamp, Timestamp))>,
    /// The result of the last executed decision.
    pub previous: Option<N::Outcome>,
    pub current_decision: Option<N::Decision>,
    pub current_interval: Option<(Timestamp, Timestamp)>,
    /// The decision that the inner executor has just finished.
    pub collected_decision: Option<N::Decision>,
    /// The result that is being accounted for.
    pub pending_result: Option<N::Outcome>,
}

/// The outcome of a step: the next call, an event, a complete run, or a failure.
pub enum NestedOutcome<N: NestedTypes> {
    Call(NestedCall<N>),
    Event(ResumableNestedEvent<N>),
    Completed(Seq<N::Execution>, Seq<N::Indicator>, Seq<(N::Decision, (Timestamp, Timestamp))>),
    Error(ResumableNestedExecutorError<N::Failure>),
}

/// What a step returned, with collections by their contents.
pub open spec fn outcome_of<N: NestedTypes>(
    result: Result<NestedStep<N>, ResumableNestedExecutorError<N::Failure>>,
) -> NestedOutcome<N> {
    match result {
        Ok(NestedStep::Call(call)) => NestedOutcome::Call(call),
        Ok(NestedStep::Event(ResumableNestedEvent::Complete(collection))) => NestedOutcome::Completed(
            collection.executions@,
            collection.inner_order_indicators@,
            collection.decisions@,
        ),
        Ok(NestedStep::Event(event)) => NestedOutcome::Event(event),
        Err(error) => NestedOutcome::Error(error),
    }
}

impl<N: NestedTypes> NestedState<N> {
    /// Waits for a call.
    pub open spec fn call(self, wait: NestedWait, call: NestedCall<N>) -> (NestedState<N>, NestedOutcome<N>) {
        (NestedState { wait, ..self }, NestedOutcome::Call(call))
    }

    /// Yields an event in a phase.
    pub open spec fn yielded(self, phase: NestedPhase, event: ResumableNestedEvent<N>) -> (
        NestedState<N>,
        NestedOutcome<N>,
    ) {
        (NestedState { phase, wait: NestedWait::Nothing, ..self }, NestedOutcome::Event(event))
    }

    /// Stops for good.
    pub open spec fn failed(self, error: ResumableNestedExecutorError<N::Failure>) -> (NestedState<N>, NestedOutcome<N>) {
        (NestedState { phase: NestedPhase::Failed, wait: NestedWait::Nothing, ..self }, NestedOutcome::Error(error))
    }

    /// Settles, where the account settles, and then resets the inner level.
    pub open spec fn initialized<B>(self, config: ResumableNestedConfig<B>) -> (NestedState<N>, NestedOutcome<N>) {
        if config.settles() {
            self.call(NestedWait::SettleStart, NestedCall::SettleStart)
        } else {
            self.call(NestedWait::StepTime, NestedCall::StepTime)
        }
    }

    /// Begins the next turn of the inner loop.
    pub open spec fn turned(self) -> (NestedState<N>, NestedOutcome<N>) {
        (NestedState { phase: NestedPhase::Loop, ..self }).call(NestedWait::InnerFinished, NestedCall::InnerFinished)
    }

    /// Ends the inner loop.
    pub open spec fn finished(self) -> (NestedState<N>, NestedOutcome<N>) {
        self.call(NestedWait::PostUpperLevel, NestedCall::PostUpperLevel)
    }

    /// Goes on with an up-to-date outer decision.
    pub open spec fn updated<B>(self, config: ResumableNestedConfig<B>) -> (NestedState<N>, NestedOutcome<N>) {
        if config.skip_empty_decision {
            self.call(NestedWait::OuterIsEmpty, NestedCall::OuterIsEmpty)
        } else {
            self.call(NestedWait::RangeLimit, NestedCall::RangeLimit)
        }
    }

    /// Executes the current decision one level below.
    pub open spec fn started<B>(self, config: ResumableNestedConfig<B>) -> (NestedState<N>, NestedOutcome<N>) {
        (NestedState { current_decision: None, ..self }).call(
            NestedWait::Collect,
            NestedCall::BeginCollect(self.current_decision->Some_0, (config.level + 1) as usize),
        )
    }

    /// Ends the run.
    pub open spec fn completed(self) -> (NestedState<N>, NestedOutcome<N>) {
        (
            NestedState {
                phase: NestedPhase::Complete,
                wait: NestedWait::Nothing,
                executions: Seq::empty(),
                inner_order_indicators: Seq::empty(),
                decisions: Seq::empty(),
                ..self
            },
            NestedOutcome::Completed(self.executions, self.inner_order_indicators, self.decisions),
        )
    }

    /// Hands the result to the sink, where there is one, and then ends the run.
    pub open spec fn committed(self, has_return_sink: bool) -> (NestedState<N>, NestedOutcome<N>) {
        if has_return_sink {
            self.call(NestedWait::StoreResult, NestedCall::StoreResult)
        } else {
            self.completed()
        }
    }

    /// What every phase and every awaited call has at hand.
    pub open spec fn valid(self) -> bool {
        &&& self.phase == NestedPhase::Loop ==> self.wait != NestedWait::Nothing
        &&& self.phase == NestedPhase::AfterInnerTrack ==> self.wait == NestedWait::Nothing || self.wait
            == NestedWait::Collect || self.wait == NestedWait::PostExecute || self.wait == NestedWait::SnapshotResult
            || self.wait == NestedWait::OrderIndicatorHandle
        &&& self.phase == NestedPhase::AfterInnerTrack && self.wait == NestedWait::Nothing
            ==> self.current_decision is Some && self.current_interval is Some
        &&& self.phase == NestedPhase::AwaitInner ==> self.current_interval is Some
        &&& self.phase == NestedPhase::Complete || self.phase == NestedPhase::Failed || self.phase
            == NestedPhase::Closed || self.phase == NestedPhase::Start ==> self.wait == NestedWait::Nothing
        &&& self.wait == NestedWait::TradeStep ==> self.range is Some
        &&& self.wait == NestedWait::InnerStepTime ==> self.current_decision is Some
        &&& self.wait == NestedWait::FrameworkControlled ==> self.current_decision is Some && self.current_interval is Some
        &&& self.wait == NestedWait::Collect ==> self.current_interval is Some
        &&& self.wait == NestedWait::PostExecute || self.wait == NestedWait::SnapshotResult || self.wait
            == NestedWait::OrderIndicatorHandle ==> self.current_interval is Some && self.collected_decision is Some
        &&& self.wait == NestedWait::OrderIndicatorHandle ==> self.pending_result is Some
    }
}

/// Whether a reply belongs to an awaited call.
pub open spec fn fits<N: NestedTypes>(wait: NestedWait, reply: NestedReply<N>) -> bool {
    match wait {
        NestedWait::Nothing => false,
        NestedWait::InnerFinished | NestedWait::UpdateOuter | NestedWait::OuterIsEmpty
        | NestedWait::FrameworkControlled => reply is Flag,
        NestedWait::StepTime | NestedWait::InnerStepTime | NestedWait::BarTime => reply is Interval,
        NestedWait::RangeLimit => reply is Range,
        NestedWait::TradeLen => reply matches NestedReply::Count(length) && length > i64::MIN,
        NestedWait::TradeStep => reply is Count,
        NestedWait::Decision => reply is Decision,
        NestedWait::ModifyDecision => reply is Modified,
        NestedWait::Collect => reply is Collected,
        NestedWait::PostExecute => reply is Outcome,
        NestedWait::SnapshotResult => reply is Executions,
        NestedWait::OrderIndicatorHandle => reply is Handle,
        _ => reply is Done,
    }
}

/// The failure of an awaited call.
pub open spec fn failure_of<E>(wait: NestedWait, error: E) -> ResumableNestedExecutorError<E> {
    match wait {
        NestedWait::SettleStart | NestedWait::UpdateBarEnd | NestedWait::SettleCommit => {
            ResumableNestedExecutorError::Account(error)
        },
        NestedWait::BarTime | NestedWait::StepCalendar => ResumableNestedExecutorError::Calendar(error),
        NestedWait::StoreResult => ResumableNestedExecutorError::ReturnSink(error),
        _ => ResumableNestedExecutorError::Collection(error),
    }
}

/// What resuming leads to.
pub open spec fn resumed<B, N: NestedTypes>(
    config: ResumableNestedConfig<B>,
    state: NestedState<N>,
    input: NestedExecutorResume<N::Volume>,
) -> (NestedState<N>, NestedOutcome<N>) {
    match state.phase {
        NestedPhase::Start => if input is Continue {
            if config.decision_tracking.outer {
                state.yielded(NestedPhase::AfterOuterTrack, ResumableNestedEvent::OuterDecision)
            } else {
                (NestedState { phase: NestedPhase::AfterOuterTrack, ..state }).initialized(config)
            }
        } else {
            (state, NestedOutcome::Error(ResumableNestedExecutorError::InvalidInitialAction))
        },
        NestedPhase::AfterOuterTrack => state.initialized(config),
        NestedPhase::Loop => (state, arbitrary()),
        NestedPhase::AwaitStrategy => state.call(
            NestedWait::Decision,
            NestedCall::ResumeDecision(
                match input {
                    NestedExecutorResume::Continue => None,
                    NestedExecutorResume::Action(volume) => volume,
                },
            ),
        ),
        NestedPhase::AfterInnerTrack => state.started(config),
        NestedPhase::AwaitInner => state.call(NestedWait::Collect, NestedCall::ResumeCollect(input)),
        NestedPhase::Complete => (state, NestedOutcome::Error(ResumableNestedExecutorError::AlreadyComplete)),
        NestedPhase::Failed => (state, NestedOutcome::Error(ResumableNestedExecutorError::Failed)),
        NestedPhase::Closed => (state, NestedOutcome::Error(ResumableNestedExecutorError::Closed)),
    }
}

/// What the reply to the awaited call leads to.
pub open spec fn answered<B, N: NestedTypes>(
    config: ResumableNestedConfig<B>,
    has_return_sink: bool,
    state: NestedState<N>,
    reply: NestedReply<N>,
) -> (NestedState<N>, NestedOutcome<N>) {
    match (state.wait, reply) {
        (NestedWait::SettleStart, _) => state.call(NestedWait::StepTime, NestedCall::StepTime),
        (NestedWait::StepTime, NestedReply::Interval(start, end)) => state.call(
            NestedWait::ResetWindow,
            NestedCall::ResetWindow(start, end),
        ),
        (NestedWait::ResetWindow, _) => state.call(NestedWait::BindInner, NestedCall::BindInner),
        (NestedWait::BindInner, _) => state.call(NestedWait::ResetStrategy, NestedCall::ResetStrategy),
        (NestedWait::ResetStrategy, _) => state.turned(),
        (NestedWait::InnerFinished, NestedReply::Flag(done)) => if done {
            state.finished()
        } else {
            state.call(NestedWait::UpdateOuter, NestedCall::UpdateOuter)
        },
        (NestedWait::UpdateOuter, NestedReply::Flag(replaced)) => if replaced {
            state.call(NestedWait::AlterOuter, NestedCall::AlterOuter)
        } else {
            state.updated(config)
        },
        (NestedWait::AlterOuter, _) => state.updated(config),
        (NestedWait::OuterIsEmpty, NestedReply::Flag(empty)) => if empty {
            state.finished()
        } else {
            state.call(NestedWait::RangeLimit, NestedCall::RangeLimit)
        },
        (NestedWait::RangeLimit, NestedReply::Range(range)) => match range {
            Some(_) => (NestedState { range, ..state }).call(NestedWait::TradeStep, NestedCall::TradeStep),
            None => state.call(NestedWait::TradeLen, NestedCall::TradeLen),
        },
        (NestedWait::TradeLen, NestedReply::Count(length)) => (NestedState {
            range: Some((0, (length - 1) as i64)),
            ..state
        }).call(NestedWait::TradeStep, NestedCall::TradeStep),
        (NestedWait::TradeStep, NestedReply::Count(step)) => {
            let (start, end) = state.range->Some_0;
            if config.align_range_limit && !(start <= step <= end) {
                state.call(NestedWait::StepInner, NestedCall::StepInner)
            } else {
                state.call(NestedWait::Decision, NestedCall::BeginDecision)
            }
        },
        (NestedWait::StepInner, _) => state.turned(),
        (NestedWait::Decision, NestedReply::Decision(progress)) => match progress {
            NestedProgress::Ready(decision) => state.call(
                NestedWait::ModifyDecision,
                NestedCall::ModifyDecision(decision),
            ),
            NestedProgress::Suspended(prompt) => state.yielded(
                NestedPhase::AwaitStrategy,
                ResumableNestedEvent::StrategyPrompt(prompt),
            ),
        },
        (NestedWait::ModifyDecision, NestedReply::Modified(decision)) => (NestedState {
            current_decision: Some(decision),
            ..state
        }).call(NestedWait::InnerStepTime, NestedCall::InnerStepTime),
        (NestedWait::InnerStepTime, NestedReply::Interval(start, end)) => {
            let timed = NestedState { current_interval: Some((start, end)), ..state };
            if config.decision_tracking.inner {
                timed.call(NestedWait::FrameworkControlled, NestedCall::FrameworkControlled)
            } else {
                timed.started(config)
            }
        },
        (NestedWait::FrameworkControlled, NestedReply::Flag(framework)) => if framework {
            state.yielded(NestedPhase::AfterInnerTrack, ResumableNestedEvent::TrackedDecision)
        } else {
            state.started(config)
        },
        (NestedWait::Collect, NestedReply::Collected(progress)) => match progress {
            NestedProgress::Suspended(event) => state.yielded(
                NestedPhase::AwaitInner,
                ResumableNestedEvent::Inner(event),
            ),
            NestedProgress::Ready(done) => (NestedState { collected_decision: Some(done.0), ..state }).call(
                NestedWait::PostExecute,
                NestedCall::PostExecute(done.1),
            ),
        },
        (NestedWait::PostExecute, NestedReply::Outcome(outcome)) => state.call(
            NestedWait::SnapshotResult,
            NestedCall::SnapshotResult(outcome),
        ),
        (NestedWait::SnapshotResult, NestedReply::Executions(outcome, executions)) => (NestedState {
            executions: state.executions + executions@,
            pending_result: Some(outcome),
            ..state
        }).call(NestedWait::OrderIndicatorHandle, NestedCall::OrderIndicatorHandle),
        (NestedWait::OrderIndicatorHandle, NestedReply::Handle(handle)) => (NestedState {
            inner_order_indicators: state.inner_order_indicators.push(handle),
            decisions: state.decisions.push((state.collected_decision->Some_0, state.current_interval->Some_0)),
            previous: state.pending_result,
            current_interval: None,
            collected_decision: None,
            pending_result: None,
            ..state
        }).turned(),
        (NestedWait::PostUpperLevel, _) => state.call(NestedWait::BarTime, NestedCall::BarTime),
        (NestedWait::BarTime, NestedReply::Interval(start, end)) => state.call(
            NestedWait::UpdateBarEnd,
            NestedCall::UpdateBarEnd(start, end),
        ),
        (NestedWait::UpdateBarEnd, _) => state.call(NestedWait::StepCalendar, NestedCall::StepCalendar),
        (NestedWait::StepCalendar, _) => if config.settles() {
            state.call(NestedWait::SettleCommit, NestedCall::SettleCommit)
        } else {
            state.committed(has_return_sink)
        },
        (NestedWait::SettleCommit, _) => state.committed(has_return_sink),
        (NestedWait::StoreResult, _) => state.completed(),
        _ => (state, arbitrary()),
    }
}

/// The collaborator that waits in a phase.
pub open spec fn delegate_of(phase: NestedPhase) -> NestedDelegate {
    match phase {
        NestedPhase::AwaitStrategy => NestedDelegate::Strategy,
        NestedPhase::AwaitInner => NestedDelegate::Inner,
        _ => NestedDelegate::Nobody,
    }
}

/// The state after closing: nothing is kept, and an ended run stays as it ended.
pub open spec fn closed_state<N: NestedTypes>(state: NestedState<N>) -> NestedState<N> {
    NestedState {
        phase: if state.phase == NestedPhase::Complete || state.phase == NestedPhase::Failed {
            state.phase
        } else {
            NestedPhase::Closed
        },
        wait: NestedWait::Nothing,
        range: None,
        executions: Seq::empty(),
        inner_order_indicators: Seq::empty(),
        decisions: Seq::empty(),
        previous: None,
        current_decision: None,
        current_interval: None,
        collected_decision: None,
        pending_result: None,
    }
}

/// A completed, failed or closed executor answers every input with the matching error and does
/// not change.
pub proof fn ended_runs_stay_ended<B, N: NestedTypes>(
    config: ResumableNestedConfig<B>,
    state: NestedState<N>,
    input: NestedExecutorResume<N::Volume>,
)
    requires
        state.phase == NestedPhase::Complete || state.phase == NestedPhase::Failed || state.phase
            == NestedPhase::Closed,
    ensures
        resumed(config, state, input).0 == state,
        resumed(config, state, input).1 == NestedOutcome::<N>::Error(
            match state.phase {
                NestedPhase::Complete => ResumableNestedExecutorError::AlreadyComplete,
                NestedPhase::Failed => ResumableNestedExecutorError::Failed,
                _ => ResumableNestedExecutorError::Closed,
            },
        ),
{
}

/// An action handed to a new executor is refused, and the executor is still new.
pub proof fn initial_action_is_refused<B, N: NestedTypes>(
    config: ResumableNestedConfig<B>,
    state: NestedState<N>,
    volume: Option<N::Volume>,
)
    requires
        state.phase == NestedPhase::Start,
    ensures
        resumed(config, state, NestedExecutorResume::Action(volume)) == (
            state,
            NestedOutcome::<N>::Error(ResumableNestedExecutorError::InvalidInitialAction),
        ),
{
}

/// What a caller hands in at a tracked decision makes no difference.
pub proof fn input_at_tracked_decisions_is_ignored<B, N: NestedTypes>(
    config: ResumableNestedConfig<B>,
    state: NestedState<N>,
    input: NestedExecutorResume<N::Volume>,
    other: NestedExecutorResume<N::Volume>,
)
    requires
        state.phase == NestedPhase::AfterOuterTrack || state.phase == NestedPhase::AfterInnerTrack,
    ensures
        resumed(config, state, input) == resumed(config, state, other),
{
}

/// Closing twice is the same as closing once, and the second time nobody is cancelled.
pub proof fn second_close_is_inert<N: NestedTypes>(state: NestedState<N>)
    ensures
        closed_state(closed_state(state)) == closed_state(state),
        delegate_of(closed_state(state).phase) == NestedDelegate::Nobody,
{
}

/// The account is settled only where the settings ask for it.
pub proof fn settlement_only_where_configured<B, N: NestedTypes>(
    config: ResumableNestedConfig<B>,
    has_return_sink: bool,
    state: NestedState<N>,
    input: NestedExecutorResume<N::Volume>,
    reply: NestedReply<N>,
)
    requires
        !config.settles(),
        state.valid(),
        fits(state.wait, reply) || state.wait == NestedWait::Nothing,
    ensures
        state.wait != NestedWait::Nothing ==> !(answered(config, has_return_sink, state, reply).1 matches NestedOutcome::Call(
            call,
        ) && (call is SettleStart || call is SettleCommit)),
        state.wait == NestedWait::Nothing ==> !(resumed(config, state, input).1 matches NestedOutcome::Call(call) && (
        call is SettleStart || call is SettleCommit)),
{
}

/// What a run has collected is never lost before it completes: every reply keeps the collected
/// executions and decisions as a prefix, or completes the run with them.
pub proof fn collected_results_are_kept<B, N: NestedTypes>(
    config: ResumableNestedConfig<B>,
    has_return_sink: bool,
    state: NestedState<N>,
    reply: NestedReply<N>,
)
    requires
        state.valid(),
        fits(state.wait, reply),
    ensures
        ({
            let (next, outcome) = answered(config, has_return_sink, state, reply);
            ||| state.executions.is_prefix_of(next.executions) && state.decisions.is_prefix_of(next.decisions)
            ||| outcome == NestedOutcome::<N>::Completed(
                state.executions,
                state.inner_order_indicators,
                state.decisions,
            )
        }),
{
    let (next, outcome) = answered(config, has_return_sink, state, reply);
    if !(outcome is Completed) {
        assert(state.executions =~= next.executions.subrange(0, state.executions.len() as int));
        assert(state.decisions =~= next.decisions.subrange(0, state.decisions.len() as int));
    }
}

/// With aligned ranges, a step outside the allowed range never asks the strategy for a decision:
/// the inner calendar advances and the loop turns.
pub proof fn steps_outside_the_range_are_skipped<B, N: NestedTypes>(
    config: ResumableNestedConfig<B>,
    has_return_sink: bool,
    state: NestedState<N>,
    start: i64,
    end: i64,
    step: i64,
)
    requires
        config.align_range_limit,
        state.wait == NestedWait::TradeStep,
        state.range == Some((start, end)),
        !(start <= step <= end),
    ensures
        ({
            let (skipping, outcome) = answered(config, has_return_sink, state, NestedReply::Count(step));
            &&& outcome == NestedOutcome::<N>::Call(NestedCall::StepInner)
            &&& answered(config, has_return_sink, skipping, NestedReply::Done) == skipping.turned()
        }),
{
}

/// A stackless nested executor.
pub struct ResumableNestedExecutor<B, N: NestedTypes> {
    config: ResumableNestedConfig<B>,
    has_return_sink: bool,
    phase: NestedPhase,
    wait: NestedWait,
    range: Option<(i64, i64)>,
    executions: Vec<N::Execution>,
    inner_order_indicators: Vec<N::Indicator>,
    decisions: Vec<(N::Decision, (Timestamp, Timestamp))>,
    previous: Option<N::Outcome>,
    current_decision: Option<N::Decision>,
    current_interval: Option<(Timestamp, Timestamp)>,
    collected_decision: Option<N::Decision>,
    pending_result: Option<N::Outcome>,
}

impl<B, N: NestedTypes> View for ResumableNestedExecutor<B, N> {
    type V = NestedState<N>;

    closed spec fn view(&self) -> NestedState<N> {
        NestedState {
            phase: self.phase,
            wait: self.wait,
            range: self.range,
            executions: self.executions@,
            inner_order_indicators: self.inner_order_indicators@,
            decisions: self.decisions@,
            previous: self.previous,
            current_decision: self.current_decision,
            current_interval: self.current_interval,
            collected_decision: self.collected_decision,
            pending_result: self.pending_result,
        }
    }
}

impl<B, N: NestedTypes> ResumableNestedExecutor<B, N> {
    /// The settings of the executor.
    pub closed spec fn settings(&self) -> ResumableNestedConfig<B> {
        self.config
    }

    /// Whether executions are handed to a sink at the end.
    pub closed spec fn sinks(&self) -> bool {
        self.has_return_sink
    }

    /// Whether the executor is in a state that a run can reach.
    pub open spec fn wf(&self) -> bool {
        self@.valid() && self.settings().level < usize::MAX
    }

    /// A new executor.
    pub fn new(config: ResumableNestedConfig<B>, has_return_sink: bool) -> (result: Self)
        requires
            config.level < usize::MAX,
        ensures
            result.wf(),
            result.settings() == config,
            result.sinks() == has_return_sink,
            result@ == (NestedState::<N> {
                phase: NestedPhase::Start,
                wait: NestedWait::Nothing,
                range: None,
                executions: Seq::empty(),
                inner_order_indicators: Seq::empty(),
                decisions: Seq::empty(),
                previous: None,
                current_decision: None,
                current_interval: None,
                collected_decision: None,
                pending_result: None,
            }),
    {
        ResumableNestedExecutor {
            config,
            has_return_sink,
            phase: NestedPhase::Start,
            wait: NestedWait::Nothing,
            range: None,
            executions: Vec::new(),
            inner_order_indicators: Vec::new(),
            decisions: Vec::new(),
            previous: None,
            current_decision: None,
            current_interval: None,
            collected_decision: None,
            pending_result: None,
        }
    }

    fn call(&mut self, wait: NestedWait, call: NestedCall<N>) -> (result: Result<
        NestedStep<N>,
        ResumableNestedExecutorError<N::Failure>,
    >)
        ensures
            final(self).settings() == old(self).settings(),
            final(self).sinks() == old(self).sinks(),
            (final(self)@, outcome_of(result)) == old(self)@.call(wait, call),
    {
        self.wait = wait;
        Ok(NestedStep::Call(call))
    }

    fn yielded(&mut self, phase: NestedPhase, event: ResumableNestedEvent<N>) -> (result: Result<
        NestedStep<N>,
        ResumableNestedExecutorError<N::Failure>,
    >)
        requires
            !(event is Complete),
        ensures
            final(self).settings() == old(self).settings(),
            final(self).sinks() == old(self).sinks(),
            (final(self)@, outcome_of(result)) == old(self)@.yielded(phase, event),
    {
        self.phase = phase;
        self.wait = NestedWait::Nothing;
        Ok(NestedStep::Event(event))
    }

    fn initialize(&mut self) -> (result: Result<NestedStep<N>, ResumableNestedExecutorError<N::Failure>>)
        ensures
            final(self).settings() == old(self).settings(),
            final(self).sinks() == old(self).sinks(),
            (final(self)@, outcome_of(result)) == old(self)@.initialized(old(self).settings()),
    {
        if self.config.settling() {
            self.call(NestedWait::SettleStart, NestedCall::SettleStart)
        } else {
            self.call(NestedWait::StepTime, NestedCall::StepTime)
        }
    }

    fn turn(&mut self) -> (result: Result<NestedStep<N>, ResumableNestedExecutorError<N::Failure>>)
        ensures
            final(self).settings() == old(self).settings(),
            final(self).sinks() == old(self).sinks(),
            (final(self)@, outcome_of(result)) == old(self)@.turned(),
    {
        self.phase = NestedPhase::Loop;
        self.call(NestedWait::InnerFinished, NestedCall::InnerFinished)
    }

    fn update(&mut self) -> (result: Result<NestedStep<N>, ResumableNestedExecutorError<N::Failure>>)
        ensures
            final(self).settings() == old(self).settings(),
            final(self).sinks() == old(self).sinks(),
            (final(self)@, outcome_of(result)) == old(self)@.updated(old(self).settings()),
    {
        if self.config.skip_empty_decision {
            self.call(NestedWait::OuterIsEmpty, NestedCall::OuterIsEmpty)
        } else {
            self.call(NestedWait::RangeLimit, NestedCall::RangeLimit)
        }
    }

    fn start_current(&mut self) -> (result: Result<NestedStep<N>, ResumableNestedExecutorError<N::Failure>>)
        requires
            old(self)@.current_decision is Some,
            old(self).settings().level < usize::MAX,
        ensures
            final(self).settings() == old(self).settings(),
            final(self).sinks() == old(self).sinks(),
            (final(self)@, outcome_of(result)) == old(self)@.started(old(self).settings()),
    {
        let decision = self.current_decision.take().unwrap();
        let level: usize = self.config.level + 1;
        self.call(NestedWait::Collect, NestedCall::BeginCollect(decision, level))
    }

    fn complete(&mut self) -> (result: Result<NestedStep<N>, ResumableNestedExecutorError<N::Failure>>)
        ensures
            final(self).settings() == old(self).settings(),
            final(self).sinks() == old(self).sinks(),
            (final(self)@, outcome_of(result)) == old(self)@.completed(),
    {
        let mut executions: Vec<N::Execution> = Vec::new();
        let mut inner_order_indicators: Vec<N::Indicator> = Vec::new();
        let mut decisions: Vec<(N::Decision, (Timestamp, Timestamp))> = Vec::new();
        core::mem::swap(&mut self.executions, &mut executions);
        core::mem::swap(&mut self.inner_order_indicators, &mut inner_order_indicators);
        core::mem::swap(&mut self.decisions, &mut decisions);
        self.phase = NestedPhase::Complete;
        self.wait = NestedWait::Nothing;
        Ok(
            NestedStep::Event(
                ResumableNestedEvent::Complete(
                    NestedCollection { executions, inner_order_indicators, decisions },
                ),
            ),
        )
    }

    fn commit(&mut self) -> (result: Result<NestedStep<N>, ResumableNestedExecutorError<N::Failure>>)
        ensures
            final(self).settings() == old(self).settings(),
            final(self).sinks() == old(self).sinks(),
            (final(self)@, outcome_of(result)) == old(self)@.committed(old(self).sinks()),
    {
        if self.has_return_sink {
            self.call(NestedWait::StoreResult, NestedCall::StoreResult)
        } else {
            self.complete()
        }
    }

    /// Advances from a yield to the next call or event.
    ///
    /// The first call must carry no action. An action that arrives at a tracked decision is
    /// ignored; one that arrives at a strategy prompt goes to the strategy, and one that arrives
    /// at an inner event goes to the inner executor.
    pub fn resume(&mut self, input: NestedExecutorResume<N::Volume>) -> (result: Result<
        NestedStep<N>,
        ResumableNestedExecutorError<N::Failure>,
    >)
        requires
            old(self).wf(),
            old(self)@.wait == NestedWait::Nothing,
        ensures
            final(self).wf(),
            final(self).settings() == old(self).settings(),
            final(self).sinks() == old(self).sinks(),
            (final(self)@, outcome_of(result)) == resumed(old(self).settings(), old(self)@, input),
    {
        match self.phase {
            NestedPhase::Start => match input {
                NestedExecutorResume::Continue => if self.config.decision_tracking.outer {
                    self.yielded(NestedPhase::AfterOuterTrack, ResumableNestedEvent::OuterDecision)
                } else {
                    self.phase = NestedPhase::AfterOuterTrack;
                    self.initialize()
                },
                NestedExecutorResume::Action(_) => Err(ResumableNestedExecutorError::InvalidInitialAction),
            },
            NestedPhase::AfterOuterTrack => self.initialize(),
            NestedPhase::Loop => self.turn(),
            NestedPhase::AwaitStrategy => {
                let volume = match input {
                    NestedExecutorResume::Continue => None,
                    NestedExecutorResume::Action(volume) => volume,
                };
                self.call(NestedWait::Decision, NestedCall::ResumeDecision(volume))
            },
            NestedPhase::AfterInnerTrack => self.start_current(),
            NestedPhase::AwaitInner => self.call(NestedWait::Collect, NestedCall::ResumeCollect(input)),
            NestedPhase::Complete => Err(ResumableNestedExecutorError::AlreadyComplete),
            NestedPhase::Failed => Err(ResumableNestedExecutorError::Failed),
            NestedPhase::Closed => Err(ResumableNestedExecutorError::Closed),
        }
    }

    /// Takes the failure of the awaited call; the executor stops for good.
    pub fn fail(&mut self, error: N::Failure) -> (result: ResumableNestedExecutorError<N::Failure>)
        requires
            old(self).wf(),
            old(self)@.wait != NestedWait::Nothing,
        ensures
            final(self).wf(),
            final(self).settings() == old(self).settings(),
            final(self).sinks() == old(self).sinks(),
            result == failure_of(old(self)@.wait, error),
            (final(self)@, NestedOutcome::<N>::Error(result)) == old(self)@.failed(result),
    {
        let wait = self.wait;
        self.phase = NestedPhase::Failed;
        self.wait = NestedWait::Nothing;
        match wait {
            NestedWait::SettleStart | NestedWait::UpdateBarEnd | NestedWait::SettleCommit => {
                ResumableNestedExecutorError::Account(error)
            },
            NestedWait::BarTime | NestedWait::StepCalendar => ResumableNestedExecutorError::Calendar(error),
            NestedWait::StoreResult => ResumableNestedExecutorError::ReturnSink(error),
            _ => ResumableNestedExecutorError::Collection(error),
        }
    }

    /// Takes the reply to the awaited call.
    #[verifier::rlimit(60)]
    pub fn answer(&mut self, reply: NestedReply<N>) -> (result: Result<
        NestedStep<N>,
        ResumableNestedExecutorError<N::Failure>,
    >)
        requires
            old(self).wf(),
            fits(old(self)@.wait, reply),
        ensures
            final(self).wf(),
            final(self).settings() == old(self).settings(),
            final(self).sinks() == old(self).sinks(),
            (final(self)@, outcome_of(result)) == answered(old(self).settings(), old(self).sinks(), old(self)@, reply),
    {
        match (self.wait, reply) {
            (NestedWait::SettleStart, _) => self.call(NestedWait::StepTime, NestedCall::StepTime),
            (NestedWait::StepTime, NestedReply::Interval(start, end)) => self.call(
                NestedWait::ResetWindow,
                NestedCall::ResetWindow(start, end),
            ),
            (NestedWait::ResetWindow, _) => self.call(NestedWait::BindInner, NestedCall::BindInner),
            (NestedWait::BindInner, _) => self.call(NestedWait::ResetStrategy, NestedCall::ResetStrategy),
            (NestedWait::ResetStrategy, _) => self.turn(),
            (NestedWait::InnerFinished, NestedReply::Flag(done)) => if done {
                self.call(NestedWait::PostUpperLevel, NestedCall::PostUpperLevel)
            } else {
                self.call(NestedWait::UpdateOuter, NestedCall::UpdateOuter)
            },
            (NestedWait::UpdateOuter, NestedReply::Flag(replaced)) => if replaced {
                self.call(NestedWait::AlterOuter, NestedCall::AlterOuter)
            } else {
                self.update()
            },
            (NestedWait::AlterOuter, _) => self.update(),
            (NestedWait::OuterIsEmpty, NestedReply::Flag(empty)) => if empty {
                self.call(NestedWait::PostUpperLevel, NestedCall::PostUpperLevel)
            } else {
                self.call(NestedWait::RangeLimit, NestedCall::RangeLimit)
            },
            (NestedWait::RangeLimit, NestedReply::Range(range)) => match range {
                Some(limits) => {
                    self.range = Some(limits);
                    self.call(NestedWait::TradeStep, NestedCall::TradeStep)
                },
                None => self.call(NestedWait::TradeLen, NestedCall::TradeLen),
            },
            (NestedWait::TradeLen, NestedReply::Count(length)) => {
                let last: i64 = length - 1;
                self.range = Some((0, last));
                self.call(NestedWait::TradeStep, NestedCall::TradeStep)
            },
            (NestedWait::TradeStep, NestedReply::Count(step)) => {
                let (start, end) = self.range.unwrap();
                if self.config.align_range_limit && !(start <= step && step <= end) {
                    self.call(NestedWait::StepInner, NestedCall::StepInner)
                } else {
                    self.call(NestedWait::Decision, NestedCall::BeginDecision)
                }
            },
            (NestedWait::StepInner, _) => self.turn(),
            (NestedWait::Decision, NestedReply::Decision(progress)) => match progress {
                NestedProgress::Ready(decision) => self.call(
                    NestedWait::ModifyDecision,
                    NestedCall::ModifyDecision(decision),
                ),
                NestedProgress::Suspended(prompt) => self.yielded(
                    NestedPhase::AwaitStrategy,
                    ResumableNestedEvent::StrategyPrompt(prompt),
                ),
            },
            (NestedWait::ModifyDecision, NestedReply::Modified(decision)) => {
                self.current_decision = Some(decision);
                self.call(NestedWait::InnerStepTime, NestedCall::InnerStepTime)
            },
            (NestedWait::InnerStepTime, NestedReply::Interval(start, end)) => {
                self.current_interval = Some((start, end));
                if self.config.decision_tracking.inner {
                    self.call(NestedWait::FrameworkControlled, NestedCall::FrameworkControlled)
                } else {
                    self.start_current()
                }
            },
            (NestedWait::FrameworkControlled, NestedReply::Flag(framework)) => if framework {
                self.yielded(NestedPhase::AfterInnerTrack, ResumableNestedEvent::TrackedDecision)
            } else {
                self.start_current()
            },
            (NestedWait::Collect, NestedReply::Collected(progress)) => match progress {
                NestedProgress::Suspended(event) => self.yielded(
                    NestedPhase::AwaitInner,
                    ResumableNestedEvent::Inner(event),
                ),
                NestedProgress::Ready(done) => {
                    let (decision, outcome) = done;
                    self.collected_decision = Some(decision);
                    self.call(NestedWait::PostExecute, NestedCall::PostExecute(outcome))
                },
            },
            (NestedWait::PostExecute, NestedReply::Outcome(outcome)) => self.call(
                NestedWait::SnapshotResult,
                NestedCall::SnapshotResult(outcome),
            ),
            (NestedWait::SnapshotResult, NestedReply::Executions(outcome, executions)) => {
                let mut added = executions;
                self.executions.append(&mut added);
                self.pending_result = Some(outcome);
                self.call(NestedWait::OrderIndicatorHandle, NestedCall::OrderIndicatorHandle)
            },
            (NestedWait::OrderIndicatorHandle, NestedReply::Handle(handle)) => {
                let decision = self.collected_decision.take().unwrap();
                let interval = self.current_interval.take().unwrap();
                self.inner_order_indicators.push(handle);
                self.decisions.push((decision, interval));
                self.previous = self.pending_result.take();
                self.turn()
            },
            (NestedWait::PostUpperLevel, _) => self.call(NestedWait::BarTime, NestedCall::BarTime),
            (NestedWait::BarTime, NestedReply::Interval(start, end)) => self.call(
                NestedWait::UpdateBarEnd,
                NestedCall::UpdateBarEnd(start, end),
            ),
            (NestedWait::UpdateBarEnd, _) => self.call(NestedWait::StepCalendar, NestedCall::StepCalendar),
            (NestedWait::StepCalendar, _) => if self.config.settling() {
                self.call(NestedWait::SettleCommit, NestedCall::SettleCommit)
            } else {
                self.commit()
            },
            (NestedWait::SettleCommit, _) => self.commit(),
            (NestedWait::StoreResult, _) => self.complete(),
            _ => self.turn(),
        }
    }

    /// Closes the executor and says which suspended collaborator has to be cancelled.
    ///
    /// Everything that was collected is dropped. A completed or failed run stays as it is, and
    /// nothing of the end of a run is performed.
    pub fn close(&mut self) -> (result: NestedDelegate)
        requires
            old(self).wf(),
            old(self)@.wait == NestedWait::Nothing,
        ensures
            final(self).wf(),
            final(self).settings() == old(self).settings(),
            final(self).sinks() == old(self).sinks(),
            final(self)@ == closed_state(old(self)@),
            result == delegate_of(old(self)@.phase),
    {
        let delegate = match self.phase {
            NestedPhase::AwaitStrategy => NestedDelegate::Strategy,
            NestedPhase::AwaitInner => NestedDelegate::Inner,
            _ => NestedDelegate::Nobody,
        };
        match self.phase {
            NestedPhase::Complete | NestedPhase::Failed => {},
            _ => {
                self.phase = NestedPhase::Closed;
            },
        }
        self.range = None;
        self.executions.clear();
        self.inner_order_indicators.clear();
        self.decisions.clear();
        self.previous = None;
        self.current_decision = None;
        self.current_interval = None;
        self.collected_decision = None;
        self.pending_result = None;
        delegate
    }

    /// Whether the executor waits for the result of a call.
    pub fn is_waiting(&self) -> (result: bool)
        ensures
            result == (self@.wait != NestedWait::Nothing),
    {
        match self.wait {
            NestedWait::Nothing => false,
            _ => true,
        }
    }

    /// Whether a reply belongs to the awaited call.
    pub fn expects(&self, reply: &NestedReply<N>) -> (result: bool)
        ensures
            result == fits(self@.wait, *reply),
    {
        match (self.wait, reply) {
            (NestedWait::Nothing, _) => false,
            (
                NestedWait::InnerFinished | NestedWait::UpdateOuter | NestedWait::OuterIsEmpty
                | NestedWait::FrameworkControlled,
                _,
            ) => matches!(reply, NestedReply::Flag(_)),
            (NestedWait::StepTime | NestedWait::InnerStepTime | NestedWait::BarTime, _) => matches!(
                reply,
                NestedReply::Interval(_, _)
            ),
            (NestedWait::RangeLimit, _) => matches!(reply, NestedReply::Range(_)),
            (NestedWait::TradeLen, NestedReply::Count(length)) => *length > i64::MIN,
            (NestedWait::TradeLen, _) => false,
            (NestedWait::TradeStep, _) => matches!(reply, NestedReply::Count(_)),
            (NestedWait::Decision, _) => matches!(reply, NestedReply::Decision(_)),
            (NestedWait::ModifyDecision, _) => matches!(reply, NestedReply::Modified(_)),
            (NestedWait::Collect, _) => matches!(reply, NestedReply::Collected(_)),
            (NestedWait::PostExecute, _) => matches!(reply, NestedReply::Outcome(_)),
            (NestedWait::SnapshotResult, _) => matches!(reply, NestedReply::Executions(_, _)),
            (NestedWait::OrderIndicatorHandle, _) => matches!(reply, NestedReply::Handle(_)),
            (_, _) => matches!(reply, NestedReply::Done),
        }
    }

    /// The result of the last executed decision.
    pub fn previous(&self) -> (result: Option<&N::Outcome>)
        ensures
            result matches Some(outcome) ==> self@.previous == Some(*outcome),
            result is None <==> self@.previous is None,
    {
        self.previous.as_ref()
    }

    /// The decision that is about to be executed.
    pub fn current_decision(&self) -> (result: Option<&N::Decision>)
        ensures
            result matches Some(decision) ==> self@.current_decision == Some(*decision),
            result is None <==> self@.current_decision is None,
    {
        self.current_decision.as_ref()
    }

    /// What the run has collected so far.
    pub fn collected(&self) -> (result: (
        &[N::Execution],
        &[N::Indicator],
        &[(N::Decision, (Timestamp, Timestamp))],
    ))
        ensures
            result.0@ == self@.executions,
            result.1@ == self@.inner_order_indicators,
            result.2@ == self@.decisions,
    {
        (self.executions.as_slice(), self.inner_order_indicators.as_slice(), self.decisions.as_slice())
    }

    /// The settings of the executor.
    pub fn config(&self) -> (result: &ResumableNestedConfig<B>)
        ensures
            *result == self.settings(),
    {
        &self.config
    }
}

/// Where no range is given, every step of the calendar is traded: the steps from the first to the last
/// one are decided, whether ranges are kept to or not.
pub proof fn whole_calendars_are_traded<B, N: NestedTypes>(
    executor: &mut ResumableNestedExecutor<B, N>,
    length: i64,
    result: Result<NestedStep<N>, ResumableNestedExecutorError<N::Failure>>,
    step: i64,
)
    requires
        call_ensures(ResumableNestedExecutor::<B, N>::answer, (executor, NestedReply::Count(length)), result),
        old(executor).wf(),
        old(executor)@.wait == NestedWait::TradeLen,
        length > i64::MIN,
        0 <= step < length,
    ensures
        outcome_of(result) == NestedOutcome::<N>::Call(NestedCall::TradeStep),
        answered(final(executor).settings(), final(executor).sinks(), final(executor)@, NestedReply::Count(step)).1
            == NestedOutcome::<N>::Call(NestedCall::BeginDecision),
{
}

/// A step is decided where it lies in the range or where ranges are not kept to, and skipped elsewhere.
pub proof fn steps_are_decided_within_their_range<B, N: NestedTypes>(
    executor: &mut ResumableNestedExecutor<B, N>,
    step: i64,
    result: Result<NestedStep<N>, ResumableNestedExecutorError<N::Failure>>,
    start: i64,
    end: i64,
)
    requires
        call_ensures(ResumableNestedExecutor::<B, N>::answer, (executor, NestedReply::Count(step)), result),
        old(executor).wf(),
        old(executor)@.wait == NestedWait::TradeStep,
        old(executor)@.range == Some((start, end)),
    ensures
        start <= step <= end || !old(executor).settings().align_range_limit ==> outcome_of(result) == NestedOutcome::<
            N,
        >::Call(NestedCall::BeginDecision),
        (step < start || end < step) && old(executor).settings().align_range_limit ==> outcome_of(result)
            == NestedOutcome::<N>::Call(NestedCall::StepInner),
        final(executor)@.executions == old(executor)@.executions && final(executor)@.decisions == old(executor)@.decisions,
{
}

/// What an inner level executed joins what was executed before, in order, and its indicator and its
/// decision, with the interval of the step, join the others once.
pub proof fn inner_results_are_gathered<B, N: NestedTypes>(
    executor: &mut ResumableNestedExecutor<B, N>,
    reply: NestedReply<N>,
    result: Result<NestedStep<N>, ResumableNestedExecutorError<N::Failure>>,
)
    requires
        call_ensures(ResumableNestedExecutor::<B, N>::answer, (executor, reply), result),
        old(executor).wf(),
        fits(old(executor)@.wait, reply),
    ensures
        old(executor)@.wait == NestedWait::SnapshotResult && reply is Executions ==> final(executor)@.executions == old(
            executor,
        )@.executions + reply->Executions_1@ && final(executor)@.pending_result == Some(reply->Executions_0)
            && final(executor)@.decisions == old(executor)@.decisions,
        old(executor)@.wait == NestedWait::OrderIndicatorHandle && reply is Handle ==> {
            let (before, after) = (old(executor)@, final(executor)@);
            &&& after.inner_order_indicators == before.inner_order_indicators.push(reply->Handle_0)
            &&& after.decisions.len() == before.decisions.len() + 1
            &&& after.decisions.last().0 == before.collected_decision->Some_0
            &&& after.decisions.last().1 == before.current_interval->Some_0
            &&& after.executions == before.executions
            &&& after.previous == before.pending_result
        },
        outcome_of(result) matches NestedOutcome::Completed(executions, indicators, decisions) ==> executions == old(
            executor,
        )@.executions && indicators == old(executor)@.inner_order_indicators && decisions == old(executor)@.decisions,
{
}

/// A decision is executed one level below its own.
pub proof fn decisions_are_executed_one_level_below<B, N: NestedTypes>(
    executor: &mut ResumableNestedExecutor<B, N>,
    reply: NestedReply<N>,
    result: Result<NestedStep<N>, ResumableNestedExecutorError<N::Failure>>,
)
    requires
        call_ensures(ResumableNestedExecutor::<B, N>::answer, (executor, reply), result),
        old(executor).wf(),
        fits(old(executor)@.wait, reply),
    ensures
        outcome_of(result) matches NestedOutcome::Call(NestedCall::BeginCollect(decision, level)) ==> level == old(
            executor,
        ).settings().level + 1 && old(executor)@.current_decision == Some(decision),
{
}

} // verus!

//! The parts of a nested child executor.
use crate::resumable_nested_executor::{ResumableNestedConfig, ResumableNestedRun};
use vstd::prelude::*;

verus! {

/// A failure of the provider of a child's parts.
#[derive(Debug)]
pub struct SaoeChildComponentsError {
    pub message: String,
}

/// The parts of one child.
pub struct SaoeChildComponents<K, B, I, S, O, A, R> {
    pub calendar: K,
    pub level_binding: B,
    pub inner: I,
    pub strategy: S,
    pub outer: O,
    pub account: A,
    pub return_sink: Option<R>,
}

/// One child, ready to run.
pub struct NestedChildAssembly<K, B, I, S, O, A, R, P> {
    pub calendar: K,
    pub config: ResumableNestedConfig<P>,
    pub run: ResumableNestedRun<B, I, S, O, A, R>,
}

/// A factory of children with common settings.
pub struct ConfiguredSaoeChildAssemblyFactory<P> {
    pub config: ResumableNestedConfig<P>,
}

impl<P: Copy> ConfiguredSaoeChildAssemblyFactory<P> {
    pub fn new(config: ResumableNestedConfig<P>) -> (result: Self)
        ensures
            result.config == config,
    {
        ConfiguredSaoeChildAssemblyFactory { config }
    }

    /// Puts the parts of a child together: the settings are those of the factory, at the level of
    /// the child.
    pub fn assemble<K, B, I, S, O, A, R>(
        &self,
        components: SaoeChildComponents<K, B, I, S, O, A, R>,
        level: usize,
    ) -> (result: NestedChildAssembly<K, B, I, S, O, A, R, P>)
        ensures
            result.calendar == components.calendar,
            result.config.level == level,
            result.config.skip_empty_decision == self.config.skip_empty_decision,
            result.config.align_range_limit == self.config.align_range_limit,
            result.config.decision_tracking == self.config.decision_tracking,
            result.config.settle_type@ == self.config.settle_type@,
            result.config.indicator_config == self.config.indicator_config,
            result.config.aggregation_config == self.config.aggregation_config,
            result.run.level_binding == components.level_binding,
            result.run.inner == components.inner,
            result.run.strategy == components.strategy,
            result.run.outer == components.outer,
            result.run.account == components.account,
            result.run.return_sink == components.return_sink,
    {
        NestedChildAssembly {
            calendar: components.calendar,
            config: self.config.at_level(level),
            run: ResumableNestedRun {
                level_binding: components.level_binding,
                inner: components.inner,
                strategy: components.strategy,
                outer: components.outer,
                account: components.account,
                return_sink: components.return_sink,
            },
        }
    }
}

} // verus!

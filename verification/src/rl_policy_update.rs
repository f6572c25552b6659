//! The stages of one update of a policy.
//!
//! A policy is marked as updating once a batch was sampled, and is no longer marked once every
//! stage is done. A stage that fails leaves the mark.
use vstd::prelude::*;

verus! {

/// What kind of policy is updated.
#[derive(Clone, Copy, Debug, PartialEq, Eq, Structural)]
pub enum PolicyFamily {
    /// Learns a batch several times; the numbers for it are looked up once the batch is processed.
    Ppo,
    /// Learns a batch once.
    Dqn,
}

/// What an update waits for.
#[derive(Clone, Copy, Debug, PartialEq, Eq, Structural)]
pub enum UpdateStage {
    Idle,
    Sample,
    Process,
    /// The numbers for learning.
    Resolve,
    Learn,
    /// The priorities of the batch go back to the buffer.
    Weights,
    Schedule,
}

/// What an update goes on with: whether the buffer takes priorities back, and whether there is a
/// scheduler.
#[derive(Clone, Copy, Debug, PartialEq, Eq, Structural)]
pub struct UpdateParts {
    pub has_weights: bool,
    pub has_scheduler: bool,
}

/// What is done next.
#[derive(Debug)]
pub enum UpdateAction {
    /// Do the work of a stage.
    Do(UpdateStage),
    /// The update is over.
    Finished,
    /// An adapter of a stage failed.
    Adapter { stage: &'static str, message: String },
}

/// An update of a policy.
#[derive(Debug)]
pub struct PolicyUpdate {
    pub family: PolicyFamily,
    pub stage: UpdateStage,
    pub parts: UpdateParts,
    /// Whether the policy is marked as updating.
    pub updating: bool,
}

/// The name under which a failed adapter of a stage is reported, where the stage is an adapter's.
pub open spec fn adapter_name(family: PolicyFamily, stage: UpdateStage) -> Option<Seq<char>> {
    match stage {
        UpdateStage::Sample => Some("sample"@),
        UpdateStage::Weights => Some(
            match family {
                PolicyFamily::Ppo => "post-process"@,
                PolicyFamily::Dqn => "priority"@,
            },
        ),
        UpdateStage::Schedule => Some("scheduler"@),
        _ => None,
    }
}

/// The stage that follows a stage; none once the update is over.
pub open spec fn stage_after(family: PolicyFamily, stage: UpdateStage, parts: UpdateParts) -> UpdateStage {
    match stage {
        UpdateStage::Sample => UpdateStage::Process,
        UpdateStage::Process => match family {
            PolicyFamily::Ppo => UpdateStage::Resolve,
            PolicyFamily::Dqn => UpdateStage::Learn,
        },
        UpdateStage::Resolve => UpdateStage::Learn,
        UpdateStage::Learn => if parts.has_weights {
            UpdateStage::Weights
        } else if parts.has_scheduler {
            UpdateStage::Schedule
        } else {
            UpdateStage::Idle
        },
        UpdateStage::Weights => if parts.has_scheduler {
            UpdateStage::Schedule
        } else {
            UpdateStage::Idle
        },
        UpdateStage::Schedule => UpdateStage::Idle,
        UpdateStage::Idle => UpdateStage::Idle,
    }
}

impl PolicyUpdate {
    pub fn new(family: PolicyFamily) -> (result: Self)
        ensures
            result.family == family,
            result.stage == UpdateStage::Idle,
            result.parts == (UpdateParts { has_weights: false, has_scheduler: false }),
            !result.updating,
    {
        PolicyUpdate {
            family,
            stage: UpdateStage::Idle,
            parts: UpdateParts { has_weights: false, has_scheduler: false },
            updating: false,
        }
    }

    /// Begins an update. Without a buffer there is nothing to do, and nothing changes.
    pub fn begin(&mut self, has_buffer: bool, has_scheduler: bool) -> (result: UpdateAction)
        ensures
            final(self).family == old(self).family,
            final(self).updating == old(self).updating,
            if has_buffer {
                &&& result == UpdateAction::Do(UpdateStage::Sample)
                &&& final(self).stage == UpdateStage::Sample
                &&& final(self).parts == (UpdateParts { has_weights: false, has_scheduler })
            } else {
                &&& result == UpdateAction::Finished
                &&& *final(self) == *old(self)
            },
    {
        if !has_buffer {
            return UpdateAction::Finished;
        }
        self.stage = UpdateStage::Sample;
        self.parts = UpdateParts { has_weights: false, has_scheduler };
        UpdateAction::Do(UpdateStage::Sample)
    }

    /// Says whether the batch has priorities that go back to the buffer. They may come up until the
    /// batch is learned.
    pub fn set_weights(&mut self, has_weights: bool)
        ensures
            final(self).family == old(self).family,
            final(self).stage == old(self).stage,
            final(self).updating == old(self).updating,
            final(self).parts == (UpdateParts { has_weights, ..old(self).parts }),
    {
        self.parts = UpdateParts { has_weights, has_scheduler: self.parts.has_scheduler };
    }

    /// Goes on behind a stage that is done.
    pub fn done(&mut self) -> (result: UpdateAction)
        requires
            old(self).stage != UpdateStage::Idle,
        ensures
            final(self).family == old(self).family,
            final(self).parts == old(self).parts,
            final(self).stage == stage_after(old(self).family, old(self).stage, old(self).parts),
            result == if final(self).stage == UpdateStage::Idle {
                UpdateAction::Finished
            } else {
                UpdateAction::Do(final(self).stage)
            },
            final(self).updating == if old(self).stage == UpdateStage::Sample {
                true
            } else if final(self).stage == UpdateStage::Idle {
                false
            } else {
                old(self).updating
            },
    {
        if self.stage == UpdateStage::Sample {
            self.updating = true;
        }
        let after_weights = if self.parts.has_scheduler {
            UpdateStage::Schedule
        } else {
            UpdateStage::Idle
        };
        self.stage = match self.stage {
            UpdateStage::Sample => UpdateStage::Process,
            UpdateStage::Process => match self.family {
                PolicyFamily::Ppo => UpdateStage::Resolve,
                PolicyFamily::Dqn => UpdateStage::Learn,
            },
            UpdateStage::Resolve => UpdateStage::Learn,
            UpdateStage::Learn => if self.parts.has_weights {
                UpdateStage::Weights
            } else {
                after_weights
            },
            UpdateStage::Weights => after_weights,
            UpdateStage::Schedule => UpdateStage::Idle,
            UpdateStage::Idle => UpdateStage::Idle,
        };
        if self.stage == UpdateStage::Idle {
            self.updating = false;
            UpdateAction::Finished
        } else {
            UpdateAction::Do(self.stage)
        }
    }

    /// Ends an update at a stage whose adapter failed.
    pub fn adapter_failed(&mut self, message: String) -> (result: UpdateAction)
        requires
            adapter_name(old(self).family, old(self).stage) is Some,
        ensures
            final(self).family == old(self).family,
            final(self).parts == old(self).parts,
            final(self).stage == UpdateStage::Idle,
            final(self).updating == old(self).updating,
            result is Adapter,
            result->stage@ == adapter_name(old(self).family, old(self).stage)->Some_0,
            result->message == message,
    {
        let stage = match self.stage {
            UpdateStage::Sample => "sample",
            UpdateStage::Weights => match self.family {
                PolicyFamily::Ppo => "post-process",
                PolicyFamily::Dqn => "priority",
            },
            _ => "scheduler",
        };
        self.stage = UpdateStage::Idle;
        UpdateAction::Adapter { stage, message }
    }

    /// Ends an update at a stage of the policy's own that failed.
    pub fn failed(&mut self)
        ensures
            final(self).family == old(self).family,
            final(self).parts == old(self).parts,
            final(self).stage == UpdateStage::Idle,
            final(self).updating == old(self).updating,
    {
        self.stage = UpdateStage::Idle;
    }
}

/// Learning comes behind processing and before the priorities and the scheduler.
pub proof fn stages_come_in_order(family: PolicyFamily, parts: UpdateParts)
    ensures
        stage_after(family, UpdateStage::Sample, parts) == UpdateStage::Process,
        stage_after(family, UpdateStage::Process, parts) == UpdateStage::Learn || stage_after(
            family,
            stage_after(family, UpdateStage::Process, parts),
            parts,
        ) == UpdateStage::Learn,
        parts.has_weights ==> stage_after(family, UpdateStage::Learn, parts) == UpdateStage::Weights,
        stage_after(family, UpdateStage::Schedule, parts) == UpdateStage::Idle,
{
}

/// An update goes through its stages in order: a batch is sampled, processed and learned from, and only
/// behind that are weights updated and schedules moved on, each only where there are any. A schedule is
/// the last stage, and the update is over behind it.
pub proof fn updates_learn_before_they_weigh(update: &mut PolicyUpdate, result: UpdateAction)
    requires
        call_ensures(PolicyUpdate::done, (update,), result),
        old(update).stage != UpdateStage::Idle,
    ensures
        old(update).stage == UpdateStage::Sample ==> final(update).stage == UpdateStage::Process && final(update).updating,
        old(update).stage == UpdateStage::Process && old(update).family == PolicyFamily::Dqn ==> final(update).stage
            == UpdateStage::Learn,
        old(update).stage == UpdateStage::Process && old(update).family == PolicyFamily::Ppo ==> final(update).stage
            == UpdateStage::Resolve,
        old(update).stage == UpdateStage::Resolve ==> final(update).stage == UpdateStage::Learn,
        final(update).stage == UpdateStage::Weights ==> old(update).stage == UpdateStage::Learn
            && old(update).parts.has_weights,
        final(update).stage == UpdateStage::Schedule ==> old(update).parts.has_scheduler && (old(update).stage
            == UpdateStage::Learn || old(update).stage == UpdateStage::Weights),
        old(update).stage == UpdateStage::Learn && old(update).parts.has_weights ==> final(update).stage
            == UpdateStage::Weights,
        old(update).stage == UpdateStage::Weights && old(update).parts.has_scheduler ==> final(update).stage
            == UpdateStage::Schedule,
        old(update).stage == UpdateStage::Learn && !old(update).parts.has_weights && old(update).parts.has_scheduler
            ==> final(update).stage == UpdateStage::Schedule,
        old(update).stage == UpdateStage::Schedule ==> final(update).stage == UpdateStage::Idle,
        final(update).stage == UpdateStage::Idle <==> result == UpdateAction::Finished,
        final(update).stage == UpdateStage::Idle ==> !final(update).updating,
{
}

} // verus!

//! Files of checkpoints, and the graph of live components behind them.
use crate::metric_snapshot::texts;
use crate::rl_trainer_checkpoint::{component_places, RlTrainerSave, SaveModel};
use crate::rl_trainer_driver::RlTrainerDriverError;
use core::marker::PhantomData;
use vstd::prelude::*;

verus! {

/// The clock of the system.
#[derive(Clone, Copy, Debug)]
pub struct SystemRlCheckpointClock;

/// An encoding of plain values by position. It stores every field and names none.
#[derive(Clone, Copy, Debug)]
pub struct BincodeRlCheckpointCodec;

/// Checkpoints in files, written by a codec.
#[derive(Clone, Copy, Debug)]
pub struct FileRlCheckpointStorage<C> {
    pub codec: C,
}

impl<C> FileRlCheckpointStorage<C> {
    pub fn new(codec: C) -> (result: Self)
        ensures
            result.codec == codec,
    {
        FileRlCheckpointStorage { codec }
    }
}

/// A component under its type's name, with what gives access to its state.
#[derive(Debug)]
pub struct RlOwnedCheckpointComponent<S> {
    pub name: String,
    pub state: S,
}

/// The components of a trainer besides its vessel.
#[derive(Debug)]
pub struct RlTrainerGraph<V, C, L> {
    pub callbacks: Vec<RlOwnedCheckpointComponent<C>>,
    pub loggers: Vec<RlOwnedCheckpointComponent<L>>,
    pub vessel_state: PhantomData<V>,
}

/// The type names of components.
pub open spec fn type_names<S>(components: Seq<RlOwnedCheckpointComponent<S>>) -> Seq<Seq<char>> {
    Seq::new(components.len(), |i: int| components[i].name@)
}

fn list_names<S>(components: &Vec<RlOwnedCheckpointComponent<S>>) -> (result: Vec<String>)
    ensures
        texts(result@) == type_names(components@),
        result@.len() == components@.len(),
{
    let mut names: Vec<String> = Vec::new();
    let mut i: usize = 0;
    while i < components.len()
        invariant
            i <= components@.len(),
            names@.len() == i,
            forall|j: int| 0 <= j < i ==> (#[trigger] names@[j])@ == components@[j].name@,
        decreases components@.len() - i,
    {
        names.push(components[i].name.clone());
        i += 1;
    }
    assert(texts(names@) =~= type_names(components@));
    names
}

impl<V, C, L> RlTrainerGraph<V, C, L> {
    pub fn new(
        callbacks: Vec<RlOwnedCheckpointComponent<C>>,
        loggers: Vec<RlOwnedCheckpointComponent<L>>,
    ) -> (result: Self)
        ensures
            result.callbacks@ == callbacks@,
            result.loggers@ == loggers@,
    {
        RlTrainerGraph { callbacks, loggers, vessel_state: PhantomData }
    }

    /// Begins to save the graph: the names of the components give their keys.
    pub fn begin_save<SC, SL>(&self) -> (result: RlTrainerSave<V, SC, SL>)
        ensures
            result.wf(),
            exists|callbacks: Seq<String>, loggers: Seq<String>|
                #![trigger component_places(callbacks), component_places(loggers)]
                texts(callbacks) == type_names(self.callbacks@) && texts(loggers) == type_names(self.loggers@)
                    && result.model() == (SaveModel::<V, SC, SL> {
                    callbacks: component_places(callbacks),
                    loggers: component_places(loggers),
                    vessel: None,
                    saved_callbacks: Seq::empty(),
                    saved_loggers: Seq::empty(),
                }),
    {
        let callbacks = list_names(&self.callbacks);
        let loggers = list_names(&self.loggers);
        RlTrainerSave::begin(&callbacks, &loggers)
    }
}

/// The error of a checkpoint file that could not be restored.
pub fn file_restore_error(message: String) -> (result: RlTrainerDriverError)
    ensures
        result matches RlTrainerDriverError::Plugin { stage, message: said } && stage@ == "checkpoint_file_restore"@
            && said == message,
{
    RlTrainerDriverError::Plugin { stage: "checkpoint_file_restore".to_owned(), message }
}

} // verus!

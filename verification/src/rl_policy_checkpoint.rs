//! Policies out of decoded checkpoints.
use crate::rl_checkpoint_file::FileRlCheckpointStorage;
use crate::rl_trainer_checkpoint::{RlCheckpointField, RlTrainerCheckpoint};
use core::marker::PhantomData;
use vstd::prelude::*;

verus! {

/// Why no policy came out of a checkpoint.
#[derive(Debug)]
pub enum PolicyCheckpointError {
    Read(String),
    Extract(String),
}

/// The state of a vessel in a checkpoint.
#[derive(Debug)]
pub struct TrainingVesselCheckpoint<P> {
    pub policy: P,
}

/// Takes the policy out of a document that was decoded whole.
pub trait PolicyCheckpointProjection<Document> {
    type Policy;

    /// What is taken out of a document.
    open spec fn extracted(&self, document: Document) -> Result<Self::Policy, Seq<char>> {
        arbitrary()
    }

    fn extract(&mut self, document: Document) -> (result: Result<Self::Policy, String>)
        ensures
            match result {
                Ok(policy) => old(self).extracted(document) == Ok::<Self::Policy, Seq<char>>(policy),
                Err(error) => old(self).extracted(document) == Err::<Self::Policy, Seq<char>>(error@),
            },
    ;
}

/// The document is the policy itself.
#[derive(Clone, Copy, Debug)]
pub struct DirectPolicyCheckpoint;

impl<P> PolicyCheckpointProjection<P> for DirectPolicyCheckpoint {
    type Policy = P;

    open spec fn extracted(&self, document: P) -> Result<P, Seq<char>> {
        Ok(document)
    }

    fn extract(&mut self, document: P) -> (result: Result<P, String>) {
        Ok(document)
    }
}

/// The document is the checkpoint of a trainer.
#[derive(Clone, Copy, Debug)]
pub struct TrainerPolicyCheckpoint;

impl<P, C, L, M> PolicyCheckpointProjection<
    RlTrainerCheckpoint<TrainingVesselCheckpoint<P>, C, L, M>,
> for TrainerPolicyCheckpoint {
    type Policy = P;

    open spec fn extracted(&self, document: RlTrainerCheckpoint<TrainingVesselCheckpoint<P>, C, L, M>) -> Result<
        P,
        Seq<char>,
    > {
        match document.vessel {
            RlCheckpointField::Present(vessel) => Ok(vessel.policy),
            RlCheckpointField::Missing => Err("checkpoint field is missing: vessel"@),
        }
    }

    fn extract(&mut self, document: RlTrainerCheckpoint<TrainingVesselCheckpoint<P>, C, L, M>) -> (result: Result<
        P,
        String,
    >) {
        match document.vessel {
            RlCheckpointField::Present(vessel) => Ok(vessel.policy),
            RlCheckpointField::Missing => Err("checkpoint field is missing: vessel".to_owned()),
        }
    }
}

/// A file of a policy: the codec reads the whole document, the projection takes the policy out.
#[derive(Debug)]
pub struct PolicyCheckpointFile<Codec, Projection, Document> {
    pub storage: FileRlCheckpointStorage<Codec>,
    pub projection: Projection,
    pub document: PhantomData<Document>,
}

impl<Codec, Projection, Document> PolicyCheckpointFile<Codec, Projection, Document> {
    pub fn new(codec: Codec, projection: Projection) -> (result: Self)
        ensures
            result.storage.codec == codec,
            result.projection == projection,
    {
        PolicyCheckpointFile { storage: FileRlCheckpointStorage::new(codec), projection, document: PhantomData }
    }

    /// Takes the policy out of what reading the file gave.
    pub fn read_policy(&mut self, document: Result<Document, String>) -> (result: Result<
        Projection::Policy,
        PolicyCheckpointError,
    >) where Projection: PolicyCheckpointProjection<Document>
        ensures
            match document {
                Err(message) => result == Err::<Projection::Policy, _>(PolicyCheckpointError::Read(message)),
                Ok(document) => match old(self).projection.extracted(document) {
                    Ok(policy) => result == Ok::<_, PolicyCheckpointError>(policy),
                    Err(error) => result matches Err(PolicyCheckpointError::Extract(message)) && message@ == error,
                },
            },
    {
        match document {
            Err(message) => Err(PolicyCheckpointError::Read(message)),
            Ok(document) => match self.projection.extract(document) {
                Ok(policy) => Ok(policy),
                Err(message) => Err(PolicyCheckpointError::Extract(message)),
            },
        }
    }
}

} // verus!

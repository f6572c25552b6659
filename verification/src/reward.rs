//! Rewards of simulator states.
use vstd::prelude::*;

verus! {

/// Computes the reward of a simulator state. Implementations choose their own failures.
pub trait Reward<State, V> {
    type Error;

    /// The reward of a state.
    fn reward(&self, simulator_state: &State) -> Result<V, Self::Error>;

    /// Hands the reward on as it is.
    fn call(&self, simulator_state: &State) -> (result: Result<V, Self::Error>)
        ensures
            call_ensures(Self::reward, (self, simulator_state), result),
    {
        self.reward(simulator_state)
    }
}

/// The initial state of a simulator: whatever its type is.
pub type InitialStateType<T> = T;

} // verus!

//! Continual re-solving: what is carried from one resolve to the next.
//!
//! The first decision bootstraps with a plain range-vs-range resolve; every
//! later one is a gadget-constrained resolve anchored on the carried
//! counterfactual values and warm-started from the previous strategy.  Each
//! resolve refreshes what is carried.

use vstd::prelude::*;

verus! {

/// How a decision is resolved.
#[derive(Debug, Clone, Copy, PartialEq, Eq, Structural)]
pub enum ResolveMode {
    /// A plain range-vs-range resolve, nothing being carried yet.
    Bootstrap,
    /// A gadget-constrained resolve, warm-started where there is a previous
    /// strategy.
    Gadget { warm: bool },
}

/// What a session carries between resolves.
#[derive(Debug, Clone, Copy, PartialEq, Eq, Structural)]
pub struct ContinualState {
    /// Whether opponent counterfactual values are carried.
    pub has_cfv: bool,
    /// Whether there is a previous strategy.
    pub has_strategy: bool,
}

impl ContinualState {
    /// Start a session with no carried values.
    pub fn new() -> (state: Self)
        ensures
            state == (ContinualState { has_cfv: false, has_strategy: false }),
    {
        ContinualState { has_cfv: false, has_strategy: false }
    }

    /// Seed a session with externally supplied opponent values, so the very
    /// first resolve is already gadget-constrained.
    pub fn with_cfv(self) -> (state: Self)
        ensures
            state == (ContinualState { has_cfv: true, ..self }),
    {
        ContinualState { has_cfv: true, has_strategy: self.has_strategy }
    }

    /// How the next decision is resolved.
    pub open spec fn next_mode(self) -> ResolveMode {
        if self.has_cfv {
            ResolveMode::Gadget { warm: self.has_strategy }
        } else {
            ResolveMode::Bootstrap
        }
    }

    /// How to resolve the next decision; afterwards its values and strategy are
    /// carried.
    pub fn resolve(&mut self) -> (mode: ResolveMode)
        ensures
            mode == old(self).next_mode(),
            *final(self) == (ContinualState { has_cfv: true, has_strategy: true }),
            final(self).next_mode() == (ResolveMode::Gadget { warm: true }),
    {
        let mode: ResolveMode = if self.has_cfv {
            ResolveMode::Gadget { warm: self.has_strategy }
        } else {
            ResolveMode::Bootstrap
        };
        self.has_cfv = true;
        self.has_strategy = true;
        mode
    }
}

/// Ours and the opponent's in seat order, when we sit at `me`.
pub fn by_seat<T>(me: usize, mine: T, theirs: T) -> (seats: [T; 2])
    requires
        me < 2,
    ensures
        seats[me as int] == mine,
        seats[1 - me as int] == theirs,
{
    if me == 0 {
        [mine, theirs]
    } else {
        [theirs, mine]
    }
}

/// A decision is bootstrapped exactly where no values are carried; where they
/// are, it starts warm exactly where there is a strategy to start from.
pub proof fn law_carried_values_constrain(state: ContinualState)
    ensures
        state.next_mode() is Bootstrap <==> !state.has_cfv,
        state.next_mode() is Gadget <==> state.has_cfv,
        state.next_mode() matches ResolveMode::Gadget { warm } ==> warm == state.has_strategy,
{
}

} // verus!

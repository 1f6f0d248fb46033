use vstd::prelude::*;

verus! {

/// A game state together with the actions taken on it, the last one on top, so that they can be
/// taken back one at a time.
pub struct StateWithUndoHistory<S, A> {
    pub state: S,
    pub undo_stack: Vec<A>,
}

impl<S, A> StateWithUndoHistory<S, A> {
    /// A state with no action to take back.
    pub fn new(state: S) -> (h: Self)
        ensures
            h.state == state,
            h.undo_stack@ == Seq::<A>::empty(),
    {
        StateWithUndoHistory { state, undo_stack: Vec::new() }
    }

    /// Records an action that was just applied to the state, on top of the others.
    pub fn record(&mut self, action: A)
        ensures
            final(self).state == old(self).state,
            final(self).undo_stack@ == old(self).undo_stack@.push(action),
    {
        self.undo_stack.push(action);
    }

    /// Takes the last recorded action off the history and hands it back, for the state to undo
    /// it; with no action recorded, nothing changes.
    pub fn undo(&mut self) -> (action: Option<A>)
        ensures
            final(self).state == old(self).state,
            old(self).undo_stack@.len() == 0 ==> action is None && final(self).undo_stack@
                == old(self).undo_stack@,
            old(self).undo_stack@.len() > 0 ==> action == Some(old(self).undo_stack@.last())
                && final(self).undo_stack@ == old(self).undo_stack@.drop_last(),
    {
        self.undo_stack.pop()
    }
}

/// Undoing right after recording an action hands that action back and leaves the history as it
/// was before.
pub proof fn lemma_undo_takes_back_record<A>(undo_stack: Seq<A>, action: A)
    ensures
        undo_stack.push(action).len() > 0,
        undo_stack.push(action).last() == action,
        undo_stack.push(action).drop_last() == undo_stack,
{
    assert(undo_stack.push(action).drop_last() =~= undo_stack);
}

} // verus!

use vstd::prelude::*;

use crate::cards::{Card, CardRange, Groups, Suit, groups_fit, last_group};

verus! {

/// What the player is doing: choosing the stack to move from, the stack to move to (after the
/// stack to move from), or a cheat.
#[derive(Copy, Clone, PartialEq, Eq, Structural, Debug)]
pub enum InputState {
    SelectSource,
    SelectDestination(usize),
    CheatMenu,
}

/// A key the player pressed, as the game reads it.
#[derive(Copy, Clone, PartialEq, Eq, Structural, Debug)]
pub enum Input {
    Restart,
    Undo,
    Deal,
    Row(u8),
    ShowCheatMenu,
    ExitMenu,
    Quit,
}

/// What the game is to do with its cards after a key press.
#[derive(Copy, Clone, PartialEq, Eq, Structural, Debug)]
pub enum Effect {
    /// Nothing.
    Nothing,
    /// Set the current game aside and deal a new one.
    Restart,
    /// Take back the last action and save.
    Undo,
    /// Deal a row of cards from the deck.
    Deal,
    /// Move cards from one stack to another, where the rules allow it.
    Move { from: usize, to: usize },
    /// Apply the cheat of that row, if there is one; the screen is redrawn only if there is.
    Cheat(usize),
    /// Leave the game.
    Quit,
}

/// The outcome of a key press: the next input state, the effect, and whether to redraw.
#[derive(Copy, Clone, PartialEq, Eq, Structural, Debug)]
pub struct Step {
    pub state: InputState,
    pub effect: Effect,
    pub redraw: bool,
}

/// The least number of cards the deck must hold for a row to be dealt.
pub const DEAL_SIZE: usize = 10;

/// What a key press does in each input state, `deck_len` being the number of cards in the deck.
pub open spec fn step_spec(state: InputState, input: Input, deck_len: usize) -> Step {
    match input {
        Input::Restart => Step { state, effect: Effect::Restart, redraw: true },
        Input::Undo => Step { state, effect: Effect::Undo, redraw: true },
        Input::Deal => if deck_len >= DEAL_SIZE {
            Step { state, effect: Effect::Deal, redraw: true }
        } else {
            Step { state, effect: Effect::Nothing, redraw: false }
        },
        Input::Row(e) => match state {
            InputState::SelectSource => Step {
                state: InputState::SelectDestination(e as usize),
                effect: Effect::Nothing,
                redraw: true,
            },
            InputState::SelectDestination(source) => Step {
                state: InputState::SelectSource,
                effect: Effect::Move { from: source, to: e as usize },
                redraw: true,
            },
            InputState::CheatMenu => Step {
                state: InputState::SelectSource,
                effect: Effect::Cheat(e as usize),
                redraw: false,
            },
        },
        Input::ShowCheatMenu => Step { state: InputState::CheatMenu, effect: Effect::Nothing, redraw: true },
        Input::ExitMenu => match state {
            InputState::CheatMenu => Step { state: InputState::SelectSource, effect: Effect::Nothing, redraw: true },
            _ => Step { state, effect: Effect::Quit, redraw: false },
        },
        Input::Quit => Step { state, effect: Effect::Quit, redraw: false },
    }
}

impl InputState {
    /// Decides what a key press does: the next input state, what to do with the cards, and
    /// whether the screen is to be drawn again.
    pub fn step(self, input: Input, deck_len: usize) -> (s: Step)
        ensures
            s == step_spec(self, input, deck_len),
    {
        match input {
            Input::Restart => Step { state: self, effect: Effect::Restart, redraw: true },
            Input::Undo => Step { state: self, effect: Effect::Undo, redraw: true },
            Input::Deal => {
                if deck_len >= DEAL_SIZE {
                    Step { state: self, effect: Effect::Deal, redraw: true }
                } else {
                    Step { state: self, effect: Effect::Nothing, redraw: false }
                }
            },
            Input::Row(e) => {
                let e = e as usize;
                match self {
                    InputState::SelectSource => Step {
                        state: InputState::SelectDestination(e),
                        effect: Effect::Nothing,
                        redraw: true,
                    },
                    InputState::SelectDestination(source) => Step {
                        state: InputState::SelectSource,
                        effect: Effect::Move { from: source, to: e },
                        redraw: true,
                    },
                    InputState::CheatMenu => Step {
                        state: InputState::SelectSource,
                        effect: Effect::Cheat(e),
                        redraw: false,
                    },
                }
            },
            Input::ShowCheatMenu => Step {
                state: InputState::CheatMenu,
                effect: Effect::Nothing,
                redraw: true,
            },
            Input::ExitMenu => match self {
                InputState::CheatMenu => Step {
                    state: InputState::SelectSource,
                    effect: Effect::Nothing,
                    redraw: true,
                },
                _ => Step { state: self, effect: Effect::Quit, redraw: false },
            },
            Input::Quit => Step { state: self, effect: Effect::Quit, redraw: false },
        }
    }
}

/// What each key does, whatever the input state: Deal deals exactly when the deck holds at least
/// ten cards and otherwise changes nothing; Restart and Undo keep the input state and redraw;
/// Quit quits and keeps the input state; ShowCheatMenu opens the cheat menu.
pub proof fn lemma_step_keys(state: InputState, deck_len: usize)
    ensures
        deck_len >= 10 ==> step_spec(state, Input::Deal, deck_len) == (Step {
            state,
            effect: Effect::Deal,
            redraw: true,
        }),
        deck_len < 10 ==> step_spec(state, Input::Deal, deck_len) == (Step {
            state,
            effect: Effect::Nothing,
            redraw: false,
        }),
        step_spec(state, Input::Restart, deck_len) == (Step { state, effect: Effect::Restart, redraw: true }),
        step_spec(state, Input::Undo, deck_len) == (Step { state, effect: Effect::Undo, redraw: true }),
        step_spec(state, Input::Quit, deck_len) == (Step { state, effect: Effect::Quit, redraw: false }),
        step_spec(state, Input::ShowCheatMenu, deck_len) == (Step {
            state: InputState::CheatMenu,
            effect: Effect::Nothing,
            redraw: true,
        }),
{
}

/// Two row presses move cards: the first chooses the stack to move from, the second the stack
/// to move to, and the input goes back to choosing a source. In the cheat menu a row press
/// chooses a cheat and leaves the menu, and only a cheat that applies redraws; leaving the cheat
/// menu goes back to choosing a source; leaving a menu elsewhere quits.
pub proof fn lemma_step_rows(from: u8, to: u8, source: usize, deck_len: usize)
    ensures
        step_spec(InputState::SelectSource, Input::Row(from), deck_len) == (Step {
            state: InputState::SelectDestination(from as usize),
            effect: Effect::Nothing,
            redraw: true,
        }),
        step_spec(InputState::SelectDestination(source), Input::Row(to), deck_len) == (Step {
            state: InputState::SelectSource,
            effect: Effect::Move { from: source, to: to as usize },
            redraw: true,
        }),
        step_spec(InputState::CheatMenu, Input::Row(to), deck_len) == (Step {
            state: InputState::SelectSource,
            effect: Effect::Cheat(to as usize),
            redraw: false,
        }),
        step_spec(InputState::CheatMenu, Input::ExitMenu, deck_len) == (Step {
            state: InputState::SelectSource,
            effect: Effect::Nothing,
            redraw: true,
        }),
        step_spec(InputState::SelectSource, Input::ExitMenu, deck_len) == (Step {
            state: InputState::SelectSource,
            effect: Effect::Quit,
            redraw: false,
        }),
        step_spec(InputState::SelectDestination(source), Input::ExitMenu, deck_len) == (Step {
            state: InputState::SelectDestination(source),
            effect: Effect::Quit,
            redraw: false,
        }),
{
}

/// The number of cards of a full suit, from king down to ace.
pub const FULL_SUIT: usize = 13;

/// A full suit, king down to ace, that lies at the top of a stack and is to leave it.
#[derive(Copy, Clone, PartialEq, Eq, Structural, Debug)]
pub struct FullStackRemoval {
    /// The suit of the run.
    pub suit: Suit,
    /// The index of the stack.
    pub stack: usize,
    /// Whether the card under the run lies face down and is to be turned.
    pub flip_card: bool,
}

/// The removal due on stack `i`: when the last group of the stack holds a full suit.
pub open spec fn removal_at(stacks: Seq<Vec<Card>>, i: int) -> Option<FullStackRemoval> {
    let stack = stacks[i]@;
    match last_group(stack) {
        Some(g) => if g.count() == FULL_SUIT {
            Some(
                FullStackRemoval {
                    suit: g.suit,
                    stack: i as usize,
                    flip_card: stack.len() > FULL_SUIT && !stack[stack.len() - 14].is_facing_up,
                },
            )
        } else {
            None
        },
        None => None,
    }
}

/// The removals due on the first `k` stacks, in the order of the stacks.
pub open spec fn removals_upto(stacks: Seq<Vec<Card>>, k: int) -> Seq<FullStackRemoval>
    decreases k,
{
    if k <= 0 {
        Seq::empty()
    } else {
        removals_upto(stacks, k - 1) + match removal_at(stacks, k - 1) {
            Some(r) => seq![r],
            None => Seq::empty(),
        }
    }
}

/// Finds the full suits that lie at the top of the stacks, stack by stack: for each stack whose
/// last group holds thirteen cards, its suit, the stack's index and whether the card under the
/// run lies face down.
pub fn full_stack_removals(stacks: &[Vec<Card>]) -> (removals: Vec<FullStackRemoval>)
    requires
        forall|i: int| 0 <= i < stacks@.len() ==> groups_fit(#[trigger] stacks@[i]@),
    ensures
        removals@ == removals_upto(stacks@, stacks@.len() as int),
{
    let mut removals: Vec<FullStackRemoval> = Vec::new();
    let n = stacks.len();
    let mut index: usize = 0;
    while index < n
        invariant
            n == stacks@.len(),
            index <= n,
            forall|i: int| 0 <= i < stacks@.len() ==> groups_fit(#[trigger] stacks@[i]@),
            removals@ == removals_upto(stacks@, index as int),
        decreases n - index,
    {
        let stack = &stacks[index];
        assert(groups_fit(stacks@[index as int]@));
        let last: Option<CardRange> = Groups(stack.as_slice()).last();
        match last {
            Some(g) => {
                if g.len() == FULL_SUIT {
                    let flip_card = stack.len() > FULL_SUIT && !stack[stack.len() - 14].is_facing_up;
                    removals.push(FullStackRemoval { suit: g.suit, stack: index, flip_card });
                }
            },
            None => {},
        }
        assert(removals@ =~= removals_upto(stacks@, index + 1));
        index = index + 1;
    }
    removals
}

/// What a removal found among the first `k` stacks says of its stack.
spec fn removal_fits(stacks: Seq<Vec<Card>>, k: int, r: FullStackRemoval) -> bool {
    let st = stacks[r.stack as int]@;
    &&& r.stack < k
    &&& last_group(st) is Some
    &&& last_group(st)->0.count() == 13
    &&& last_group(st)->0.suit == r.suit
    &&& r.flip_card == (st.len() > 13 && !st[st.len() - 14].is_facing_up)
}

/// The removal due on stack `i`, when there is one, names stack `i` and fits it.
proof fn lemma_removal_at(stacks: Seq<Vec<Card>>, i: int)
    requires
        0 <= i < stacks.len() <= usize::MAX,
    ensures
        removal_at(stacks, i) is Some <==> (last_group(stacks[i]@) is Some && last_group(
            stacks[i]@,
        )->0.count() == 13),
        removal_at(stacks, i) is Some ==> removal_at(stacks, i)->0.stack == i && removal_fits(
            stacks,
            i + 1,
            removal_at(stacks, i)->0,
        ),
{
}

/// One more stack adds at most its own removal at the end.
proof fn lemma_removals_step(stacks: Seq<Vec<Card>>, k: int)
    requires
        0 < k <= stacks.len() <= usize::MAX,
    ensures
        removals_upto(stacks, k - 1).is_prefix_of(removals_upto(stacks, k)),
        removal_at(stacks, k - 1) is None ==> removals_upto(stacks, k) == removals_upto(stacks, k - 1),
        removal_at(stacks, k - 1) is Some ==> removals_upto(stacks, k) == removals_upto(stacks, k - 1).push(
            removal_at(stacks, k - 1)->0,
        ),
{
    let prev = removals_upto(stacks, k - 1);
    if removal_at(stacks, k - 1) is None {
        assert(removals_upto(stacks, k) =~= prev);
    } else {
        assert(removals_upto(stacks, k) =~= prev.push(removal_at(stacks, k - 1)->0));
    }
}

proof fn lemma_removals_fit(stacks: Seq<Vec<Card>>, k: int)
    requires
        0 <= k <= stacks.len() <= usize::MAX,
    ensures
        forall|j: int|
            0 <= j < removals_upto(stacks, k).len() ==> removal_fits(
                stacks,
                k,
                #[trigger] removals_upto(stacks, k)[j],
            ),
    decreases k,
{
    if k > 0 {
        lemma_removals_fit(stacks, k - 1);
        lemma_removals_step(stacks, k);
        lemma_removal_at(stacks, k - 1);
        let prev = removals_upto(stacks, k - 1);
        let cur = removals_upto(stacks, k);
        assert forall|j: int| 0 <= j < cur.len() implies removal_fits(stacks, k, #[trigger] cur[j]) by {
            if j < prev.len() {
                assert(cur[j] == prev[j]);
                assert(removal_fits(stacks, k - 1, prev[j]));
            }
        }
    }
}

proof fn lemma_removals_complete(stacks: Seq<Vec<Card>>, k: int)
    requires
        0 <= k <= stacks.len() <= usize::MAX,
    ensures
        forall|i: int|
            0 <= i < k && #[trigger] last_group(stacks[i]@) is Some && last_group(stacks[i]@)->0.count()
                == 13 ==> exists|j: int|
                0 <= j < removals_upto(stacks, k).len() && removals_upto(stacks, k)[j].stack == i,
    decreases k,
{
    if k > 0 {
        lemma_removals_complete(stacks, k - 1);
        lemma_removals_step(stacks, k);
        lemma_removal_at(stacks, k - 1);
        let prev = removals_upto(stacks, k - 1);
        let cur = removals_upto(stacks, k);
        assert forall|i: int|
            0 <= i < k && #[trigger] last_group(stacks[i]@) is Some && last_group(stacks[i]@)->0.count()
                == 13 implies exists|j: int| 0 <= j < cur.len() && cur[j].stack == i by {
            if i < k - 1 {
                let j = choose|j: int| 0 <= j < prev.len() && prev[j].stack == i;
                assert(cur[j] == prev[j]);
            } else {
                assert(cur[prev.len() as int].stack == i);
            }
        }
    }
}

proof fn lemma_removals_ordered(stacks: Seq<Vec<Card>>, k: int)
    requires
        0 <= k <= stacks.len() <= usize::MAX,
    ensures
        forall|j1: int, j2: int|
            0 <= j1 < j2 < removals_upto(stacks, k).len() ==> #[trigger] removals_upto(stacks, k)[j1].stack
                < #[trigger] removals_upto(stacks, k)[j2].stack,
    decreases k,
{
    if k > 0 {
        lemma_removals_ordered(stacks, k - 1);
        lemma_removals_fit(stacks, k - 1);
        lemma_removals_step(stacks, k);
        lemma_removal_at(stacks, k - 1);
        let prev = removals_upto(stacks, k - 1);
        let cur = removals_upto(stacks, k);
        assert forall|j1: int, j2: int| 0 <= j1 < j2 < cur.len() implies #[trigger] cur[j1].stack
            < #[trigger] cur[j2].stack by {
            assert(cur[j1] == prev[j1]);
            assert(removal_fits(stacks, k - 1, prev[j1]));
            if j2 < prev.len() {
                assert(cur[j2] == prev[j2]);
            }
        }
    }
}

/// Every removal found on the first `k` stacks names a stack among them whose last group holds
/// thirteen cards of the removal's suit, and it turns the card under the run exactly when the
/// stack holds more than thirteen cards and the card at index `len - 14` lies face down; every
/// such stack has a removal; and the removals come in the order of their stacks.
pub proof fn lemma_full_stack_removals(stacks: Seq<Vec<Card>>, k: int)
    requires
        0 <= k <= stacks.len() <= usize::MAX,
    ensures
        forall|j: int|
            #![trigger removals_upto(stacks, k)[j]]
            0 <= j < removals_upto(stacks, k).len() ==> {
                let r = removals_upto(stacks, k)[j];
                let st = stacks[r.stack as int]@;
                &&& r.stack < k
                &&& last_group(st) is Some
                &&& last_group(st)->0.count() == 13
                &&& last_group(st)->0.suit == r.suit
                &&& r.flip_card == (st.len() > 13 && !st[st.len() - 14].is_facing_up)
            },
        forall|i: int|
            0 <= i < k && #[trigger] last_group(stacks[i]@) is Some && last_group(stacks[i]@)->0.count()
                == 13 ==> exists|j: int|
                0 <= j < removals_upto(stacks, k).len() && removals_upto(stacks, k)[j].stack == i,
        forall|j1: int, j2: int|
            0 <= j1 < j2 < removals_upto(stacks, k).len() ==> #[trigger] removals_upto(stacks, k)[j1].stack
                < #[trigger] removals_upto(stacks, k)[j2].stack,
{
    lemma_removals_fit(stacks, k);
    lemma_removals_complete(stacks, k);
    lemma_removals_ordered(stacks, k);
    assert forall|j: int|
        #![trigger removals_upto(stacks, k)[j]]
        0 <= j < removals_upto(stacks, k).len() implies {
            let r = removals_upto(stacks, k)[j];
            let st = stacks[r.stack as int]@;
            &&& r.stack < k
            &&& last_group(st) is Some
            &&& last_group(st)->0.count() == 13
            &&& last_group(st)->0.suit == r.suit
            &&& r.flip_card == (st.len() > 13 && !st[st.len() - 14].is_facing_up)
        } by {
        assert(removal_fits(stacks, k, removals_upto(stacks, k)[j]));
    }
}
} // verus!
